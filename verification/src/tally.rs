//! Counting the blocks found in a chunk by their names.

use vstd::prelude::*;
use crate::chunk::matches_model;

verus! {

/// The names one of which is `name`.
pub open spec fn named(name: Seq<char>) -> spec_fn(Seq<char>) -> bool {
    |other: Seq<char>| other == name
}

/// How often `name` stands in `names`.
pub open spec fn occurrences(names: Seq<Seq<char>>, name: Seq<char>) -> nat {
    names.filter(named(name)).len()
}

/// The names that stand in `names`, each once, where it stands first.
pub open spec fn distinct_names(names: Seq<Seq<char>>) -> Seq<Seq<char>>
    decreases names.len(),
{
    if names.len() == 0 {
        Seq::empty()
    } else {
        let before = distinct_names(names.drop_last());
        if before.contains(names.last()) {
            before
        } else {
            before.push(names.last())
        }
    }
}

/// Each name that stands in `names` with the number of times it does, in
/// the order in which the names first occur.
pub open spec fn name_counts(names: Seq<Seq<char>>) -> Seq<(Seq<char>, nat)> {
    distinct_names(names).map_values(|name: Seq<char>| (name, occurrences(names, name)))
}

/// The sum of the counts.
pub open spec fn total(counts: Seq<(Seq<char>, nat)>) -> nat
    decreases counts.len(),
{
    if counts.len() == 0 {
        0
    } else {
        total(counts.drop_last()) + counts.last().1
    }
}

/// The names of the blocks found.
pub open spec fn names_of(matches: Seq<((int, int, int), Seq<char>)>) -> Seq<Seq<char>> {
    matches.map_values(|m: ((int, int, int), Seq<char>)| m.1)
}

/// Names with their counts, as mathematical values.
pub open spec fn counts_model(counts: Seq<(String, usize)>) -> Seq<(Seq<char>, nat)> {
    counts.map_values(|entry: (String, usize)| (entry.0@, entry.1 as nat))
}

/// The distinct names of `names` are the names that stand in `names`, and
/// none of them stands twice among them.
pub proof fn lemma_distinct_names(names: Seq<Seq<char>>)
    ensures
        distinct_names(names).no_duplicates(),
        forall|name: Seq<char>| #[trigger]
            distinct_names(names).contains(name) <==> names.contains(name),
    decreases names.len(),
{
    if names.len() > 0 {
        let rest = names.drop_last();
        let last = names.last();
        lemma_distinct_names(rest);
        let before = distinct_names(rest);
        assert forall|name: Seq<char>| #[trigger]
            distinct_names(names).contains(name) <==> names.contains(name) by {
            if names.contains(name) {
                let i = choose|i: int| 0 <= i < names.len() && names[i] == name;
                if i < rest.len() {
                    assert(rest[i] == name);
                    assert(before.contains(name));
                    let k = choose|k: int| 0 <= k < before.len() && before[k] == name;
                    assert(distinct_names(names)[k] == name);
                } else if before.contains(last) {
                } else {
                    assert(distinct_names(names)[before.len() as int] == name);
                }
            }
            if distinct_names(names).contains(name) {
                let k = choose|k: int|
                    0 <= k < distinct_names(names).len() && distinct_names(names)[k] == name;
                if k < before.len() {
                    assert(before[k] == name);
                    assert(before.contains(name));
                    assert(rest.contains(name));
                    let i = choose|i: int| 0 <= i < rest.len() && rest[i] == name;
                    assert(names[i] == name);
                } else {
                    assert(names[names.len() - 1] == name);
                }
            }
        }
    }
}

/// One more name raises the number of its own occurrences by one and leaves
/// that of every other name as it was.
pub proof fn lemma_occurrences_push(names: Seq<Seq<char>>, added: Seq<char>, name: Seq<char>)
    ensures
        occurrences(names.push(added), name) == occurrences(names, name) + if added == name {
            1nat
        } else {
            0nat
        },
{
    names.lemma_filter_push(added, named(name));
}

/// A name stands in `names` exactly if the number of its occurrences is
/// not 0.
pub proof fn lemma_occurrences_positive(names: Seq<Seq<char>>, name: Seq<char>)
    ensures
        names.contains(name) <==> occurrences(names, name) > 0,
    decreases names.len(),
{
    if names.len() == 0 {
        reveal(Seq::filter);
    } else {
        let rest = names.drop_last();
        assert(names =~= rest.push(names.last()));
        lemma_occurrences_positive(rest, name);
        lemma_occurrences_push(rest, names.last(), name);
        if rest.contains(name) {
            let i = choose|i: int| 0 <= i < rest.len() && rest[i] == name;
            assert(names[i] == name);
        }
        if names.contains(name) && names.last() != name {
            let i = choose|i: int| 0 <= i < names.len() && names[i] == name;
            assert(rest[i] == name);
        }
        if names.last() == name {
            assert(names[names.len() - 1] == name);
        }
    }
}

/// A name that was counted before has its count raised by one when it comes
/// again, and nothing else changes.
pub proof fn lemma_counts_of_known_name(names: Seq<Seq<char>>, added: Seq<char>, at: int)
    requires
        0 <= at < distinct_names(names).len(),
        distinct_names(names)[at] == added,
    ensures
        name_counts(names.push(added)) == name_counts(names).update(
            at,
            (added, occurrences(names, added) + 1),
        ),
{
    let longer = names.push(added);
    assert(longer.drop_last() =~= names);
    assert(distinct_names(names).contains(added));
    assert(distinct_names(longer) == distinct_names(names));
    lemma_distinct_names(names);
    assert forall|k: int| 0 <= k < distinct_names(names).len() implies #[trigger] name_counts(
        longer,
    )[k] == name_counts(names).update(at, (added, occurrences(names, added) + 1))[k] by {
        lemma_occurrences_push(names, added, distinct_names(names)[k]);
    }
    assert(name_counts(longer) =~= name_counts(names).update(
        at,
        (added, occurrences(names, added) + 1),
    ));
}

/// A name that comes for the first time is counted once, behind the names
/// counted before, and nothing else changes.
pub proof fn lemma_counts_of_new_name(names: Seq<Seq<char>>, added: Seq<char>)
    requires
        !distinct_names(names).contains(added),
    ensures
        name_counts(names.push(added)) == name_counts(names).push((added, 1nat)),
{
    let longer = names.push(added);
    assert(longer.drop_last() =~= names);
    assert(distinct_names(longer) == distinct_names(names).push(added));
    lemma_distinct_names(names);
    lemma_occurrences_positive(names, added);
    lemma_occurrences_push(names, added, added);
    assert forall|k: int| 0 <= k < distinct_names(names).len() implies #[trigger] name_counts(
        longer,
    )[k] == name_counts(names)[k] by {
        lemma_occurrences_push(names, added, distinct_names(names)[k]);
        assert(distinct_names(names).contains(distinct_names(names)[k]));
    }
    assert(name_counts(longer) =~= name_counts(names).push((added, 1nat)));
}

/// Raising one count by one raises the sum of the counts by one.
pub proof fn lemma_total_update(counts: Seq<(Seq<char>, nat)>, at: int, name: Seq<char>)
    requires
        0 <= at < counts.len(),
    ensures
        total(counts.update(at, (name, counts[at].1 + 1))) == total(counts) + 1,
    decreases counts.len(),
{
    let raised = counts.update(at, (name, counts[at].1 + 1));
    if at == counts.len() - 1 {
        assert(raised.drop_last() =~= counts.drop_last());
    } else {
        lemma_total_update(counts.drop_last(), at, name);
        assert(raised.drop_last() =~= counts.drop_last().update(at, (name, counts[at].1 + 1)));
    }
}

/// The counts of the names add up to the number of names: every block found
/// is counted once.
pub proof fn lemma_counts_add_up(names: Seq<Seq<char>>)
    ensures
        total(name_counts(names)) == names.len(),
    decreases names.len(),
{
    if names.len() == 0 {
        assert(name_counts(names) =~= Seq::empty());
    } else {
        let rest = names.drop_last();
        let last = names.last();
        assert(names =~= rest.push(last));
        lemma_counts_add_up(rest);
        if distinct_names(rest).contains(last) {
            let at = choose|at: int|
                0 <= at < distinct_names(rest).len() && distinct_names(rest)[at] == last;
            lemma_counts_of_known_name(rest, last, at);
            lemma_total_update(name_counts(rest), at, last);
        } else {
            lemma_counts_of_new_name(rest, last);
            assert(name_counts(rest).push((last, 1nat)).drop_last() =~= name_counts(rest));
        }
    }
}

/// Counts the blocks found in one chunk by their names. Each name that
/// occurs gets one entry, which holds how many of the blocks have exactly
/// that name. The entries stand in the order in which the names first
/// occur, and their counts add up to the number of blocks.
pub fn count_by_name(blocks: &Vec<((i32, i32, i32), String)>) -> (counts: Vec<(String, usize)>)
    ensures
        counts_model(counts@) == name_counts(names_of(matches_model(blocks@))),
        total(counts_model(counts@)) == blocks.len(),
{
    let ghost names = names_of(matches_model(blocks@));
    let mut counts: Vec<(String, usize)> = Vec::new();
    let mut i: usize = 0;
    proof {
        assert(names.take(0) =~= Seq::empty());
        assert(counts_model(counts@) =~= name_counts(names.take(0)));
    }
    while i < blocks.len()
        invariant
            i <= blocks.len(),
            names == names_of(matches_model(blocks@)),
            names.len() == blocks.len(),
            counts_model(counts@) == name_counts(names.take(i as int)),
        decreases blocks.len() - i,
    {
        let name = &blocks[i].1;
        let ghost seen = names.take(i as int);
        proof {
            assert(names[i as int] == name@);
            assert(seen.push(name@) =~= names.take(i + 1));
            lemma_distinct_names(seen);
            lemma_counts_add_up(seen);
        }
        let mut at: usize = 0;
        assert(counts.len() == distinct_names(seen).len()) by {
            assert(counts_model(counts@).len() == counts.len());
            assert(name_counts(seen).len() == distinct_names(seen).len());
        }
        while at < counts.len() && !(counts[at].0 == *name)
            invariant
                at <= counts.len(),
                counts.len() == distinct_names(seen).len(),
                counts_model(counts@) == name_counts(seen),
                forall|k: int| 0 <= k < at ==> #[trigger] distinct_names(seen)[k] != name@,
            decreases counts.len() - at,
        {
            assert(counts_model(counts@)[at as int].0 == name_counts(seen)[at as int].0);
            at += 1;
        }
        if at < counts.len() {
            proof {
                assert(counts_model(counts@)[at as int].0 == name_counts(seen)[at as int].0);
                lemma_counts_of_known_name(seen, name@, at as int);
                lemma_occurrences_count_bound(seen, name@);
            }
            let ghost before = counts@;
            let raised: usize = counts[at].1 + 1;
            counts[at].1 = raised;
            assert(counts_model(counts@) =~= counts_model(before).update(
                at as int,
                (name@, raised as nat),
            ));
        } else {
            proof {
                lemma_counts_of_new_name(seen, name@);
            }
            let ghost before = counts@;
            counts.push((name.clone(), 1));
            assert(counts_model(counts@) =~= counts_model(before).push((name@, 1nat)));
        }
        i += 1;
    }
    proof {
        assert(names.take(i as int) =~= names);
        lemma_counts_add_up(names);
    }
    counts
}

/// No name occurs more often than there are names.
pub proof fn lemma_occurrences_count_bound(names: Seq<Seq<char>>, name: Seq<char>)
    ensures
        occurrences(names, name) <= names.len(),
{
    names.lemma_filter_len(named(name));
}

} // verus!
