//! The order of the results: nearest chunk first.

use vstd::prelude::*;
use crate::chunk::{results_model, BlockResults, BlockResultsModel};
use crate::distance::{as_point, squared_distance, squared_distance_between};

verus! {

/// The square of the horizontal distance from `home` to the origin of the
/// chunk of `result`.
pub open spec fn distance_key(result: BlockResultsModel, home: (i32, i32)) -> int {
    squared_distance((result.chunk.0, result.chunk.2), as_point(home))
}

/// The results come by rising distance of their chunks from `home`.
pub open spec fn nearest_first(results: Seq<BlockResultsModel>, home: (i32, i32)) -> bool {
    forall|i: int, j: int|
        0 <= i <= j < results.len() ==> distance_key(#[trigger] results[i], home) <= distance_key(
            #[trigger] results[j],
            home,
        )
}

/// The results whose chunks lie at the squared distance `d` from `home`.
pub open spec fn at_distance(home: (i32, i32), d: int) -> spec_fn(BlockResultsModel) -> bool {
    |result: BlockResultsModel| distance_key(result, home) == d
}

/// `after` holds the results of `before`, and those at one distance from
/// `home` stand in `after` in the order in which they stand in `before`.
pub open spec fn same_order_at_each_distance(
    before: Seq<BlockResultsModel>,
    after: Seq<BlockResultsModel>,
    home: (i32, i32),
) -> bool {
    forall|d: int| #[trigger]
        after.filter(at_distance(home, d)) == before.filter(at_distance(home, d))
}

/// `after` is `before` sorted by distance from `home`, results at equal
/// distance keeping their order. There is one such sequence for each
/// `before`.
pub open spec fn sorted_by_distance(
    before: Seq<BlockResultsModel>,
    after: Seq<BlockResultsModel>,
    home: (i32, i32),
) -> bool {
    &&& after.len() == before.len()
    &&& nearest_first(after, home)
    &&& same_order_at_each_distance(before, after, home)
}

/// Putting `x` into sorted results, behind every result that is no further
/// from `home` than `x` and before every result that is further, keeps them
/// sorted, and keeps the order at each distance that of the results with `x`
/// added at their end.
pub proof fn lemma_insert_sorted(
    before: Seq<BlockResultsModel>,
    sorted: Seq<BlockResultsModel>,
    home: (i32, i32),
    x: BlockResultsModel,
    at: int,
)
    requires
        sorted_by_distance(before, sorted, home),
        0 <= at <= sorted.len(),
        forall|j: int| 0 <= j < at ==> distance_key(#[trigger] sorted[j], home) <= distance_key(x, home),
        forall|j: int|
            at <= j < sorted.len() ==> distance_key(#[trigger] sorted[j], home) > distance_key(
                x,
                home,
            ),
    ensures
        sorted_by_distance(before.push(x), sorted.insert(at, x), home),
{
    let after = sorted.insert(at, x);
    let head = sorted.subrange(0, at);
    let tail = sorted.subrange(at, sorted.len() as int);
    assert(sorted =~= head + tail);
    assert(after =~= head.push(x) + tail);
    assert forall|i: int, j: int| 0 <= i <= j < after.len() implies distance_key(
        #[trigger] after[i],
        home,
    ) <= distance_key(#[trigger] after[j], home) by {
        let a = if i < at { sorted[i] } else if i == at { x } else { sorted[i - 1] };
        let b = if j < at { sorted[j] } else if j == at { x } else { sorted[j - 1] };
        assert(after[i] == a);
        assert(after[j] == b);
    }
    assert forall|d: int| #[trigger]
        after.filter(at_distance(home, d)) == before.push(x).filter(at_distance(home, d)) by {
        let keep = at_distance(home, d);
        Seq::filter_distributes_over_add(head, tail, keep);
        Seq::filter_distributes_over_add(head.push(x), tail, keep);
        head.lemma_filter_push(x, keep);
        before.lemma_filter_push(x, keep);
        assert(sorted.filter(keep) == before.filter(keep));
        if keep(x) {
            assert(tail.filter(keep).len() == 0) by {
                assert forall|k: int| 0 <= k < tail.len() implies !keep(#[trigger] tail[k]) by {
                    assert(tail[k] == sorted[at + k]);
                }
                assert(tail.all(|r: BlockResultsModel| !keep(r)));
                tail.lemma_all_neg_filter_empty(keep);
            }
            assert(tail.filter(keep) =~= Seq::empty());
            assert(after.filter(keep) =~= head.filter(keep).push(x));
            assert(sorted.filter(keep) =~= head.filter(keep));
        }
    }
}

/// Sorting adds no result and leaves none out: a result stands among the
/// sorted results exactly if it stood among those that were sorted.
pub proof fn lemma_sorted_holds_the_same(
    before: Seq<BlockResultsModel>,
    after: Seq<BlockResultsModel>,
    home: (i32, i32),
    result: BlockResultsModel,
)
    requires
        sorted_by_distance(before, after, home),
    ensures
        after.contains(result) <==> before.contains(result),
{
    let keep = at_distance(home, distance_key(result, home));
    assert(after.filter(keep) == before.filter(keep));
    if after.contains(result) {
        let i = choose|i: int| 0 <= i < after.len() && after[i] == result;
        after.lemma_filter_contains(keep, i);
        before.lemma_filter_contains_rev(keep, result);
    }
    if before.contains(result) {
        let i = choose|i: int| 0 <= i < before.len() && before[i] == result;
        before.lemma_filter_contains(keep, i);
        after.lemma_filter_contains_rev(keep, result);
    }
}

/// Of results that come nearest first the last is the furthest: none of
/// them lies at a distance beyond that of the last.
proof fn lemma_last_is_furthest(results: Seq<BlockResultsModel>, home: (i32, i32), d: int)
    requires
        nearest_first(results, home),
        results.filter(at_distance(home, d)).len() > 0,
    ensures
        results.len() > 0,
        d <= distance_key(results.last(), home),
{
    let keep = at_distance(home, d);
    let kept = results.filter(keep);
    results.lemma_filter_pred(keep, 0);
    results.lemma_filter_contains_rev(keep, kept[0]);
    assert(kept.contains(kept[0]));
    assert(results.contains(kept[0]));
    let i = choose|i: int| 0 <= i < results.len() && results[i] == kept[0];
    assert(distance_key(results[i], home) <= distance_key(results[results.len() - 1], home));
}

/// Two sequences that both come nearest first and hold the same results in
/// the same order at each distance are one and the same.
pub proof fn lemma_order_is_unique(
    first: Seq<BlockResultsModel>,
    second: Seq<BlockResultsModel>,
    home: (i32, i32),
)
    requires
        first.len() == second.len(),
        nearest_first(first, home),
        nearest_first(second, home),
        same_order_at_each_distance(first, second, home),
    ensures
        first == second,
    decreases first.len(),
{
    if first.len() == 0 {
        assert(first =~= second);
    } else {
        let x = first.last();
        let y = second.last();
        let a = first.drop_last();
        let b = second.drop_last();
        assert(first =~= a.push(x));
        assert(second =~= b.push(y));
        let dx = distance_key(x, home);
        let dy = distance_key(y, home);
        a.lemma_filter_push(x, at_distance(home, dx));
        b.lemma_filter_push(y, at_distance(home, dy));
        assert(second.filter(at_distance(home, dx)) == first.filter(at_distance(home, dx)));
        assert(second.filter(at_distance(home, dy)) == first.filter(at_distance(home, dy)));
        lemma_last_is_furthest(second, home, dx);
        lemma_last_is_furthest(first, home, dy);
        assert(dx == dy);
        assert(x == y) by {
            assert(first.filter(at_distance(home, dx)).last() == x);
            assert(second.filter(at_distance(home, dx)).last() == y);
        }
        assert forall|d: int| #[trigger]
            b.filter(at_distance(home, d)) == a.filter(at_distance(home, d)) by {
            let keep = at_distance(home, d);
            a.lemma_filter_push(x, keep);
            b.lemma_filter_push(y, keep);
            assert(second.filter(keep) == first.filter(keep));
            if keep(x) {
                assert(a.filter(keep) =~= a.filter(keep).push(x).drop_last());
                assert(b.filter(keep) =~= b.filter(keep).push(x).drop_last());
            }
        }
        assert(nearest_first(a, home)) by {
            assert forall|i: int, j: int| 0 <= i <= j < a.len() implies distance_key(
                #[trigger] a[i],
                home,
            ) <= distance_key(#[trigger] a[j], home) by {
                assert(a[i] == first[i] && a[j] == first[j]);
            }
        }
        assert(nearest_first(b, home)) by {
            assert forall|i: int, j: int| 0 <= i <= j < b.len() implies distance_key(
                #[trigger] b[i],
                home,
            ) <= distance_key(#[trigger] b[j], home) by {
                assert(b[i] == second[i] && b[j] == second[j]);
            }
        }
        lemma_order_is_unique(a, b, home);
    }
}

/// Sorting by distance has one result: whatever is sorted as
/// [`sorted_by_distance`] says is the same sequence.
pub proof fn lemma_sorted_is_unique(
    before: Seq<BlockResultsModel>,
    first: Seq<BlockResultsModel>,
    second: Seq<BlockResultsModel>,
    home: (i32, i32),
)
    requires
        sorted_by_distance(before, first, home),
        sorted_by_distance(before, second, home),
    ensures
        first == second,
{
    assert forall|d: int| #[trigger]
        second.filter(at_distance(home, d)) == first.filter(at_distance(home, d)) by {
        assert(first.filter(at_distance(home, d)) == before.filter(at_distance(home, d)));
    }
    lemma_order_is_unique(first, second, home);
}

/// The results `before`, sorted by distance from `home`, results at equal
/// distance keeping their order.
pub open spec fn sorted_from(before: Seq<BlockResultsModel>, home: (i32, i32)) -> Seq<
    BlockResultsModel,
> {
    choose|after: Seq<BlockResultsModel>| sorted_by_distance(before, after, home)
}

/// Whatever is `before` sorted by distance is [`sorted_from`] `before`.
pub proof fn lemma_sorted_from(
    before: Seq<BlockResultsModel>,
    after: Seq<BlockResultsModel>,
    home: (i32, i32),
)
    requires
        sorted_by_distance(before, after, home),
    ensures
        sorted_from(before, home) == after,
{
    lemma_sorted_is_unique(before, sorted_from(before, home), after, home);
}

/// The square of the horizontal distance from `home` to the chunk of
/// `result`.
pub fn distance_of(result: &BlockResults, home: (i32, i32)) -> (d: i128)
    ensures
        d == distance_key(result@, home),
{
    squared_distance_between((result.chunk.0, result.chunk.2), home)
}

/// Sorts the results by the distance of their chunks from `home`, nearest
/// first. Results at the same distance keep the order in which they came.
pub fn sort_by_distance(results: Vec<BlockResults>, home: (i32, i32)) -> (sorted: Vec<BlockResults>)
    ensures
        sorted_by_distance(results_model(results@), results_model(sorted@), home),
        results_model(sorted@) == sorted_from(results_model(results@), home),
{
    let ghost all = results_model(results@);
    let mut sorted: Vec<BlockResults> = Vec::new();
    proof {
        assert(results_model(sorted@) =~= Seq::<BlockResultsModel>::empty());
        assert(all.take(0) =~= Seq::<BlockResultsModel>::empty());
    }
    for result in it: results
        invariant
            all == results_model(it.seq()),
            sorted_by_distance(all.take(it.index() as int), results_model(sorted@), home),
    {
        let ghost before = all.take(it.index() as int);
        let ghost old_sorted = sorted@;
        let key = distance_of(&result, home);
        let mut at: usize = sorted.len();
        while at > 0 && distance_of(&sorted[at - 1], home) > key
            invariant
                at <= sorted.len(),
                key == distance_key(result@, home),
                forall|j: int|
                    at <= j < sorted.len() ==> distance_key(
                        #[trigger] results_model(sorted@)[j],
                        home,
                    ) > key,
            decreases at,
        {
            at -= 1;
        }
        proof {
            let model = results_model(sorted@);
            assert forall|j: int| 0 <= j < at implies distance_key(#[trigger] model[j], home)
                <= key by {
                assert(distance_key(model[j], home) <= distance_key(model[at - 1], home));
            }
            lemma_insert_sorted(before, model, home, result@, at as int);
            assert(before.push(result@) =~= all.take(it.index() + 1));
        }
        sorted.insert(at, result);
        assert(results_model(sorted@) =~= results_model(old_sorted).insert(at as int, result@));
    }
    proof {
        assert(all.take(all.len() as int) =~= all);
        lemma_sorted_from(all, results_model(sorted@), home);
    }
    sorted
}

} // verus!
