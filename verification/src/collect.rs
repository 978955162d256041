//! Putting the results of the region files together.

use vstd::prelude::*;
use crate::chunk::{results_model, BlockResults, BlockResultsModel};

verus! {

/// The outcome of the search of one file, as a mathematical value.
pub open spec fn outcome_model<E>(outcome: Result<Vec<BlockResults>, E>) -> Result<
    Seq<BlockResultsModel>,
    E,
> {
    match outcome {
        Ok(found) => Ok(results_model(found@)),
        Err(e) => Err(e),
    }
}

/// The outcomes of the searches of many files, as mathematical values.
pub open spec fn outcomes_model<E>(outcomes: Seq<Result<Vec<BlockResults>, E>>) -> Seq<
    Result<Seq<BlockResultsModel>, E>,
> {
    outcomes.map_values(|outcome: Result<Vec<BlockResults>, E>| outcome_model(outcome))
}

/// What the searches of all files yield together: where every file was
/// searched, the results of the first file, then those of the second, and so
/// on; where a search failed, the failure of the first file that has one.
pub open spec fn gathered<E>(outcomes: Seq<Result<Seq<BlockResultsModel>, E>>) -> Result<
    Seq<BlockResultsModel>,
    E,
>
    decreases outcomes.len(),
{
    if outcomes.len() == 0 {
        Ok(Seq::empty())
    } else {
        match gathered(outcomes.drop_last()) {
            Ok(before) => match outcomes.last() {
                Ok(found) => Ok(before + found),
                Err(e) => Err(e),
            },
            Err(e) => Err(e),
        }
    }
}

/// A failure among the first files is the failure of the whole, whatever the
/// later files yield.
pub proof fn lemma_failure_is_final<E>(outcomes: Seq<Result<Seq<BlockResultsModel>, E>>, upto: int)
    requires
        0 <= upto <= outcomes.len(),
        gathered(outcomes.take(upto)) is Err,
    ensures
        gathered(outcomes) == gathered(outcomes.take(upto)),
    decreases outcomes.len(),
{
    if upto == outcomes.len() {
        assert(outcomes.take(upto) =~= outcomes);
    } else {
        assert(outcomes.drop_last().take(upto) =~= outcomes.take(upto));
        lemma_failure_is_final(outcomes.drop_last(), upto);
    }
}

/// What each search found, where each succeeded.
pub open spec fn findings<E>(outcomes: Seq<Result<Seq<BlockResultsModel>, E>>) -> Seq<
    Seq<BlockResultsModel>,
> {
    outcomes.map_values(|outcome: Result<Seq<BlockResultsModel>, E>| outcome->Ok_0)
}

/// Where every search succeeds, they yield together what each of them found,
/// in the order of the files.
pub proof fn lemma_all_succeed<E>(outcomes: Seq<Result<Seq<BlockResultsModel>, E>>)
    requires
        forall|i: int| 0 <= i < outcomes.len() ==> (#[trigger] outcomes[i]) is Ok,
    ensures
        gathered(outcomes) == Ok::<Seq<BlockResultsModel>, E>(findings(outcomes).flatten()),
    decreases outcomes.len(),
{
    if outcomes.len() == 0 {
        assert(findings(outcomes) =~= Seq::empty());
    } else {
        let rest = outcomes.drop_last();
        assert forall|i: int| 0 <= i < rest.len() implies (#[trigger] rest[i]) is Ok by {
            assert(outcomes[i] is Ok);
        }
        lemma_all_succeed(rest);
        assert(outcomes[outcomes.len() - 1] is Ok);
        assert(findings(outcomes) =~= findings(rest).push(outcomes.last()->Ok_0));
        findings(rest).lemma_flatten_push(outcomes.last()->Ok_0);
    }
}

/// Where a search fails, the failure of the first file that has one is the
/// failure of the whole.
pub proof fn lemma_first_failure<E>(outcomes: Seq<Result<Seq<BlockResultsModel>, E>>, first: int)
    requires
        0 <= first < outcomes.len(),
        outcomes[first] is Err,
        forall|i: int| 0 <= i < first ==> (#[trigger] outcomes[i]) is Ok,
    ensures
        gathered(outcomes) == Err::<Seq<BlockResultsModel>, E>(outcomes[first]->Err_0),
{
    let before = outcomes.take(first);
    assert forall|i: int| 0 <= i < before.len() implies (#[trigger] before[i]) is Ok by {
        assert(outcomes[i] is Ok);
    }
    lemma_all_succeed(before);
    let upto = outcomes.take(first + 1);
    assert(upto.drop_last() =~= before);
    assert(upto.last() == outcomes[first]);
    lemma_failure_is_final(outcomes, first + 1);
}

/// Puts the outcomes of the searches of the region files together, in the
/// order of the files. One failed search fails the whole: the first failure
/// in the order of the files is handed on, and no results are.
pub fn collect_results<E>(outcomes: Vec<Result<Vec<BlockResults>, E>>) -> (all: Result<
    Vec<BlockResults>,
    E,
>)
    ensures
        match all {
            Ok(results) => gathered(outcomes_model(outcomes@)) == Ok::<Seq<BlockResultsModel>, E>(
                results_model(results@),
            ),
            Err(e) => gathered(outcomes_model(outcomes@)) == Err::<Seq<BlockResultsModel>, E>(e),
        },
{
    let ghost model = outcomes_model(outcomes@);
    let mut all: Vec<BlockResults> = Vec::new();
    proof {
        assert(model.take(0) =~= Seq::empty());
        assert(results_model(all@) =~= Seq::<BlockResultsModel>::empty());
    }
    for outcome in it: outcomes
        invariant
            model == outcomes_model(it.seq()),
            gathered(model.take(it.index() as int)) == Ok::<Seq<BlockResultsModel>, E>(
                results_model(all@),
            ),
    {
        let ghost k = it.index() as int;
        proof {
            assert(model.take(k + 1).drop_last() =~= model.take(k));
            assert(model.take(k + 1).last() == outcome_model(outcome));
        }
        match outcome {
            Ok(mut found) => {
                let ghost before = all@;
                let ghost added = found@;
                all.append(&mut found);
                assert(results_model(all@) =~= results_model(before) + results_model(added));
            },
            Err(e) => {
                proof {
                    lemma_failure_is_final(model, k + 1);
                }
                return Err(e);
            },
        }
    }
    assert(model.take(model.len() as int) =~= model);
    Ok(all)
}

} // verus!
