//! The fan-out over the position adapters: one call each, merged in a fixed
//! order, the first failure aborting the whole.

use crate::error::{FetchError, FetchErrorView};
use crate::holding::{append_holdings, views, Holding, HoldingView};
use vstd::prelude::*;

verus! {

/// Seconds given to one adapter's fetch when none are configured.
pub const DEFAULT_FETCH_ADAPTER_TIMEOUT_SECS: u64 = 5;

/// Mathematical value of what one adapter answered.
pub type OutcomeView = Result<Seq<HoldingView>, FetchErrorView>;

/// The value of what one adapter answered.
pub open spec fn outcome_view(r: Result<Vec<Holding>, FetchError>) -> OutcomeView {
    match r {
        Ok(items) => Ok(views(items@)),
        Err(e) => Err(e@),
    }
}

/// The values of what the adapters answered, in adapter order.
pub open spec fn outcome_views(rs: Seq<Result<Vec<Holding>, FetchError>>) -> Seq<OutcomeView> {
    rs.map_values(|r: Result<Vec<Holding>, FetchError>| outcome_view(r))
}

/// The answers of the adapters merged: the error of the first adapter, in
/// adapter order, that failed; without a failure, all holdings in adapter
/// order.
pub open spec fn merged(rs: Seq<OutcomeView>) -> OutcomeView
    decreases rs.len(),
{
    if rs.len() == 0 {
        Ok(Seq::empty())
    } else {
        match merged(rs.drop_last()) {
            Err(e) => Err(e),
            Ok(sofar) => match rs.last() {
                Ok(items) => Ok(sofar + items),
                Err(e) => Err(e),
            },
        }
    }
}

/// True when `answer` is what the call `raw` counts as: its answer where
/// it came in time, a network error with the reason `timeout` where it did
/// not (`None`).
pub open spec fn settles(
    raw: Option<Result<Vec<Holding>, FetchError>>,
    answer: Result<Vec<Holding>, FetchError>,
) -> bool {
    match raw {
        Some(inner) => answer == inner,
        None => outcome_view(answer) == Err::<Seq<HoldingView>, FetchErrorView>(
            FetchErrorView::Network("timeout"@),
        ),
    }
}

/// Turns a call that timed out into a network error.
pub fn with_timeout(answer: Option<Result<Vec<Holding>, FetchError>>) -> (r: Result<
    Vec<Holding>,
    FetchError,
>)
    ensures
        settles(answer, r),
{
    match answer {
        Some(inner) => inner,
        None => Err(FetchError::timeout()),
    }
}

/// Merges what the adapters answered, given in adapter order.
pub fn merge(results: &Vec<Result<Vec<Holding>, FetchError>>) -> (r: Result<Vec<Holding>, FetchError>)
    ensures
        outcome_view(r) == merged(outcome_views(results@)),
{
    let ghost all = outcome_views(results@);
    let mut out: Vec<Holding> = Vec::new();
    let mut i: usize = 0;
    proof {
        assert(views(out@) =~= Seq::<HoldingView>::empty());
        assert(all.take(0) =~= Seq::<OutcomeView>::empty());
    }
    while i < results.len()
        invariant
            i <= results@.len(),
            all == outcome_views(results@),
            merged(all.take(i as int)) == Ok::<Seq<HoldingView>, FetchErrorView>(views(out@)),
        decreases results@.len() - i,
    {
        proof {
            assert(all.take(i as int + 1).drop_last() =~= all.take(i as int));
            assert(all.take(i as int + 1).last() == outcome_view(results@[i as int]));
        }
        match &results[i] {
            Ok(items) => {
                append_holdings(&mut out, items);
            },
            Err(e) => {
                let failure = e.clone();
                proof {
                    lemma_failure_sticks(all, i as int + 1);
                }
                return Err(failure);
            },
        }
        i += 1;
    }
    proof {
        assert(all.take(results@.len() as int) =~= all);
    }
    Ok(out)
}

/// Once a prefix of the answers has failed, the whole has failed the same
/// way.
pub proof fn lemma_failure_sticks(rs: Seq<OutcomeView>, upto: int)
    requires
        0 <= upto <= rs.len(),
        merged(rs.take(upto)) is Err,
    ensures
        merged(rs) == merged(rs.take(upto)),
    decreases rs.len() - upto,
{
    if upto < rs.len() {
        assert(rs.take(upto + 1).drop_last() =~= rs.take(upto));
        lemma_failure_sticks(rs, upto + 1);
    } else {
        assert(rs.take(upto) =~= rs);
    }
}

/// Asks `count` adapters, each through `call` with its place in the adapter
/// order, `None` standing for a call that timed out, and merges their
/// answers. Every adapter is asked, whether or not an earlier one failed.
pub fn fetch<F: Fn(usize) -> Option<Result<Vec<Holding>, FetchError>>>(count: usize, call: F) -> (r:
    Result<Vec<Holding>, FetchError>)
    requires
        forall|i: usize| i < count ==> call.requires((i,)),
    ensures
        exists|raws: Seq<Option<Result<Vec<Holding>, FetchError>>>, answers: Seq<Result<Vec<Holding>, FetchError>>|
            {
                &&& raws.len() == count
                &&& answers.len() == count
                &&& forall|i: int|
                    0 <= i < count ==> call.ensures((i as usize,), #[trigger] raws[i]) && settles(
                        raws[i],
                        answers[i],
                    )
                &&& outcome_view(r) == merged(outcome_views(answers))
            },
{
    let mut answers: Vec<Result<Vec<Holding>, FetchError>> = Vec::new();
    let ghost mut raws: Seq<Option<Result<Vec<Holding>, FetchError>>> = Seq::empty();
    let mut i: usize = 0;
    while i < count
        invariant
            i <= count,
            answers@.len() == i,
            raws.len() == i,
            forall|k: usize| k < count ==> call.requires((k,)),
            forall|k: int|
                0 <= k < i ==> call.ensures((k as usize,), #[trigger] raws[k]) && settles(
                    raws[k],
                    answers@[k],
                ),
        decreases count - i,
    {
        let raw = call(i);
        proof {
            raws = raws.push(raw);
        }
        let settled = with_timeout(raw);
        answers.push(settled);
        i += 1;
    }
    merge(&answers)
}

} // verus!
