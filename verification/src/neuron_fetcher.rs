//! The staked-position source.

use crate::holding::{known_status, lemma_known_statuses, Holding, HoldingView};
use vstd::prelude::*;

verus! {

/// The staked position that every identity is reported to hold.
pub open spec fn staked_position() -> HoldingView {
    HoldingView { source: "neuron"@, token: "ICP"@, amount: "1200"@, status: "locked_8y"@ }
}

/// The staked positions of an identity: the one fixed position.
pub fn fetch() -> (r: Vec<Holding>)
    ensures
        r@.len() == 1,
        r@[0]@ == staked_position(),
        known_status(r@[0]@.status),
{
    proof {
        lemma_known_statuses();
    }
    let mut out: Vec<Holding> = Vec::new();
    out.push(
        Holding::new("neuron", String::from_str("ICP"), String::from_str("1200"), "locked_8y"),
    );
    out
}

} // verus!
