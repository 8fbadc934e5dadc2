//! The position adapters: what each of them shares, and one module per
//! protocol.

pub mod dex_icpswap;
pub mod dex_infinity;
pub mod dex_sonic;
pub mod sns_adapter;

use crate::dex::dex_icpswap::IcpswapAdapter;
use crate::dex::dex_infinity::InfinityAdapter;
use crate::dex::dex_sonic::SonicAdapter;
use crate::dex::sns_adapter::SnsAdapter;
use crate::error::{FetchError, FetchErrorView};
use crate::holding::{views, Holding, HoldingView};
use crate::identity::Identity;
use crate::ledger_fetcher::no_metadata;
use crate::lp_cache::{no_positions, PositionCache};
use vstd::prelude::*;

verus! {

/// A reward that can be claimed.
#[derive(Debug, PartialEq)]
pub struct RewardInfo {
    /// Token symbol.
    pub token: String,
    /// Exact decimal string.
    pub amount: String,
}

/// Mathematical value of a [`RewardInfo`].
pub struct RewardInfoView {
    pub token: Seq<char>,
    pub amount: Seq<char>,
}

impl View for RewardInfo {
    type V = RewardInfoView;

    open spec fn view(&self) -> RewardInfoView {
        RewardInfoView { token: self.token@, amount: self.amount@ }
    }
}

impl Clone for RewardInfo {
    fn clone(&self) -> (r: Self)
        ensures
            r@ == self@,
    {
        RewardInfo { token: self.token.clone(), amount: self.amount.clone() }
    }
}

/// The rewards that a list of claimable holdings stands for: token and
/// amount of each, in order.
pub open spec fn rewards_of(items: Seq<HoldingView>) -> Seq<RewardInfoView> {
    items.map_values(|h: HoldingView| RewardInfoView { token: h.token, amount: h.amount })
}

/// The values of a list of rewards, in order.
pub open spec fn reward_views(items: Seq<RewardInfo>) -> Seq<RewardInfoView> {
    items.map_values(|r: RewardInfo| r@)
}

/// Turns claimable holdings into rewards.
pub fn rewards_from(holdings: &Vec<Holding>) -> (r: Vec<RewardInfo>)
    ensures
        reward_views(r@) == rewards_of(views(holdings@)),
{
    let mut out: Vec<RewardInfo> = Vec::with_capacity(holdings.len());
    let mut i: usize = 0;
    while i < holdings.len()
        invariant
            i <= holdings@.len(),
            out@.len() == i,
            forall|j: int|
                0 <= j < i ==> out@[j]@ == (RewardInfoView {
                    token: holdings@[j].token@,
                    amount: holdings@[j].amount@,
                }),
        decreases holdings@.len() - i,
    {
        out.push(RewardInfo { token: holdings[i].token.clone(), amount: holdings[i].amount.clone() });
        i += 1;
    }
    proof {
        assert(reward_views(out@) =~= rewards_of(views(holdings@)));
    }
    out
}

/// The rewards of an adapter that has none to claim.
pub fn claimable_rewards() -> (r: Vec<RewardInfo>)
    ensures
        r@.len() == 0,
{
    Vec::new()
}

/// What an adapter that cannot claim spends: nothing.
pub fn claim_rewards() -> (r: Result<u64, String>)
    ensures
        r == Ok::<u64, String>(0),
{
    Ok(0)
}

/// The target that an adapter works against, or the failure that names the
/// configuration field that should have held it.
pub fn resolve_target(field: &str, configured: Option<Identity>) -> (r: Result<Identity, FetchError>)
    ensures
        match configured {
            Some(id) => r is Ok && r->Ok_0@ == id@,
            None => r is Err && r->Err_0@ == FetchErrorView::InvalidConfig(field@),
        },
{
    match configured {
        Some(id) => Ok(id),
        None => Err(FetchError::invalid_config(field)),
    }
}

/// Forgets everything that is cached of the position sources: the metadata
/// that the adapters hold and every cached list of positions, so that the
/// next read of each goes to the source.
pub fn clear_all_caches(
    icpswap: &mut IcpswapAdapter,
    sonic: &mut SonicAdapter,
    infinity: &mut InfinityAdapter,
    sns: &mut SnsAdapter,
    positions: &mut PositionCache,
)
    ensures
        final(positions)@ == no_positions(),
        final(icpswap)@ == dex_icpswap::no_pools(),
        final(infinity).meta@.entries == no_metadata(),
        final(infinity).meta@.ttl == old(infinity).meta@.ttl,
        *final(sonic) == *old(sonic),
        *final(sns) == *old(sns),
{
    icpswap.clear_cache();
    sonic.clear_cache();
    infinity.clear_cache();
    sns.clear_cache();
    positions.clear();
}

} // verus!
