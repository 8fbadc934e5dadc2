//! The adapter of the reward-distribution protocol.

use crate::dex::{resolve_target, rewards_from, rewards_of, reward_views, RewardInfo};
use crate::error::{FetchError, FetchErrorView};
use crate::holding::{all_known, known_status, lemma_known_statuses, views, Holding, HoldingView};
use crate::identity::Identity;
use crate::utils::{amount_text, format_amount_of, nat_value};
use candid::Nat;
use vstd::prelude::*;

verus! {

/// One claimable amount as the distributor reports it.
pub struct Claimable {
    /// Token symbol.
    pub symbol: String,
    /// Amount in the token's smallest unit.
    pub amount: Nat,
    /// Decimal places.
    pub decimals: u8,
}

/// The distributor adapter. It caches nothing; it may hold canned answers
/// that stand in for the distributor.
pub struct SnsAdapter {
    canned_claimable: Option<Result<Vec<Claimable>, String>>,
    canned_claim: Option<Result<u64, String>>,
}

/// The holding of one claimable amount.
pub open spec fn claimable_view(c: Claimable) -> HoldingView {
    HoldingView {
        source: "SNS"@,
        token: c.symbol@,
        amount: amount_text(nat_value(c.amount), c.decimals as nat),
        status: "claimable"@,
    }
}

/// The holdings of a list of claimable amounts, in order.
pub open spec fn claimables_view(cs: Seq<Claimable>) -> Seq<HoldingView> {
    cs.map_values(|c: Claimable| claimable_view(c))
}

/// Builds the holdings of the amounts that the distributor reported.
pub fn claimable_holdings(claims: &Vec<Claimable>) -> (r: Vec<Holding>)
    ensures
        views(r@) == claimables_view(claims@),
        all_known(views(r@)),
{
    proof {
        lemma_known_statuses();
    }
    let mut out: Vec<Holding> = Vec::with_capacity(claims.len());
    let mut i: usize = 0;
    while i < claims.len()
        invariant
            i <= claims@.len(),
            out@.len() == i,
            forall|j: int| 0 <= j < i ==> out@[j]@ == claimable_view(claims@[j]),
        decreases claims@.len() - i,
    {
        let c = &claims[i];
        out.push(
            Holding::new(
                "SNS",
                c.symbol.clone(),
                format_amount_of(&c.amount, c.decimals),
                "claimable",
            ),
        );
        i += 1;
    }
    proof {
        assert(views(out@) =~= claimables_view(claims@));
        assert forall|j: int| 0 <= j < views(out@).len() implies known_status(
            (#[trigger] views(out@)[j]).status,
        ) by {
            assert(out@[j]@ == claimable_view(claims@[j]));
        }
    }
    out
}

impl SnsAdapter {
    /// An adapter without canned answers.
    pub fn new() -> (a: SnsAdapter)
        ensures
            a.canned_claimable_spec() is None,
            a.canned_claim_spec() is None,
    {
        SnsAdapter { canned_claimable: None, canned_claim: None }
    }

    /// The canned answer to a request for claimable amounts, if one is set.
    pub closed spec fn canned_claimable_spec(&self) -> Option<Result<Vec<Claimable>, String>> {
        self.canned_claimable
    }

    /// The canned answer to a claim, if one is set.
    pub closed spec fn canned_claim_spec(&self) -> Option<Result<u64, String>> {
        self.canned_claim
    }

    /// Name of the configuration field that holds the distributor.
    pub fn field(&self) -> (s: &'static str)
        ensures
            s@ == "distributor"@,
    {
        "distributor"
    }

    /// Forgets what the adapter has cached, which is nothing.
    pub fn clear_cache(&mut self)
        ensures
            *final(self) == *old(self),
    {
    }

    /// Sets the canned answer to a request for claimable amounts.
    pub fn set_claimable(&mut self, resp: Result<Vec<Claimable>, String>)
        ensures
            final(self).canned_claimable_spec() == Some(resp),
            final(self).canned_claim_spec() == old(self).canned_claim_spec(),
    {
        self.canned_claimable = Some(resp);
    }

    /// Sets the canned answer to a claim.
    pub fn set_claim(&mut self, resp: Result<u64, String>)
        ensures
            final(self).canned_claim_spec() == Some(resp),
            final(self).canned_claimable_spec() == old(self).canned_claimable_spec(),
    {
        self.canned_claim = Some(resp);
    }

    /// The distributor to ask, or `InvalidConfig("distributor")` without
    /// any remote call when none is configured.
    pub fn target(&self, configured: Option<Identity>) -> (r: Result<Identity, FetchError>)
        ensures
            match configured {
                Some(id) => r is Ok && r->Ok_0@ == id@,
                None => r is Err && r->Err_0@ == FetchErrorView::InvalidConfig("distributor"@),
            },
    {
        resolve_target("distributor", configured)
    }

    /// The answer that the canned claimable amounts give, where some are
    /// set.
    pub fn canned_positions(&self) -> (r: Option<Result<Vec<Holding>, FetchError>>)
        ensures
            match self.canned_claimable_spec() {
                Some(Ok(claims)) => r is Some && r->Some_0 is Ok && views(r->Some_0->Ok_0@)
                    == claimables_view(claims@),
                Some(Err(reason)) => r is Some && r->Some_0 is Err && r->Some_0->Err_0@
                    == FetchErrorView::Network(reason@),
                None => r is None,
            },
    {
        match &self.canned_claimable {
            Some(Ok(claims)) => Some(Ok(claimable_holdings(claims))),
            Some(Err(reason)) => Some(Err(FetchError::Network(reason.clone()))),
            None => None,
        }
    }

    /// The canned answer to a claim, where one is set.
    pub fn canned_claim(&self) -> (r: Option<Result<u64, String>>)
        ensures
            match self.canned_claim_spec() {
                Some(Ok(spent)) => r == Some(Ok::<u64, String>(spent)),
                Some(Err(reason)) => r is Some && r->Some_0 is Err && r->Some_0->Err_0@ == reason@,
                None => r is None,
            },
    {
        match &self.canned_claim {
            Some(Ok(spent)) => Some(Ok(*spent)),
            Some(Err(reason)) => Some(Err(reason.clone())),
            None => None,
        }
    }

    /// The claimable holdings of an identity. Without a configured
    /// distributor this fails at once. A canned answer, where one is set,
    /// is used in place of the distributor; else `remote` is asked.
    pub fn fetch_positions<F: FnOnce(&Identity) -> Result<Vec<Claimable>, FetchError>>(
        &self,
        configured: Option<Identity>,
        remote: F,
    ) -> (r: Result<Vec<Holding>, FetchError>)
        requires
            configured is Some && self.canned_claimable_spec() is None ==> remote.requires(
                (&configured->Some_0,),
            ),
        ensures
            configured is None ==> r is Err && r->Err_0@ == FetchErrorView::InvalidConfig(
                "distributor"@,
            ),
            configured is Some ==> match self.canned_claimable_spec() {
                Some(Ok(claims)) => r is Ok && views(r->Ok_0@) == claimables_view(claims@),
                Some(Err(reason)) => r is Err && r->Err_0@ == FetchErrorView::Network(reason@),
                None => exists|answer: Result<Vec<Claimable>, FetchError>|
                    {
                        &&& remote.ensures((&configured->Some_0,), answer)
                        &&& match answer {
                            Ok(claims) => r is Ok && views(r->Ok_0@) == claimables_view(claims@),
                            Err(e) => r is Err && r->Err_0@ == e@,
                        }
                    },
            },
    {
        let distributor = match configured {
            Some(id) => id,
            None => {
                return Err(FetchError::invalid_config("distributor"));
            },
        };
        match &self.canned_claimable {
            Some(Ok(claims)) => Ok(claimable_holdings(claims)),
            Some(Err(reason)) => Err(FetchError::Network(reason.clone())),
            None => match remote(&distributor) {
                Ok(claims) => Ok(claimable_holdings(&claims)),
                Err(e) => Err(e),
            },
        }
    }

    /// The rewards that an identity can claim: token and amount of each of
    /// its claimable holdings.
    pub fn claimable_rewards(&self, holdings: &Vec<Holding>) -> (r: Vec<RewardInfo>)
        ensures
            reward_views(r@) == rewards_of(views(holdings@)),
    {
        rewards_from(holdings)
    }

    /// Claims for an identity. Without a configured distributor this fails
    /// at once with the name of the field. A canned answer, where one is
    /// set, is used in place of the distributor; else `remote` is asked.
    pub fn claim_rewards<F: FnOnce(&Identity) -> Result<u64, String>>(
        &self,
        configured: Option<Identity>,
        remote: F,
    ) -> (r: Result<u64, String>)
        requires
            configured is Some && self.canned_claim_spec() is None ==> remote.requires(
                (&configured->Some_0,),
            ),
        ensures
            configured is None ==> r is Err && r->Err_0@ == "distributor"@,
            configured is Some ==> match self.canned_claim_spec() {
                Some(Ok(spent)) => r == Ok::<u64, String>(spent),
                Some(Err(reason)) => r is Err && r->Err_0@ == reason@,
                None => remote.ensures((&configured->Some_0,), r),
            },
    {
        let distributor = match configured {
            Some(id) => id,
            None => {
                return Err(String::from_str("distributor"));
            },
        };
        match &self.canned_claim {
            Some(Ok(spent)) => Ok(*spent),
            Some(Err(reason)) => Err(reason.clone()),
            None => remote(&distributor),
        }
    }
}

} // verus!
