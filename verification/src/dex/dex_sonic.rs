//! The adapter of the router-based exchange.

use crate::dex::resolve_target;
use crate::error::{FetchError, FetchErrorView};
use crate::holding::{
    all_known, clone_holdings, known_status, lemma_known_statuses, views, Holding, HoldingView,
};
use crate::identity::Identity;
use crate::lp_cache::{hit, EntryView, Key, PositionCache};
use crate::utils::{amount_text, format_amount_of, nat_value};
use candid::Nat;
use vstd::prelude::*;

verus! {

/// A token as the router reports it.
pub struct Token {
    /// Contract address.
    pub address: String,
    /// Decimal places.
    pub decimals: u8,
}

/// One position as the router reports it.
pub struct PositionInfo {
    /// First token of the pair.
    pub token_a: Token,
    /// Second token of the pair.
    pub token_b: Token,
    /// Escrowed amount of the first token.
    pub token_a_amount: Nat,
    /// Escrowed amount of the second token.
    pub token_b_amount: Nat,
    /// Token in which the reward is paid.
    pub reward_token: Token,
    /// Reward accrued.
    pub reward_amount: Nat,
    /// Whether the reward is reinvested by itself.
    pub auto_compound: bool,
}

/// The router adapter. It caches nothing of its own.
#[derive(Debug, Clone, Copy, PartialEq, Eq, Structural)]
pub struct SonicAdapter;

/// An escrowed amount reported by the router.
pub open spec fn escrow(address: Seq<char>, amount: nat, decimals: u8) -> HoldingView {
    HoldingView {
        source: "Sonic"@,
        token: address,
        amount: amount_text(amount, decimals as nat),
        status: "lp_escrow"@,
    }
}

/// The holdings of one position: both sides of the pair, and the reward
/// unless it is reinvested by itself.
pub open spec fn position_view(p: PositionInfo) -> Seq<HoldingView> {
    let pair = seq![
        escrow(p.token_a.address@, nat_value(p.token_a_amount), p.token_a.decimals),
        escrow(p.token_b.address@, nat_value(p.token_b_amount), p.token_b.decimals),
    ];
    if p.auto_compound {
        pair
    } else {
        pair.push(escrow(p.reward_token.address@, nat_value(p.reward_amount), p.reward_token.decimals))
    }
}

/// The holdings of a list of positions, in order.
pub open spec fn positions_view(ps: Seq<PositionInfo>) -> Seq<HoldingView>
    decreases ps.len(),
{
    if ps.len() == 0 {
        Seq::empty()
    } else {
        positions_view(ps.drop_last()) + position_view(ps.last())
    }
}

/// Key of the router's positions in the position cache.
pub open spec fn cache_key(principal: Seq<u8>) -> Key {
    (principal, "sonic"@)
}

/// What a fetch of positions amounts to. Without a configured router it
/// fails with `InvalidConfig("router")` and touches nothing. With one, the
/// router is asked for the positions, and its failure is handed back with
/// the cache untouched; else it is asked for its height, zero standing for
/// one that could not be had, and the answer is the cached one where the
/// cache is valid at that height, else the holdings of the positions, which
/// are then cached.
pub open spec fn fetched<
    P: FnOnce(&Identity) -> Result<Vec<PositionInfo>, FetchError>,
    H: FnOnce(&Identity) -> Option<u64>,
>(
    before: Map<Key, EntryView>,
    after: Map<Key, EntryView>,
    configured: Option<Identity>,
    principal: Seq<u8>,
    now: u64,
    positions: P,
    height: H,
    r: Result<Vec<Holding>, FetchError>,
) -> bool {
    match configured {
        None => {
            &&& r is Err
            &&& r->Err_0@ == FetchErrorView::InvalidConfig("router"@)
            &&& after == before
        },
        Some(router) => exists|answer: Result<Vec<PositionInfo>, FetchError>|
            {
                &&& positions.ensures((&router,), answer)
                &&& match answer {
                    Err(e) => r is Err && r->Err_0@ == e@ && after == before,
                    Ok(ps) => exists|reported: Option<u64>|
                        {
                            &&& height.ensures((&router,), reported)
                            &&& r is Ok
                            &&& settled(before, after, principal, now, ps@, reported, views(r->Ok_0@))
                        },
                }
            },
    }
}

/// The answer and the cache after the router reported positions and a
/// height.
pub open spec fn settled(
    before: Map<Key, EntryView>,
    after: Map<Key, EntryView>,
    principal: Seq<u8>,
    now: u64,
    ps: Seq<PositionInfo>,
    reported: Option<u64>,
    holdings: Seq<HoldingView>,
) -> bool {
    let at = match reported {
        Some(h) => h,
        None => 0u64,
    };
    if hit(before, cache_key(principal), at, now) {
        holdings == before[cache_key(principal)].data && after == before
    } else {
        holdings == positions_view(ps) && after == before.insert(
            cache_key(principal),
            EntryView { data: positions_view(ps), height: at, ts: now },
        )
    }
}

impl SonicAdapter {
    /// Name of the configuration field that holds the router.
    pub fn field(&self) -> (s: &'static str)
        ensures
            s@ == "router"@,
    {
        "router"
    }

    /// Forgets what the adapter has cached, which is nothing.
    pub fn clear_cache(&mut self)
        ensures
            *final(self) == *old(self),
    {
    }

    /// The router to ask, or `InvalidConfig("router")` without any remote
    /// call when none is configured.
    pub fn target(&self, configured: Option<Identity>) -> (r: Result<Identity, FetchError>)
        ensures
            match configured {
                Some(id) => r is Ok && r->Ok_0@ == id@,
                None => r is Err && r->Err_0@ == FetchErrorView::InvalidConfig("router"@),
            },
    {
        resolve_target("router", configured)
    }

    /// Fetches the positions of `principal`: the router is asked through
    /// `positions` and `height`, which need to be callable only where a
    /// router is configured.
    pub fn fetch_positions<
        P: FnOnce(&Identity) -> Result<Vec<PositionInfo>, FetchError>,
        H: FnOnce(&Identity) -> Option<u64>,
    >(
        &self,
        cache: &mut PositionCache,
        configured: Option<Identity>,
        principal: &Identity,
        now: u64,
        positions: P,
        height: H,
    ) -> (r: Result<Vec<Holding>, FetchError>)
        requires
            configured is Some ==> positions.requires((&configured->Some_0,)) && height.requires(
                (&configured->Some_0,),
            ),
        ensures
            fetched(old(cache)@, final(cache)@, configured, principal@, now, positions, height, r),
    {
        let router = match configured {
            Some(id) => id,
            None => {
                return Err(FetchError::invalid_config("router"));
            },
        };
        let answer = positions(&router);
        let ghost given = answer;
        let ps = match answer {
            Ok(ps) => ps,
            Err(e) => {
                proof {
                    assert(positions.ensures((&router,), given));
                }
                return Err(e);
            },
        };
        let reported = height(&router);
        let at = match reported {
            Some(h) => h,
            None => 0,
        };
        let holdings = match cache.lookup(principal, "sonic", at, now) {
            Some(found) => found,
            None => {
                let fresh = self.position_holdings(&ps);
                cache.store(principal, "sonic", at, clone_holdings(&fresh), now);
                fresh
            },
        };
        let r = Ok(holdings);
        proof {
            assert(given == Ok::<Vec<PositionInfo>, FetchError>(ps));
            assert(height.ensures((&router,), reported));
            assert(settled(old(cache)@, cache@, principal@, now, ps@, reported, views(r->Ok_0@)));
            assert(exists|h: Option<u64>|
                {
                    &&& height.ensures((&router,), h)
                    &&& r is Ok
                    &&& settled(old(cache)@, cache@, principal@, now, ps@, h, views(r->Ok_0@))
                });
            assert(positions.ensures((&router,), given));
        }
        r
    }

    /// Claims for an identity at the router, the rewards going to `ledger`.
    /// Without a configured router this fails at once with `router`, and
    /// without a ledger with `ledger`; `claim` is called only where both
    /// are there, and its answer is handed back.
    pub fn claim_rewards<C: FnOnce(&Identity, &Identity) -> Result<u64, String>>(
        &self,
        configured: Option<Identity>,
        ledger: Option<Identity>,
        claim: C,
    ) -> (r: Result<u64, String>)
        requires
            configured is Some && ledger is Some ==> claim.requires(
                (&configured->Some_0, &ledger->Some_0),
            ),
        ensures
            configured is None ==> r is Err && r->Err_0@ == "router"@,
            configured is Some && ledger is None ==> r is Err && r->Err_0@ == "ledger"@,
            configured is Some && ledger is Some ==> claim.ensures(
                (&configured->Some_0, &ledger->Some_0),
                r,
            ),
    {
        let router = match configured {
            Some(id) => id,
            None => {
                return Err(String::from_str("router"));
            },
        };
        let ledger = match ledger {
            Some(id) => id,
            None => {
                return Err(String::from_str("ledger"));
            },
        };
        claim(&router, &ledger)
    }

    /// Builds the holdings of the positions that the router reported.
    pub fn position_holdings(&self, positions: &Vec<PositionInfo>) -> (r: Vec<Holding>)
        ensures
            views(r@) == positions_view(positions@),
            all_known(views(r@)),
    {
        proof {
            lemma_known_statuses();
        }
        let mut out: Vec<Holding> = Vec::new();
        let mut i: usize = 0;
        proof {
            assert(views(out@) =~= positions_view(positions@.take(0)));
        }
        while i < positions.len()
            invariant
                i <= positions@.len(),
                views(out@) == positions_view(positions@.take(i as int)),
                known_status("lp_escrow"@),
                forall|j: int| 0 <= j < out@.len() ==> (#[trigger] out@[j])@.status == "lp_escrow"@,
            decreases positions@.len() - i,
        {
            let ghost before = views(out@);
            let p = &positions[i];
            out.push(
                Holding::new(
                    "Sonic",
                    p.token_a.address.clone(),
                    format_amount_of(&p.token_a_amount, p.token_a.decimals),
                    "lp_escrow",
                ),
            );
            out.push(
                Holding::new(
                    "Sonic",
                    p.token_b.address.clone(),
                    format_amount_of(&p.token_b_amount, p.token_b.decimals),
                    "lp_escrow",
                ),
            );
            if !p.auto_compound {
                out.push(
                    Holding::new(
                        "Sonic",
                        p.reward_token.address.clone(),
                        format_amount_of(&p.reward_amount, p.reward_token.decimals),
                        "lp_escrow",
                    ),
                );
            }
            proof {
                assert(positions@.take(i as int + 1).drop_last() =~= positions@.take(i as int));
                assert(positions@.take(i as int + 1).last() == positions@[i as int]);
                assert(views(out@) =~= before + position_view(positions@[i as int]));
            }
            i += 1;
        }
        proof {
            assert(positions@.take(positions@.len() as int) =~= positions@);
            assert forall|j: int| 0 <= j < views(out@).len() implies known_status(
                (#[trigger] views(out@)[j]).status,
            ) by {
                assert(out@[j]@.status == "lp_escrow"@);
            }
        }
        out
    }
}

} // verus!
