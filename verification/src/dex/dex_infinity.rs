//! The adapter of the vault-based exchange.

use crate::dex::resolve_target;
use crate::error::{FetchError, FetchErrorView};
use crate::holding::{
    all_known, clone_holdings, known_status, lemma_known_statuses, views, Holding, HoldingView,
};
use crate::identity::Identity;
use crate::lp_cache::{hit, EntryView, Key, PositionCache};
use crate::ledger_fetcher::{no_metadata, MetadataCache};
use crate::utils::{amount_text, format_amount_of, nat_value};
use candid::Nat;
use vstd::prelude::*;

verus! {

/// One position as the vault reports it.
pub struct VaultPosition {
    /// Ledger of the escrowed token.
    pub ledger: Identity,
    /// Subaccount of the vault that holds the escrow.
    pub subaccount: Vec<u8>,
}

/// What was found out about one position: symbol and decimals of its
/// ledger, and the balance of its subaccount.
pub struct VaultBalance {
    /// Token symbol.
    pub symbol: String,
    /// Decimal places.
    pub decimals: u8,
    /// Escrowed balance.
    pub balance: Nat,
}

/// The vault adapter, with its cache of ledger metadata.
pub struct InfinityAdapter {
    /// Symbol and decimals of the ledgers of the escrowed tokens.
    pub meta: MetadataCache,
}

/// The holding of one escrowed balance.
pub open spec fn balance_view(b: VaultBalance) -> HoldingView {
    HoldingView {
        source: "InfinitySwap"@,
        token: b.symbol@,
        amount: amount_text(nat_value(b.balance), b.decimals as nat),
        status: "lp_escrow"@,
    }
}

/// The holdings of the positions about which everything was found out, in
/// order; a position whose metadata or balance could not be had (`None`)
/// is left out.
pub open spec fn balances_view(found: Seq<Option<VaultBalance>>) -> Seq<HoldingView>
    decreases found.len(),
{
    if found.len() == 0 {
        Seq::empty()
    } else {
        match found.last() {
            Some(b) => balances_view(found.drop_last()).push(balance_view(b)),
            None => balances_view(found.drop_last()),
        }
    }
}

/// Key of the vault's positions in the position cache.
pub open spec fn cache_key(principal: Seq<u8>) -> Key {
    (principal, "infinity"@)
}

/// The answer and the cache after the vault reported positions and a
/// height: the cached answer where the cache is valid at that height, zero
/// standing for a height that could not be had; else the holdings of what
/// `balances` found out about the positions, which are then cached.
pub open spec fn settled<B: FnOnce(&Vec<VaultPosition>) -> Vec<Option<VaultBalance>>>(
    before: Map<Key, EntryView>,
    after: Map<Key, EntryView>,
    principal: Seq<u8>,
    now: u64,
    ps: Vec<VaultPosition>,
    reported: Option<u64>,
    balances: B,
    holdings: Seq<HoldingView>,
) -> bool {
    let at = match reported {
        Some(h) => h,
        None => 0u64,
    };
    if hit(before, cache_key(principal), at, now) {
        holdings == before[cache_key(principal)].data && after == before
    } else {
        exists|found: Vec<Option<VaultBalance>>|
            {
                &&& balances.ensures((&ps,), found)
                &&& holdings == balances_view(found@)
                &&& after == before.insert(
                    cache_key(principal),
                    EntryView { data: balances_view(found@), height: at, ts: now },
                )
            }
    }
}

/// What a fetch of positions amounts to. Without a configured vault it
/// fails with `InvalidConfig("vault")` and touches nothing. With one, the
/// vault is asked for the positions, and its failure is handed back with
/// the cache untouched; else it is asked for its height and the answer is
/// as [`settled`] says.
pub open spec fn fetched<
    P: FnOnce(&Identity) -> Result<Vec<VaultPosition>, FetchError>,
    H: FnOnce(&Identity) -> Option<u64>,
    B: FnOnce(&Vec<VaultPosition>) -> Vec<Option<VaultBalance>>,
>(
    before: Map<Key, EntryView>,
    after: Map<Key, EntryView>,
    configured: Option<Identity>,
    principal: Seq<u8>,
    now: u64,
    positions: P,
    height: H,
    balances: B,
    r: Result<Vec<Holding>, FetchError>,
) -> bool {
    match configured {
        None => {
            &&& r is Err
            &&& r->Err_0@ == FetchErrorView::InvalidConfig("vault"@)
            &&& after == before
        },
        Some(vault) => exists|answer: Result<Vec<VaultPosition>, FetchError>|
            {
                &&& positions.ensures((&vault,), answer)
                &&& match answer {
                    Err(e) => r is Err && r->Err_0@ == e@ && after == before,
                    Ok(ps) => exists|reported: Option<u64>|
                        {
                            &&& height.ensures((&vault,), reported)
                            &&& r is Ok
                            &&& settled(
                                before,
                                after,
                                principal,
                                now,
                                ps,
                                reported,
                                balances,
                                views(r->Ok_0@),
                            )
                        },
                }
            },
    }
}

impl InfinityAdapter {
    /// An adapter with an empty metadata cache whose entries stay valid for
    /// a day.
    pub fn new() -> (a: InfinityAdapter)
        ensures
            a.meta@.entries == no_metadata(),
    {
        InfinityAdapter { meta: MetadataCache::new(None) }
    }

    /// Name of the configuration field that holds the vault.
    pub fn field(&self) -> (s: &'static str)
        ensures
            s@ == "vault"@,
    {
        "vault"
    }

    /// Forgets the cached metadata.
    pub fn clear_cache(&mut self)
        ensures
            final(self).meta@.entries == no_metadata(),
            final(self).meta@.ttl == old(self).meta@.ttl,
    {
        self.meta.clear_cache();
    }

    /// The vault to ask, or `InvalidConfig("vault")` without any remote
    /// call when none is configured.
    pub fn target(&self, configured: Option<Identity>) -> (r: Result<Identity, FetchError>)
        ensures
            match configured {
                Some(id) => r is Ok && r->Ok_0@ == id@,
                None => r is Err && r->Err_0@ == FetchErrorView::InvalidConfig("vault"@),
            },
    {
        resolve_target("vault", configured)
    }

    /// Fetches the positions of `principal`: the vault is asked through
    /// `positions` and `height`, which need to be callable only where a
    /// vault is configured, and `balances` finds out symbol, decimals and
    /// balance of each position where the cache does not answer.
    pub fn fetch_positions<
        P: FnOnce(&Identity) -> Result<Vec<VaultPosition>, FetchError>,
        H: FnOnce(&Identity) -> Option<u64>,
        B: FnOnce(&Vec<VaultPosition>) -> Vec<Option<VaultBalance>>,
    >(
        &self,
        cache: &mut PositionCache,
        configured: Option<Identity>,
        principal: &Identity,
        now: u64,
        positions: P,
        height: H,
        balances: B,
    ) -> (r: Result<Vec<Holding>, FetchError>)
        requires
            configured is Some ==> positions.requires((&configured->Some_0,)) && height.requires(
                (&configured->Some_0,),
            ),
            forall|ps: Vec<VaultPosition>| balances.requires((&ps,)),
        ensures
            fetched(
                old(cache)@,
                final(cache)@,
                configured,
                principal@,
                now,
                positions,
                height,
                balances,
                r,
            ),
    {
        let vault = match configured {
            Some(id) => id,
            None => {
                return Err(FetchError::invalid_config("vault"));
            },
        };
        let answer = positions(&vault);
        let ghost given = answer;
        let ps = match answer {
            Ok(ps) => ps,
            Err(e) => {
                proof {
                    assert(positions.ensures((&vault,), given));
                }
                return Err(e);
            },
        };
        let reported = height(&vault);
        let at = match reported {
            Some(h) => h,
            None => 0,
        };
        let holdings = match cache.lookup(principal, "infinity", at, now) {
            Some(found) => found,
            None => {
                let found = balances(&ps);
                let fresh = self.vault_holdings(&found);
                cache.store(principal, "infinity", at, clone_holdings(&fresh), now);
                proof {
                    assert(balances.ensures((&ps,), found));
                }
                fresh
            },
        };
        let r = Ok(holdings);
        proof {
            assert(given == Ok::<Vec<VaultPosition>, FetchError>(ps));
            assert(height.ensures((&vault,), reported));
            assert(settled(
                old(cache)@,
                cache@,
                principal@,
                now,
                ps,
                reported,
                balances,
                views(r->Ok_0@),
            ));
            assert(exists|h: Option<u64>|
                {
                    &&& height.ensures((&vault,), h)
                    &&& r is Ok
                    &&& settled(old(cache)@, cache@, principal@, now, ps, h, balances, views(r->Ok_0@))
                });
            assert(positions.ensures((&vault,), given));
        }
        r
    }

    /// Builds the holdings of the positions that the vault reported.
    pub fn vault_holdings(&self, found: &Vec<Option<VaultBalance>>) -> (r: Vec<Holding>)
        ensures
            views(r@) == balances_view(found@),
            all_known(views(r@)),
    {
        proof {
            lemma_known_statuses();
        }
        let mut out: Vec<Holding> = Vec::new();
        let mut i: usize = 0;
        proof {
            assert(views(out@) =~= balances_view(found@.take(0)));
        }
        while i < found.len()
            invariant
                i <= found@.len(),
                views(out@) == balances_view(found@.take(i as int)),
                known_status("lp_escrow"@),
                forall|j: int| 0 <= j < out@.len() ==> (#[trigger] out@[j])@.status == "lp_escrow"@,
            decreases found@.len() - i,
        {
            let ghost before = views(out@);
            proof {
                assert(found@.take(i as int + 1).drop_last() =~= found@.take(i as int));
                assert(found@.take(i as int + 1).last() == found@[i as int]);
            }
            match &found[i] {
                Some(b) => {
                    out.push(
                        Holding::new(
                            "InfinitySwap",
                            b.symbol.clone(),
                            format_amount_of(&b.balance, b.decimals),
                            "lp_escrow",
                        ),
                    );
                    proof {
                        assert(views(out@) =~= before.push(balance_view(*b)));
                    }
                },
                None => {},
            }
            i += 1;
        }
        proof {
            assert(found@.take(found@.len() as int) =~= found@);
            assert forall|j: int| 0 <= j < views(out@).len() implies known_status(
                (#[trigger] views(out@)[j]).status,
            ) by {
                assert(out@[j]@.status == "lp_escrow"@);
            }
        }
        out
    }
}

} // verus!
