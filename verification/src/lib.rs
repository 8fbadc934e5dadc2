//! Aggregates the holdings of one identity across several balance sources,
//! with layered caches, a certified witness index, a claim controller and a
//! replenishment backoff controller.
//!
//! Every component is an owned service object: the caller constructs it once
//! and hands it the current time and the outcome of each remote call as plain
//! values.

pub mod cache;
pub mod cert;
pub mod claim;
pub mod cycles;
pub mod dex;
pub mod dex_config;
pub mod dex_fetchers;
pub mod error;
pub mod holding;
pub mod identity;
pub mod identity_map;
pub mod ledger_fetcher;
pub mod lp_cache;
pub mod metrics;
pub mod neuron_fetcher;
pub mod pool_registry;
pub mod utils;
pub mod warm;

use crate::cache::Cache;
use crate::cert::{
    identity_key, leaf_digest, proof_encoding, proof_root, WitnessTree, WitnessTreeView,
};
use crate::claim::{
    after_attempt, attempt_outcome, claimed, planned, released, status_of, ClaimController,
    ClaimError, ClaimRun, ClaimStatus, ClaimView, RunView,
};
use crate::cycles::{
    after_failure, after_success, after_tick, next_delay, refill_succeeded, tick_action,
    CycleMonitor, CycleMonitorView, TickAction,
};
use crate::dex_fetchers::{outcome_view, OutcomeView};
use crate::error::{FetchError, FetchErrorView};
use crate::holding::{
    all_known, append_holdings, clone_holdings, lemma_all_known_joined, views, Holding, HoldingView,
};
use crate::dex::dex_icpswap::IcpswapAdapter;
use crate::dex::dex_infinity::InfinityAdapter;
use crate::dex::dex_sonic::SonicAdapter;
use crate::dex::sns_adapter::SnsAdapter;
use crate::identity::{identity_views, Identity};
use crate::ledger_fetcher::{MetadataCache, MetadataCacheView, StableMeta};
use crate::lp_cache::{fresh, is_fresh, PositionCache, StableEntry};
use crate::metrics::{bumped, Counters};
use crate::pool_registry::{pool_views, PoolMeta, PoolMetaView, PoolRegistry};
use crate::utils::{DAY_NS, MINUTE_NS};
use crate::warm::{
    distinct, rotated_by, sources, truncated, warmed_by, well_formed, WarmQueue, WarmQueueView,
    ITEMS_PER_TICK,
};
use vstd::prelude::*;

verus! {

/// Largest number of holdings in one result when none is configured.
pub const DEFAULT_MAX_HOLDINGS: usize = 500;

/// Time that a merged result is served from the result cache.
pub const RESULT_TTL_NS: u64 = MINUTE_NS;

/// What the three groups of sources answered for one identity: the ledgers,
/// the staked positions, and the position adapters.
pub struct Groups {
    /// The ledger balances, or why they could not be had.
    pub ledger: Result<Vec<Holding>, FetchError>,
    /// The staked positions.
    pub neuron: Vec<Holding>,
    /// The pool positions and claimable rewards, or why they could not be
    /// had.
    pub dex: Result<Vec<Holding>, FetchError>,
}

/// What the position adapters contribute: their holdings; nothing where no
/// target is configured, which shows as `InvalidConfig`; and their failure
/// where they failed in any other way.
pub open spec fn pool_part(dex: OutcomeView) -> OutcomeView {
    match dex {
        Ok(items) => Ok(items),
        Err(FetchErrorView::InvalidConfig(_)) => Ok(Seq::empty()),
        Err(e) => Err(e),
    }
}

/// The first `max` holdings; the tail is dropped.
pub open spec fn capped(items: Seq<HoldingView>, max: nat) -> Seq<HoldingView> {
    if items.len() <= max {
        items
    } else {
        items.take(max as int)
    }
}

/// The merged result. A group that failed makes the whole fail, the ledgers
/// before the position adapters; no partial list is given. Without a
/// failure: ledger balances, then staked positions, then pool positions and
/// claimable rewards, cut to `max` holdings.
pub open spec fn aggregated(
    ledger: OutcomeView,
    neuron: Seq<HoldingView>,
    dex: OutcomeView,
    max: nat,
) -> OutcomeView {
    match ledger {
        Err(e) => Err(e),
        Ok(balances) => match pool_part(dex) {
            Err(e) => Err(e),
            Ok(positions) => Ok(capped(balances + neuron + positions, max)),
        },
    }
}

impl Groups {
    /// The merged result of these answers, cut to `max` holdings.
    pub open spec fn merged(&self, max: nat) -> OutcomeView {
        aggregated(outcome_view(self.ledger), views(self.neuron@), outcome_view(self.dex), max)
    }

    /// True when every holding that was answered has a status of the
    /// vocabulary.
    pub open spec fn known(&self) -> bool {
        &&& self.ledger is Ok ==> all_known(views(self.ledger->Ok_0@))
        &&& all_known(views(self.neuron@))
        &&& self.dex is Ok ==> all_known(views(self.dex->Ok_0@))
    }
}

/// The result cache after an aggregation for `principal` at `now`: a merged
/// result replaces the entry, a failure leaves the cache as it was.
pub open spec fn cache_after(
    cache: Map<Seq<u8>, (Seq<HoldingView>, u64)>,
    principal: Seq<u8>,
    outcome: OutcomeView,
    now: u64,
) -> Map<Seq<u8>, (Seq<HoldingView>, u64)> {
    match outcome {
        Ok(holdings) => cache.insert(principal, (holdings, now)),
        Err(_) => cache,
    }
}

/// Merges what the three groups of sources answered.
pub fn calculate_holdings(groups: &Groups, max_holdings: usize) -> (r: Result<
    Vec<Holding>,
    FetchError,
>)
    ensures
        outcome_view(r) == groups.merged(max_holdings as nat),
        groups.known() && r is Ok ==> all_known(views(r->Ok_0@)),
{
    let balances = match &groups.ledger {
        Ok(items) => items,
        Err(e) => {
            return Err(e.clone());
        },
    };
    let mut holdings: Vec<Holding> = Vec::new();
    proof {
        assert(views(holdings@) =~= Seq::<HoldingView>::empty());
    }
    append_holdings(&mut holdings, balances);
    append_holdings(&mut holdings, &groups.neuron);
    let ghost positions: Seq<HoldingView> = Seq::empty();
    match &groups.dex {
        Ok(items) => {
            append_holdings(&mut holdings, items);
            proof {
                positions = views(items@);
            }
        },
        Err(FetchError::InvalidConfig(_)) => {},
        Err(e) => {
            return Err(e.clone());
        },
    }
    let ghost whole = views(holdings@);
    proof {
        assert(whole =~= views(balances@) + views(groups.neuron@) + positions);
        if groups.known() {
            lemma_all_known_joined(views(balances@), views(groups.neuron@), 0);
            let keep = if whole.len() <= max_holdings {
                whole.len() as int
            } else {
                max_holdings as int
            };
            lemma_all_known_joined(views(balances@) + views(groups.neuron@), positions, keep);
            assert(whole.take(whole.len() as int) =~= whole);
        }
    }
    if holdings.len() > max_holdings {
        holdings.truncate(max_holdings);
        proof {
            assert(views(holdings@) =~= whole.take(max_holdings as int));
        }
    }
    Ok(holdings)
}

/// A failed group is reported, not passed over: where the ledgers failed,
/// or the position adapters failed otherwise than for want of a configured
/// target, the merged result is that failure, whatever the other groups
/// answered, and the result cache stays as it was.
pub proof fn lemma_failed_group_fails(
    ledger: OutcomeView,
    neuron: Seq<HoldingView>,
    dex: OutcomeView,
    max: nat,
    cache: Map<Seq<u8>, (Seq<HoldingView>, u64)>,
    principal: Seq<u8>,
    now: u64,
)
    ensures
        ledger is Err ==> aggregated(ledger, neuron, dex, max) == ledger,
        ledger is Ok && dex is Err && !(dex->Err_0 is InvalidConfig) ==> aggregated(
            ledger,
            neuron,
            dex,
            max,
        ) == Err::<Seq<HoldingView>, FetchErrorView>(dex->Err_0),
        aggregated(ledger, neuron, dex, max) is Err ==> cache_after(
            cache,
            principal,
            aggregated(ledger, neuron, dex, max),
            now,
        ) == cache,
{
}

/// Without configured position sources only ledger and staked holdings
/// remain: where the position adapters failed with `InvalidConfig` and the
/// ledgers answered, the merged result is the ledger balances and the
/// staked positions, cut to `max`.
pub proof fn lemma_unconfigured_pools_contribute_nothing(
    balances: Seq<HoldingView>,
    neuron: Seq<HoldingView>,
    field: Seq<char>,
    max: nat,
)
    ensures
        aggregated(
            Ok(balances),
            neuron,
            Err(FetchErrorView::InvalidConfig(field)),
            max,
        ) == Ok::<Seq<HoldingView>, FetchErrorView>(capped(balances + neuron, max)),
{
    assert(balances + neuron + Seq::<HoldingView>::empty() =~= balances + neuron);
}

/// The last published holdings of an identity with the host's certificate
/// and the proof of inclusion.
pub struct CertifiedHoldings {
    /// The holdings last written for the identity.
    pub holdings: Vec<Holding>,
    /// The host's certificate over the committed root hash.
    pub certificate: Vec<u8>,
    /// The encoded proof for the identity against that root hash.
    pub witness: Vec<u8>,
}

/// The identifiers of a build.
#[derive(Debug, Clone, Copy, PartialEq, Eq)]
pub struct Version {
    /// Revision the build was made from.
    pub git_sha: &'static str,
    /// Time the build was made.
    pub build_time: &'static str,
}

/// The identifiers of a build, `unknown` where one was not stamped.
pub fn get_version(git_sha: Option<&'static str>, build_time: Option<&'static str>) -> (v: Version)
    ensures
        v.git_sha@ == (match git_sha {
            Some(s) => s@,
            None => "unknown"@,
        }),
        v.build_time@ == (match build_time {
            Some(s) => s@,
            None => "unknown"@,
        }),
{
    Version {
        git_sha: match git_sha {
            Some(s) => s,
            None => "unknown",
        },
        build_time: match build_time {
            Some(s) => s,
            None => "unknown",
        },
    }
}

/// The answer of the liveness probe.
pub fn health_check() -> (s: &'static str)
    ensures
        s@ == "ok"@,
{
    "ok"
}

/// True when the result cache answers a read for `principal` at `now`.
pub open spec fn result_fresh(
    cache: Map<Seq<u8>, (Seq<HoldingView>, u64)>,
    principal: Seq<u8>,
    now: u64,
) -> bool {
    cache.contains_key(principal) && fresh(cache[principal].1, now, RESULT_TTL_NS)
}

/// The service: every component behind the entry points.
pub struct Aggregator {
    /// Counters of what the service has done.
    pub metrics: Counters,
    /// The result cache.
    pub cache: Cache,
    /// What was last published for each identity; only
    /// [`Aggregator::refresh_holdings`] writes it.
    pub published: Cache,
    /// The certified witness tree.
    pub tree: WitnessTree,
    /// The replenishment monitor.
    pub cycles: CycleMonitor,
    /// The claim controller.
    pub claims: ClaimController,
    /// The metadata cache of the ledgers.
    pub metadata: MetadataCache,
    /// The position cache.
    pub positions: PositionCache,
    /// The warm-up queue.
    pub warm: WarmQueue,
    /// The registry of pool metadata.
    pub pools: PoolRegistry,
    /// The adapter of the factory-and-pools exchange.
    pub icpswap: IcpswapAdapter,
    /// The adapter of the router-based exchange.
    pub sonic: SonicAdapter,
    /// The adapter of the vault-based exchange.
    pub infinity: InfinityAdapter,
    /// The adapter of the reward-distribution protocol.
    pub sns: SnsAdapter,
    /// Largest number of holdings in one result.
    pub max_holdings: usize,
}

/// Mathematical value of an [`Aggregator`]: the value of each component.
pub struct AggregatorView {
    pub metrics: Counters,
    pub cache: Map<Seq<u8>, (Seq<HoldingView>, u64)>,
    pub published: Map<Seq<u8>, (Seq<HoldingView>, u64)>,
    pub tree: WitnessTreeView,
    pub cycles: CycleMonitorView,
    pub claims: ClaimView,
    pub metadata: MetadataCacheView,
    pub positions: Map<lp_cache::Key, lp_cache::EntryView>,
    pub warm: WarmQueueView,
    pub pools: Seq<PoolMetaView>,
    pub icpswap: Map<Seq<u8>, (dex::dex_icpswap::PoolMetadata, u64)>,
    pub sonic: SonicAdapter,
    pub infinity: MetadataCacheView,
    pub sns: SnsAdapter,
    pub max_holdings: usize,
}

impl View for Aggregator {
    type V = AggregatorView;

    open spec fn view(&self) -> AggregatorView {
        AggregatorView {
            metrics: self.metrics,
            cache: self.cache@,
            published: self.published@,
            tree: self.tree@,
            cycles: self.cycles@,
            claims: self.claims@,
            metadata: self.metadata@,
            positions: self.positions@,
            warm: self.warm@,
            pools: self.pools@,
            icpswap: self.icpswap@,
            sonic: self.sonic,
            infinity: self.infinity.meta@,
            sns: self.sns,
            max_holdings: self.max_holdings,
        }
    }
}

/// The counters after one more inbound call.
pub open spec fn one_more_query(c: Counters) -> Counters {
    Counters { query_count: bumped(c.query_count), ..c }
}

/// What a heartbeat asks of its caller.
pub struct Heartbeat {
    /// What to do about the host's balance.
    pub action: TickAction,
    /// The sources whose metadata is to be refreshed.
    pub warm: Vec<Identity>,
}

/// The state that is carried over an upgrade.
pub struct StableState {
    /// The replenishment event log.
    pub log: Vec<String>,
    /// The entries of the metadata cache.
    pub meta: Vec<StableMeta>,
    /// The entries of the position cache.
    pub lp: Vec<StableEntry>,
    /// The counters.
    pub metrics: (u64, u64, u64, u64, u64, u64, u64),
}

impl Aggregator {
    /// A service with empty caches that cuts results to `max_holdings`, or
    /// to [`DEFAULT_MAX_HOLDINGS`] when none is given.
    pub fn new(
        max_holdings: Option<usize>,
        cycles: CycleMonitor,
        claims: ClaimController,
        metadata: MetadataCache,
        warm: WarmQueue,
    ) -> (a: Aggregator)
        ensures
            a@.metrics == metrics::zeroed(),
            a@.cache == cache::no_results(),
            a@.published == cache::no_results(),
            a@.tree.leaves == cert::no_leaves(),
            a@.cycles == cycles@,
            a@.claims == claims@,
            a@.metadata == metadata@,
            a@.warm == warm@,
            a@.positions == lp_cache::no_positions(),
            a@.pools == Seq::<PoolMetaView>::empty(),
            a@.icpswap == dex::dex_icpswap::no_pools(),
            a@.infinity.entries == ledger_fetcher::no_metadata(),
            a@.sns.canned_claimable_spec() is None,
            a@.sns.canned_claim_spec() is None,
            a@.max_holdings == (match max_holdings {
                Some(n) => n,
                None => DEFAULT_MAX_HOLDINGS,
            }),
    {
        Aggregator {
            metrics: Counters::new(),
            cache: Cache::new(),
            published: Cache::new(),
            tree: WitnessTree::new(),
            cycles,
            claims,
            metadata,
            positions: PositionCache::new(),
            warm,
            pools: PoolRegistry::new(),
            icpswap: IcpswapAdapter::new(),
            sonic: SonicAdapter,
            infinity: InfinityAdapter::new(),
            sns: SnsAdapter::new(),
            max_holdings: match max_holdings {
                Some(n) => n,
                None => DEFAULT_MAX_HOLDINGS,
            },
        }
    }

    /// The cached result of `principal`, if it is younger than
    /// [`RESULT_TTL_NS`] at `now`.
    pub fn cached_holdings(&self, principal: &Identity, now: u64) -> (r: Option<Vec<Holding>>)
        ensures
            r.is_some() == result_fresh(self@.cache, principal@, now),
            r.is_some() ==> views(r.unwrap()@) == self@.cache[principal@].0,
    {
        match self.cache.get(principal) {
            Some((cached, ts)) => {
                if is_fresh(ts, now, RESULT_TTL_NS) {
                    Some(cached)
                } else {
                    None
                }
            },
            None => None,
        }
    }

    /// First half of the read path: counts the call and gives the cached
    /// result where it is fresh.
    pub fn read_cached(&mut self, principal: &Identity, now: u64) -> (r: Option<Vec<Holding>>)
        ensures
            r.is_some() == result_fresh(old(self)@.cache, principal@, now),
            r.is_some() ==> views(r.unwrap()@) == old(self)@.cache[principal@].0,
            final(self)@ == (AggregatorView {
                metrics: one_more_query(old(self)@.metrics),
                ..old(self)@
            }),
    {
        self.metrics.inc_query();
        self.cached_holdings(principal, now)
    }

    /// Second half of the read path: merges what the sources answered. A
    /// merged result is cached and given; the failure of a group is handed
    /// back and the cache stays as it was.
    pub fn store_fetched(&mut self, principal: &Identity, groups: &Groups, now: u64) -> (r: Result<
        Vec<Holding>,
        FetchError,
    >)
        ensures
            outcome_view(r) == groups.merged(old(self)@.max_holdings as nat),
            groups.known() && r is Ok ==> all_known(views(r->Ok_0@)),
            final(self)@ == (AggregatorView {
                cache: cache_after(old(self)@.cache, principal@, outcome_view(r), now),
                ..old(self)@
            }),
    {
        match calculate_holdings(groups, self.max_holdings) {
            Ok(holdings) => {
                self.cache.insert(principal, clone_holdings(&holdings), now);
                Ok(holdings)
            },
            Err(e) => Err(e),
        }
    }

    /// The read path: the cached result where it is fresh, else the result
    /// merged from what `fetch` brings from the sources, which is then
    /// cached; where a group of sources failed, its failure, with the cache
    /// as it was. The call is counted; nothing else changes, the witness
    /// tree and what was published least of all. `fetch` needs to be
    /// callable only where the cache does not answer.
    pub fn get_holdings<F: FnOnce() -> Groups>(&mut self, principal: &Identity, now: u64, fetch: F)
        -> (r: Result<Vec<Holding>, FetchError>)
        requires
            !result_fresh(old(self)@.cache, principal@, now) ==> fetch.requires(()),
        ensures
            result_fresh(old(self)@.cache, principal@, now) ==> {
                &&& r is Ok
                &&& views(r->Ok_0@) == old(self)@.cache[principal@].0
                &&& final(self)@ == (AggregatorView {
                    metrics: one_more_query(old(self)@.metrics),
                    ..old(self)@
                })
            },
            !result_fresh(old(self)@.cache, principal@, now) ==> {
                &&& exists|groups: Groups|
                    {
                        &&& fetch.ensures((), groups)
                        &&& outcome_view(r) == groups.merged(old(self)@.max_holdings as nat)
                    }
                &&& final(self)@ == (AggregatorView {
                    metrics: one_more_query(old(self)@.metrics),
                    cache: cache_after(old(self)@.cache, principal@, outcome_view(r), now),
                    ..old(self)@
                })
            },
    {
        match self.read_cached(principal, now) {
            Some(cached) => Ok(cached),
            None => {
                let groups = fetch();
                self.store_fetched(principal, &groups, now)
            },
        }
    }

    /// The publish path: merges what the sources answered. Where a group
    /// failed, its failure is handed back and nothing but the count of calls
    /// changes. Else the result cache is written whatever it held, the
    /// result is kept as the published one, and the hash of what `serialize`
    /// makes of it is published in the witness tree; the new root hash is
    /// returned, to be committed as the host's integrity anchor.
    /// `serialize` needs to be callable only where the merge succeeds.
    pub fn refresh_holdings<F: FnOnce(&Vec<Holding>) -> Vec<u8>>(
        &mut self,
        principal: &Identity,
        now: u64,
        groups: &Groups,
        serialize: F,
    ) -> (r: Result<[u8; 32], FetchError>)
        requires
            groups.merged(old(self)@.max_holdings as nat) is Ok ==> forall|h: Vec<Holding>|
                serialize.requires((&h,)),
        ensures
            match groups.merged(old(self)@.max_holdings as nat) {
                Err(e) => {
                    &&& r is Err
                    &&& r->Err_0@ == e
                    &&& final(self)@ == (AggregatorView {
                        metrics: one_more_query(old(self)@.metrics),
                        ..old(self)@
                    })
                },
                Ok(merged) => {
                    &&& r is Ok
                    &&& r->Ok_0@ == final(self)@.tree.root
                    &&& exists|holdings: Vec<Holding>, payload: Vec<u8>|
                        {
                            &&& views(holdings@) == merged
                            &&& serialize.ensures((&holdings,), payload)
                            &&& final(self)@.tree.leaves == old(self)@.tree.leaves.insert(
                                identity_key(principal@),
                                leaf_digest(payload@),
                            )
                        }
                    &&& final(self)@ == (AggregatorView {
                        metrics: one_more_query(old(self)@.metrics),
                        cache: old(self)@.cache.insert(principal@, (merged, now)),
                        published: old(self)@.published.insert(principal@, (merged, now)),
                        tree: final(self)@.tree,
                        ..old(self)@
                    })
                },
            },
    {
        self.metrics.inc_query();
        let holdings = match calculate_holdings(groups, self.max_holdings) {
            Ok(holdings) => holdings,
            Err(e) => {
                return Err(e);
            },
        };
        let payload = serialize(&holdings);
        self.cache.insert(principal, clone_holdings(&holdings), now);
        self.published.insert(principal, holdings, now);
        Ok(self.tree.update(principal, &payload))
    }

    /// The certified read: the holdings last published for `principal` by
    /// [`Aggregator::refresh_holdings`], whatever was read since, none
    /// where nothing was published; the host's certificate, empty where the
    /// host gave none; and the encoding of the proof that the tree gives
    /// for the identity's key, which reconstructs to the current root hash.
    /// Nothing is fetched; the call is counted.
    pub fn get_holdings_cert(&mut self, principal: &Identity, certificate: Option<Vec<u8>>) -> (r:
        CertifiedHoldings)
        ensures
            final(self)@ == (AggregatorView {
                metrics: one_more_query(old(self)@.metrics),
                ..old(self)@
            }),
            views(r.holdings@) == (if old(self)@.published.contains_key(principal@) {
                old(self)@.published[principal@].0
            } else {
                Seq::<HoldingView>::empty()
            }),
            r.certificate@ == (match certificate {
                Some(c) => c@,
                None => Seq::<u8>::empty(),
            }),
            r.witness@ == proof_encoding(old(self).tree.proof_for(identity_key(principal@))),
            proof_root(old(self).tree.proof_for(identity_key(principal@))) == old(self)@.tree.root,
    {
        self.metrics.inc_query();
        let holdings = match self.published.get(principal) {
            Some((found, _)) => found,
            None => {
                let none: Vec<Holding> = Vec::new();
                proof {
                    assert(views(none@) =~= Seq::<HoldingView>::empty());
                }
                none
            },
        };
        let certificate = match certificate {
            Some(c) => c,
            None => Vec::new(),
        };
        let witness = self.tree.witness(principal);
        CertifiedHoldings { holdings, certificate, witness }
    }

    /// The replenishment event log, oldest entry first. The call is
    /// counted.
    pub fn get_cycles_log(&mut self) -> (r: Vec<String>)
        ensures
            final(self)@ == (AggregatorView {
                metrics: one_more_query(old(self)@.metrics),
                ..old(self)@
            }),
            cycles::texts(r@) == old(self)@.cycles.log,
    {
        self.metrics.inc_query();
        self.cycles.log()
    }

    /// Claims counted, end of the window and lock state of `principal`. The
    /// call is counted.
    pub fn get_claim_status(&mut self, principal: &Identity, now: u64) -> (s: ClaimStatus)
        requires
            now + old(self)@.claims.window_ns <= u64::MAX,
        ensures
            final(self)@ == (AggregatorView {
                metrics: one_more_query(old(self)@.metrics),
                ..old(self)@
            }),
            s == status_of(old(self)@.claims, principal@, now),
    {
        self.metrics.inc_query();
        self.claims.get_claim_status(principal, now)
    }

    /// The pools of the registry. The call is counted.
    pub fn pools(&mut self) -> (r: Vec<PoolMeta>)
        ensures
            final(self)@ == (AggregatorView {
                metrics: one_more_query(old(self)@.metrics),
                ..old(self)@
            }),
            pool_views(r@) == old(self)@.pools,
    {
        self.metrics.inc_query();
        self.pools.list()
    }

    /// One heartbeat: counts it, asks the replenishment monitor what to do,
    /// counting a replenishment that it asks for, and advances the warm-up
    /// queue.
    pub fn heartbeat(&mut self, now: u64, balance: u128, wallet: bool) -> (beat: Heartbeat)
        requires
            now + DAY_NS <= u64::MAX,
        ensures
            beat.action == tick_action(old(self)@.cycles, now, balance, wallet),
            identity_views(beat.warm@) == warmed_by(
                old(self)@.warm.entries,
                now,
                ITEMS_PER_TICK as nat,
            ),
            well_formed(final(self)@.warm),
            final(self)@ == (AggregatorView {
                metrics: Counters {
                    heartbeat_count: bumped(old(self)@.metrics.heartbeat_count),
                    last_heartbeat: now,
                    cycle_refill_attempts: if beat.action == TickAction::Refill {
                        bumped(old(self)@.metrics.cycle_refill_attempts)
                    } else {
                        old(self)@.metrics.cycle_refill_attempts
                    },
                    ..old(self)@.metrics
                },
                cycles: after_tick(old(self)@.cycles, now),
                warm: WarmQueueView {
                    entries: rotated_by(old(self)@.warm.entries, now, ITEMS_PER_TICK as nat),
                    ..old(self)@.warm
                },
                ..old(self)@
            }),
    {
        self.metrics.inc_heartbeat(now);
        let action = self.cycles.tick(now, balance, wallet);
        if action == TickAction::Refill {
            self.metrics.inc_cycle_refill_attempt();
        }
        let warm = self.warm.tick(now);
        Heartbeat { action, warm }
    }

    /// Records the outcome of a replenishment that a heartbeat at `now`
    /// asked for, counting one that is done.
    pub fn settle_refill(&mut self, now: u64, before: u128, after: u128, call_ok: bool) -> (done:
        bool)
        requires
            now + next_delay(old(self)@.cycles) * MINUTE_NS <= u64::MAX,
        ensures
            done == refill_succeeded(before, after, call_ok),
            final(self)@ == (AggregatorView {
                metrics: Counters {
                    cycle_refill_successes: if done {
                        bumped(old(self)@.metrics.cycle_refill_successes)
                    } else {
                        old(self)@.metrics.cycle_refill_successes
                    },
                    ..old(self)@.metrics
                },
                cycles: if done {
                    after_success(old(self)@.cycles, now, after)
                } else {
                    after_failure(old(self)@.cycles, now)
                },
                ..old(self)@
            }),
    {
        let done = self.cycles.settle_refill(now, before, after, call_ok);
        if done {
            self.metrics.inc_cycle_refill_success();
        }
        done
    }

    /// Opens a claim: counts the call and the attempt and runs the checks.
    /// `Ok` means the lock is held; it carries the run to record the
    /// adapters' answers in and the number of adapters to ask, and the
    /// claim is to be closed with [`Aggregator::finish_claim`] or
    /// [`Aggregator::abort_claim`].
    pub fn begin_claim(&mut self, caller: &Identity, principal: &Identity, now: u64, available: usize)
        -> (r: Result<(ClaimRun, usize), ClaimError>)
        requires
            now + old(self)@.claims.window_ns <= u64::MAX,
            now + old(self)@.claims.lock_timeout_ns <= u64::MAX,
        ensures
            match attempt_outcome(old(self)@.claims, caller@, principal@, now) {
                Err(e) => r == Err::<(ClaimRun, usize), ClaimError>(e),
                Ok(_) => {
                    &&& r is Ok
                    &&& r->Ok_0.0@ == (RunView {
                        spent: Seq::<u64>::empty(),
                        total: 0,
                        max_total: old(self)@.claims.max_total,
                    })
                    &&& r->Ok_0.1 == planned(old(self)@.claims, available)
                },
            },
            final(self)@ == (AggregatorView {
                metrics: Counters {
                    query_count: bumped(old(self)@.metrics.query_count),
                    claim_attempts: bumped(old(self)@.metrics.claim_attempts),
                    ..old(self)@.metrics
                },
                claims: after_attempt(old(self)@.claims, caller@, principal@, now),
                ..old(self)@
            }),
    {
        self.metrics.inc_query();
        self.metrics.inc_claim_attempt();
        match self.claims.begin_claim(caller, principal, now) {
            Ok(()) => Ok((self.claims.start_run(), self.claims.adapters_per_call(available))),
            Err(e) => Err(e),
        }
    }

    /// Closes a claim that went through: gives the lock back, counts the
    /// success, and writes the result cache of the identity anew from what
    /// the sources answered, unless a group of them failed, which leaves
    /// the cache as it was. Returns what each adapter that claimed spent.
    pub fn finish_claim(&mut self, principal: &Identity, run: ClaimRun, groups: &Groups, now: u64)
        -> (spent: Vec<u64>)
        ensures
            spent@ == run@.spent,
            final(self)@ == (AggregatorView {
                metrics: Counters {
                    claim_successes: bumped(old(self)@.metrics.claim_successes),
                    ..old(self)@.metrics
                },
                claims: released(old(self)@.claims, principal@),
                cache: cache_after(
                    old(self)@.cache,
                    principal@,
                    groups.merged(old(self)@.max_holdings as nat),
                    now,
                ),
                ..old(self)@
            }),
    {
        self.claims.release(principal);
        self.metrics.inc_claim_success();
        match calculate_holdings(groups, self.max_holdings) {
            Ok(holdings) => {
                self.cache.insert(principal, holdings, now);
            },
            Err(_) => {},
        }
        run.finish()
    }

    /// Closes a claim that was stopped: gives the lock back and nothing
    /// else.
    pub fn abort_claim(&mut self, principal: &Identity)
        ensures
            final(self)@ == (AggregatorView {
                claims: released(old(self)@.claims, principal@),
                ..old(self)@
            }),
    {
        self.claims.release(principal);
    }

    /// The claim entry point: a whole claim as
    /// [`ClaimController::claim_all_rewards`] runs it, and after a claim
    /// that succeeded the result cache of the identity is written anew from
    /// what `fetch` brings from the sources, unless a group of them failed.
    /// `claim` and `fetch` need to be callable only where the checks let the
    /// claim through.
    pub fn claim_all_rewards<F: Fn(usize) -> Option<u64>, G: FnOnce() -> Groups>(
        &mut self,
        caller: &Identity,
        principal: &Identity,
        now: u64,
        available: usize,
        claim: F,
        fetch: G,
    ) -> (r: Result<Vec<u64>, ClaimError>)
        requires
            now + old(self)@.claims.window_ns <= u64::MAX,
            now + old(self)@.claims.lock_timeout_ns <= u64::MAX,
            attempt_outcome(old(self)@.claims, caller@, principal@, now) is Ok ==> {
                &&& forall|i: usize| i < available ==> claim.requires((i,))
                &&& fetch.requires(())
            },
        ensures
            claimed(
                old(self)@.claims,
                final(self)@.claims,
                old(self)@.metrics,
                final(self)@.metrics,
                caller@,
                principal@,
                now,
                available,
                claim,
                r,
            ),
            r is Err ==> final(self)@.cache == old(self)@.cache,
            r is Ok ==> exists|groups: Groups|
                {
                    &&& fetch.ensures((), groups)
                    &&& final(self)@.cache == cache_after(
                        old(self)@.cache,
                        principal@,
                        groups.merged(old(self)@.max_holdings as nat),
                        now,
                    )
                },
            final(self)@ == (AggregatorView {
                metrics: final(self)@.metrics,
                claims: final(self)@.claims,
                cache: final(self)@.cache,
                ..old(self)@
            }),
    {
        let r = self.claims.claim_all_rewards(
            &mut self.metrics,
            caller,
            principal,
            now,
            available,
            claim,
        );
        match r {
            Ok(spent) => {
                let groups = fetch();
                match calculate_holdings(&groups, self.max_holdings) {
                    Ok(holdings) => {
                        self.cache.insert(principal, holdings, now);
                    },
                    Err(_) => {},
                }
                Ok(spent)
            },
            Err(e) => Err(e),
        }
    }

    /// After the configuration was read anew: what the adapters and the
    /// position cache hold is forgotten, and the warm-up queue is rebuilt
    /// from the enabled sources.
    pub fn reload(&mut self, ledgers: &Vec<Identity>, dexes: &Vec<Identity>, now: u64)
        ensures
            sources(final(self)@.warm.entries) == truncated(
                distinct(identity_views(ledgers@) + identity_views(dexes@)),
                old(self)@.warm.capacity,
            ),
            forall|i: int|
                0 <= i < final(self)@.warm.entries.len() ==> (
                #[trigger] final(self)@.warm.entries[i]).next == now,
            well_formed(final(self)@.warm),
            final(self)@ == (AggregatorView {
                icpswap: dex::dex_icpswap::no_pools(),
                infinity: MetadataCacheView {
                    entries: ledger_fetcher::no_metadata(),
                    ..old(self)@.infinity
                },
                positions: lp_cache::no_positions(),
                warm: WarmQueueView {
                    entries: final(self)@.warm.entries,
                    ..old(self)@.warm
                },
                ..old(self)@
            }),
    {
        dex::clear_all_caches(
            &mut self.icpswap,
            &mut self.sonic,
            &mut self.infinity,
            &mut self.sns,
            &mut self.positions,
        );
        self.warm.init(ledgers, dexes, now);
    }

    /// What is carried over an upgrade: the event log, which is handed
    /// out, the two caches that persist, and the counters.
    pub fn pre_upgrade(&mut self) -> (state: StableState)
        ensures
            cycles::texts(state.log@) == old(self)@.cycles.log,
            ledger_fetcher::restored(state.meta@) == old(self)@.metadata.entries,
            lp_cache::restored(state.lp@) == old(self)@.positions,
            state.metrics == metrics::saved(old(self)@.metrics),
            final(self)@ == (AggregatorView {
                cycles: CycleMonitorView { log: Seq::<Seq<char>>::empty(), ..old(self)@.cycles },
                ..old(self)@
            }),
    {
        let log = self.cycles.take_log();
        let meta = self.metadata.stable_save();
        let lp = self.positions.stable_save();
        let metrics = self.metrics.stable_save();
        StableState { log, meta, lp, metrics }
    }

    /// Takes in what was carried over an upgrade.
    pub fn post_upgrade(&mut self, state: StableState)
        ensures
            final(self)@ == (AggregatorView {
                cycles: CycleMonitorView {
                    log: cycles::newest(cycles::texts(state.log@)),
                    ..old(self)@.cycles
                },
                metadata: MetadataCacheView {
                    entries: ledger_fetcher::restored(state.meta@),
                    ..old(self)@.metadata
                },
                positions: lp_cache::restored(state.lp@),
                metrics: metrics::restored(state.metrics),
                ..old(self)@
            }),
    {
        self.cycles.set_log(state.log);
        self.metadata.stable_restore(state.meta);
        self.positions.stable_restore(state.lp);
        self.metrics.stable_restore(state.metrics);
    }
}

/// Publishing for another identity leaves what is certified for this one:
/// where the tree keys of the two identities differ, the published list of
/// `principal` and the leaf under its key are after the publish for `other`
/// what they were before.
pub proof fn lemma_other_publish_keeps_certified(
    published: Map<Seq<u8>, (Seq<HoldingView>, u64)>,
    leaves: Map<Seq<u8>, Seq<u8>>,
    principal: Seq<u8>,
    other: Seq<u8>,
    merged: Seq<HoldingView>,
    now: u64,
    hash: Seq<u8>,
)
    requires
        identity_key(principal) != identity_key(other),
        published.contains_key(principal),
        leaves.contains_key(identity_key(principal)),
    ensures
        published.insert(other, (merged, now))[principal] == published[principal],
        leaves.insert(identity_key(other), hash)[identity_key(principal)] == leaves[identity_key(
            principal,
        )],
{
}

/// Reading twice within the time that a result is served costs no second
/// fetch: once a result is written at `written`, a read of the same
/// identity at `now`, less than [`RESULT_TTL_NS`] later, is answered by the
/// cache with that very result.
pub proof fn lemma_second_read_is_cached(
    cache: Map<Seq<u8>, (Seq<HoldingView>, u64)>,
    principal: Seq<u8>,
    holdings: Seq<HoldingView>,
    written: u64,
    now: u64,
)
    requires
        now - written < RESULT_TTL_NS,
    ensures
        result_fresh(cache.insert(principal, (holdings, written)), principal, now),
        cache.insert(principal, (holdings, written))[principal].0 == holdings,
{
}

} // verus!
