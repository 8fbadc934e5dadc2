//! The adapter of the factory-and-pools exchange.

use crate::dex::resolve_target;
use crate::error::{FetchError, FetchErrorView};
use crate::holding::{
    all_known, clone_holdings, known_status, lemma_known_statuses, views, Holding, HoldingView,
};
use crate::identity::{copy_bytes, Identity};
use crate::lp_cache::{hit, EntryView, Key, PositionCache};
use crate::utils::{amount_text, format_amount_of, nat_value, DAY_NS};
use candid::Nat;
use dashmap::DashMap;
use vstd::prelude::*;

verus! {

/// Time that cached pool metadata stays valid.
pub const META_TTL_NS: u64 = DAY_NS;

/// A token as the factory reports it.
pub struct Token {
    /// Contract address.
    pub address: String,
    /// Token standard.
    pub standard: String,
}

/// One pool as the factory reports it.
pub struct PoolData {
    /// Key of the pool.
    pub key: String,
    /// First token of the pair.
    pub token0: Token,
    /// Second token of the pair.
    pub token1: Token,
    /// The pool itself.
    pub canister_id: Identity,
}

/// One position of a user in a pool.
pub struct UserPositionInfoWithTokenAmount {
    /// Number of the position.
    pub id: Nat,
    /// Escrowed amount of the first token.
    pub token0_amount: Nat,
    /// Escrowed amount of the second token.
    pub token1_amount: Nat,
}

/// The decimal places of the two tokens of a pool.
#[derive(Debug, Clone, Copy, PartialEq, Eq, Structural)]
pub struct PoolMetadata {
    /// Decimal places of the first token.
    pub token0_decimals: u8,
    /// Decimal places of the second token.
    pub token1_decimals: u8,
}

/// What the concurrent map behind the pool metadata cache holds: for each
/// pool, by its bytes, the metadata and the time it expires.
pub uninterp spec fn cached_pools(m: DashMap<Vec<u8>, (PoolMetadata, u64)>) -> Map<
    Seq<u8>,
    (PoolMetadata, u64),
>;

/// A pool metadata cache without entries.
pub open spec fn no_pools() -> Map<Seq<u8>, (PoolMetadata, u64)> {
    Map::empty()
}

/// Calls `DashMap::new`: a map that holds nothing.
#[verifier::external_body]
fn pools_new() -> (m: DashMap<Vec<u8>, (PoolMetadata, u64)>)
    ensures
        cached_pools(m) == no_pools(),
{
    DashMap::new()
}

/// Calls `DashMap::get` and copies the entry out: the value stored under
/// the key, if there is one.
#[verifier::external_body]
fn pools_get(m: &DashMap<Vec<u8>, (PoolMetadata, u64)>, key: &Vec<u8>) -> (r: Option<
    (PoolMetadata, u64),
>)
    ensures
        r.is_some() == cached_pools(*m).contains_key(key@),
        r.is_some() ==> r.unwrap() == cached_pools(*m)[key@],
{
    m.get(key).map(|e| *e.value())
}

/// Calls `DashMap::insert`: the key now maps to the value, other keys are
/// untouched.
#[verifier::external_body]
fn pools_insert(m: &mut DashMap<Vec<u8>, (PoolMetadata, u64)>, key: Vec<u8>, value: (
    PoolMetadata,
    u64,
))
    ensures
        cached_pools(*final(m)) == cached_pools(*old(m)).insert(key@, value),
{
    m.insert(key, value);
}

/// Calls `DashMap::clear`: nothing is left.
#[verifier::external_body]
fn pools_clear(m: &mut DashMap<Vec<u8>, (PoolMetadata, u64)>)
    ensures
        cached_pools(*final(m)) == no_pools(),
{
    m.clear();
}

/// The factory adapter, with its cache of pool metadata.
pub struct IcpswapAdapter {
    meta: DashMap<Vec<u8>, (PoolMetadata, u64)>,
}

impl View for IcpswapAdapter {
    type V = Map<Seq<u8>, (PoolMetadata, u64)>;

    closed spec fn view(&self) -> Self::V {
        cached_pools(self.meta)
    }
}

/// An escrowed amount reported by a pool.
pub open spec fn escrow(address: Seq<char>, amount: nat, decimals: u8) -> HoldingView {
    HoldingView {
        source: "ICPSwap"@,
        token: address,
        amount: amount_text(amount, decimals as nat),
        status: "lp_escrow"@,
    }
}

/// The holdings of a list of positions in one pool: both sides of each
/// position, in order.
pub open spec fn positions_view(
    pool: PoolData,
    ps: Seq<UserPositionInfoWithTokenAmount>,
    meta: PoolMetadata,
) -> Seq<HoldingView>
    decreases ps.len(),
{
    if ps.len() == 0 {
        Seq::empty()
    } else {
        positions_view(pool, ps.drop_last(), meta).push(
            escrow(pool.token0.address@, nat_value(ps.last().token0_amount), meta.token0_decimals),
        ).push(
            escrow(pool.token1.address@, nat_value(ps.last().token1_amount), meta.token1_decimals),
        )
    }
}

/// True when the cache answers a request for the pool `cid` at `now`.
pub open spec fn served(m: Map<Seq<u8>, (PoolMetadata, u64)>, cid: Seq<u8>, now: u64) -> bool {
    m.contains_key(cid) && m[cid].1 > now
}

/// The sum of what the pools spent, or nothing where it does not fit in 64
/// bits.
pub open spec fn total_spent(spent: Seq<u64>) -> Option<u64>
    decreases spent.len(),
{
    if spent.len() == 0 {
        Some(0u64)
    } else {
        match total_spent(spent.drop_last()) {
            Some(sofar) => if sofar + spent.last() <= u64::MAX {
                Some((sofar + spent.last()) as u64)
            } else {
                None
            },
            None => None,
        }
    }
}

/// The positions that a pool reported, none where it did not answer.
pub open spec fn reported_positions(answer: Option<Vec<UserPositionInfoWithTokenAmount>>) -> Seq<
    UserPositionInfoWithTokenAmount,
> {
    match answer {
        Some(ps) => ps@,
        None => Seq::empty(),
    }
}

/// The holdings of positions in a pool with the given metadata; without
/// metadata there are none.
pub open spec fn pool_view(
    pool: PoolData,
    ps: Seq<UserPositionInfoWithTokenAmount>,
    meta: Option<PoolMetadata>,
) -> Seq<HoldingView> {
    match meta {
        Some(m) => positions_view(pool, ps, m),
        None => Seq::empty(),
    }
}

/// The metadata of a pool and the metadata cache after the pool's metadata
/// was needed at `now`: the cached metadata where it is valid, with the
/// cache as it was; else what the pool answers, cached for a day where it
/// is there.
pub open spec fn meta_fetched<M: Fn(&PoolData) -> Option<PoolMetadata>>(
    meta_before: Map<Seq<u8>, (PoolMetadata, u64)>,
    meta_after: Map<Seq<u8>, (PoolMetadata, u64)>,
    pool: PoolData,
    now: u64,
    metadata: M,
    meta: Option<PoolMetadata>,
) -> bool {
    let cid = pool.canister_id@;
    if served(meta_before, cid, now) {
        meta == Some(meta_before[cid].0) && meta_after == meta_before
    } else {
        &&& metadata.ensures((&pool,), meta)
        &&& meta_after == (match meta {
            Some(m) => meta_before.insert(cid, (m, (now + META_TTL_NS) as u64)),
            None => meta_before,
        })
    }
}

/// What the positions of an identity in one pool amount to, `reported`
/// being the height of the pool and zero standing for one that could not be
/// had. Where the position cache is valid at that height, its answer is
/// given and nothing changes. Else the pool is asked for the positions, its
/// metadata is had as [`meta_fetched`] says, and the holdings built from
/// both are cached and given.
pub open spec fn pool_fetched<
    Q: Fn(&PoolData) -> Option<Vec<UserPositionInfoWithTokenAmount>>,
    M: Fn(&PoolData) -> Option<PoolMetadata>,
>(
    meta_before: Map<Seq<u8>, (PoolMetadata, u64)>,
    meta_after: Map<Seq<u8>, (PoolMetadata, u64)>,
    before: Map<Key, EntryView>,
    after: Map<Key, EntryView>,
    principal: Seq<u8>,
    pool: PoolData,
    reported: Option<u64>,
    now: u64,
    positions: Q,
    metadata: M,
    holdings: Seq<HoldingView>,
) -> bool {
    let at = match reported {
        Some(h) => h,
        None => 0u64,
    };
    let key = (principal, pool.key@);
    if hit(before, key, at, now) {
        holdings == before[key].data && after == before && meta_after == meta_before
    } else {
        exists|answer: Option<Vec<UserPositionInfoWithTokenAmount>>, meta: Option<PoolMetadata>|
            {
                &&& positions.ensures((&pool,), answer)
                &&& #[trigger] meta_fetched(meta_before, meta_after, pool, now, metadata, meta)
                &&& holdings == #[trigger] pool_view(pool, reported_positions(answer), meta)
                &&& after == before.insert(key, EntryView { data: holdings, height: at, ts: now })
            }
    }
}

/// What walking through the pools of the factory amounts to: pool after
/// pool, in order, the height of the pool is asked and its positions are
/// had as [`pool_fetched`] says, each pool finding the caches as the one
/// before it left them; the holdings are those of all pools, in order.
pub open spec fn walked<
    H: Fn(&PoolData) -> Option<u64>,
    Q: Fn(&PoolData) -> Option<Vec<UserPositionInfoWithTokenAmount>>,
    M: Fn(&PoolData) -> Option<PoolMetadata>,
>(
    meta_before: Map<Seq<u8>, (PoolMetadata, u64)>,
    meta_after: Map<Seq<u8>, (PoolMetadata, u64)>,
    before: Map<Key, EntryView>,
    after: Map<Key, EntryView>,
    principal: Seq<u8>,
    pools: Seq<PoolData>,
    now: u64,
    height: H,
    positions: Q,
    metadata: M,
    holdings: Seq<HoldingView>,
) -> bool
    decreases pools.len(),
{
    if pools.len() == 0 {
        meta_after == meta_before && after == before && holdings == Seq::<HoldingView>::empty()
    } else {
        exists|
            meta_mid: Map<Seq<u8>, (PoolMetadata, u64)>,
            mid: Map<Key, EntryView>,
            sofar: Seq<HoldingView>,
            last: Seq<HoldingView>,
            reported: Option<u64>,
        |
            {
                &&& walked(
                    meta_before,
                    meta_mid,
                    before,
                    mid,
                    principal,
                    pools.drop_last(),
                    now,
                    height,
                    positions,
                    metadata,
                    sofar,
                )
                &&& height.ensures((&pools.last(),), reported)
                &&& #[trigger] pool_fetched(
                    meta_mid,
                    meta_after,
                    mid,
                    after,
                    principal,
                    pools.last(),
                    reported,
                    now,
                    positions,
                    metadata,
                    last,
                )
                &&& holdings == #[trigger] (sofar + last)
            }
    }
}

/// What a fetch of positions amounts to. Without a configured factory it
/// fails with `InvalidConfig("factory")` and touches nothing. With one, the
/// factory is asked for its pools, and its failure is handed back with the
/// caches untouched; else the pools are walked through as [`walked`] says.
pub open spec fn fetched<
    P: FnOnce(&Identity) -> Result<Vec<PoolData>, FetchError>,
    H: Fn(&PoolData) -> Option<u64>,
    Q: Fn(&PoolData) -> Option<Vec<UserPositionInfoWithTokenAmount>>,
    M: Fn(&PoolData) -> Option<PoolMetadata>,
>(
    meta_before: Map<Seq<u8>, (PoolMetadata, u64)>,
    meta_after: Map<Seq<u8>, (PoolMetadata, u64)>,
    before: Map<Key, EntryView>,
    after: Map<Key, EntryView>,
    configured: Option<Identity>,
    principal: Seq<u8>,
    now: u64,
    pools: P,
    height: H,
    positions: Q,
    metadata: M,
    r: Result<Vec<Holding>, FetchError>,
) -> bool {
    match configured {
        None => {
            &&& r is Err
            &&& r->Err_0@ == FetchErrorView::InvalidConfig("factory"@)
            &&& after == before
            &&& meta_after == meta_before
        },
        Some(factory) => exists|answer: Result<Vec<PoolData>, FetchError>|
            {
                &&& pools.ensures((&factory,), answer)
                &&& match answer {
                    Err(e) => r is Err && r->Err_0@ == e@ && after == before && meta_after
                        == meta_before,
                    Ok(found) => r is Ok && walked(
                        meta_before,
                        meta_after,
                        before,
                        after,
                        principal,
                        found@,
                        now,
                        height,
                        positions,
                        metadata,
                        views(r->Ok_0@),
                    ),
                }
            },
    }
}

/// The value of what one pool answered to a claim.
pub open spec fn claim_view(r: Result<u64, String>) -> Result<u64, Seq<char>> {
    match r {
        Ok(spent) => Ok(spent),
        Err(reason) => Err(reason@),
    }
}

/// The values of what the pools answered to a claim, in order.
pub open spec fn claim_views(answers: Seq<Result<u64, String>>) -> Seq<Result<u64, Seq<char>>> {
    answers.map_values(|a: Result<u64, String>| claim_view(a))
}

/// What claiming at the pools, in order, comes to: the reason of the first
/// pool that failed; `overflow` where the sum of what the pools spent stops
/// fitting in 64 bits before a pool fails; else that sum.
pub open spec fn claims_total(answers: Seq<Result<u64, Seq<char>>>) -> Result<u64, Seq<char>>
    decreases answers.len(),
{
    if answers.len() == 0 {
        Ok(0u64)
    } else {
        match claims_total(answers.drop_last()) {
            Err(reason) => Err(reason),
            Ok(sofar) => match answers.last() {
                Err(reason) => Err(reason),
                Ok(spent) => if sofar + spent <= u64::MAX {
                    Ok((sofar + spent) as u64)
                } else {
                    Err("overflow"@)
                },
            },
        }
    }
}

/// What claiming at the pools of the factory amounts to: the pools are
/// asked in order as long as none has failed and the sum fits, and the
/// answer is what [`claims_total`] makes of the pools that were asked.
pub open spec fn pools_claimed<C: Fn(&PoolData) -> Result<u64, String>>(
    pools: Seq<PoolData>,
    claim: C,
    r: Result<u64, Seq<char>>,
) -> bool {
    exists|answers: Seq<Result<u64, String>>|
        {
            &&& answers.len() <= pools.len()
            &&& forall|i: int|
                0 <= i < answers.len() ==> claim.ensures((&pools[i],), #[trigger] answers[i])
            &&& answers.len() < pools.len() ==> claims_total(claim_views(answers))
                is Err
            &&& forall|i: int|
                0 <= i < answers.len() ==> #[trigger] claims_total(
                    claim_views(answers).take(i),
                ) is Ok
            &&& r == claims_total(claim_views(answers))
        }
}

impl IcpswapAdapter {
    /// An adapter with an empty cache.
    pub fn new() -> (a: IcpswapAdapter)
        ensures
            a@ == no_pools(),
    {
        IcpswapAdapter { meta: pools_new() }
    }

    /// Name of the configuration field that holds the factory.
    pub fn field(&self) -> (s: &'static str)
        ensures
            s@ == "factory"@,
    {
        "factory"
    }

    /// Forgets the cached pool metadata.
    pub fn clear_cache(&mut self)
        ensures
            final(self)@ == no_pools(),
    {
        pools_clear(&mut self.meta);
    }

    /// The factory to ask, or `InvalidConfig("factory")` without any remote
    /// call when none is configured.
    pub fn target(&self, configured: Option<Identity>) -> (r: Result<Identity, FetchError>)
        ensures
            match configured {
                Some(id) => r is Ok && r->Ok_0@ == id@,
                None => r is Err && r->Err_0@ == FetchErrorView::InvalidConfig("factory"@),
            },
    {
        resolve_target("factory", configured)
    }

    /// The metadata of the pool `cid`: the cached one where it is valid at
    /// `now`; else what `fetch` returns, which is cached for a day where it
    /// is there. `fetch` needs to be callable only where the cache misses.
    pub fn fetch_meta<F: FnOnce() -> Option<PoolMetadata>>(
        &mut self,
        cid: &Identity,
        now: u64,
        fetch: F,
    ) -> (r: Option<PoolMetadata>)
        requires
            now + META_TTL_NS <= u64::MAX,
            !served(old(self)@, cid@, now) ==> fetch.requires(()),
        ensures
            served(old(self)@, cid@, now) ==> {
                &&& r == Some(old(self)@[cid@].0)
                &&& final(self)@ == old(self)@
            },
            !served(old(self)@, cid@, now) ==> {
                &&& fetch.ensures((), r)
                &&& final(self)@ == (match r {
                    Some(meta) => old(self)@.insert(cid@, (meta, (now + META_TTL_NS) as u64)),
                    None => old(self)@,
                })
            },
    {
        let key = copy_bytes(cid.as_bytes());
        match pools_get(&self.meta, &key) {
            Some(entry) => {
                if entry.1 > now {
                    return Some(entry.0);
                }
            },
            None => {},
        }
        match fetch() {
            Some(meta) => {
                pools_insert(&mut self.meta, key, (meta, now + META_TTL_NS));
                Some(meta)
            },
            None => None,
        }
    }

    /// The metadata of a pool: the cached one where it is valid at `now`,
    /// else what the pool answers through `metadata`, cached for a day
    /// where it is there.
    fn pool_meta<M: Fn(&PoolData) -> Option<PoolMetadata>>(
        &mut self,
        pool: &PoolData,
        now: u64,
        metadata: &M,
    ) -> (meta: Option<PoolMetadata>)
        requires
            now + META_TTL_NS <= u64::MAX,
            metadata.requires((pool,)),
        ensures
            meta_fetched(old(self)@, final(self)@, *pool, now, *metadata, meta),
    {
        let key = copy_bytes(pool.canister_id.as_bytes());
        match pools_get(&self.meta, &key) {
            Some(entry) => {
                if entry.1 > now {
                    return Some(entry.0);
                }
            },
            None => {},
        }
        match metadata(pool) {
            Some(meta) => {
                pools_insert(&mut self.meta, key, (meta, now + META_TTL_NS));
                Some(meta)
            },
            None => None,
        }
    }

    /// The positions of `principal` in one pool whose height is `reported`.
    /// `positions` and `metadata` ask the pool; they are called only where
    /// the caches do not answer.
    pub fn pool_positions<
        Q: Fn(&PoolData) -> Option<Vec<UserPositionInfoWithTokenAmount>>,
        M: Fn(&PoolData) -> Option<PoolMetadata>,
    >(
        &mut self,
        cache: &mut PositionCache,
        principal: &Identity,
        pool: &PoolData,
        reported: Option<u64>,
        now: u64,
        positions: &Q,
        metadata: &M,
    ) -> (r: Vec<Holding>)
        requires
            now + META_TTL_NS <= u64::MAX,
            positions.requires((pool,)),
            metadata.requires((pool,)),
        ensures
            pool_fetched(
                old(self)@,
                final(self)@,
                old(cache)@,
                final(cache)@,
                principal@,
                *pool,
                reported,
                now,
                *positions,
                *metadata,
                views(r@),
            ),
    {
        let at = match reported {
            Some(h) => h,
            None => 0,
        };
        match cache.lookup(principal, pool.key.as_str(), at, now) {
            Some(found) => found,
            None => {
                let answer = positions(pool);
                let ghost given = answer;
                let ps = match answer {
                    Some(ps) => ps,
                    None => Vec::new(),
                };
                let meta = self.pool_meta(pool, now, metadata);
                let fresh = self.pool_holdings(pool, &ps, meta);
                cache.store(principal, pool.key.as_str(), at, clone_holdings(&fresh), now);
                proof {
                    assert(ps@ =~= reported_positions(given));
                    assert(positions.ensures((pool,), given));
                    assert(meta_fetched(old(self)@, self@, *pool, now, *metadata, meta));
                    assert(views(fresh@) == pool_view(*pool, reported_positions(given), meta));
                }
                fresh
            },
        }
    }

    /// Fetches the positions of `principal`: the factory is asked for its
    /// pools through `pools`, which needs to be callable only where a
    /// factory is configured, and each pool through `height`, `positions`
    /// and `metadata`.
    pub fn fetch_positions<
        P: FnOnce(&Identity) -> Result<Vec<PoolData>, FetchError>,
        H: Fn(&PoolData) -> Option<u64>,
        Q: Fn(&PoolData) -> Option<Vec<UserPositionInfoWithTokenAmount>>,
        M: Fn(&PoolData) -> Option<PoolMetadata>,
    >(
        &mut self,
        cache: &mut PositionCache,
        configured: Option<Identity>,
        principal: &Identity,
        now: u64,
        pools: P,
        height: H,
        positions: Q,
        metadata: M,
    ) -> (r: Result<Vec<Holding>, FetchError>)
        requires
            now + META_TTL_NS <= u64::MAX,
            configured is Some ==> pools.requires((&configured->Some_0,)),
            forall|pool: PoolData| height.requires((&pool,)),
            forall|pool: PoolData| positions.requires((&pool,)),
            forall|pool: PoolData| metadata.requires((&pool,)),
        ensures
            fetched(
                old(self)@,
                final(self)@,
                old(cache)@,
                final(cache)@,
                configured,
                principal@,
                now,
                pools,
                height,
                positions,
                metadata,
                r,
            ),
    {
        let factory = match configured {
            Some(id) => id,
            None => {
                return Err(FetchError::invalid_config("factory"));
            },
        };
        let answer = pools(&factory);
        let ghost given = answer;
        let found = match answer {
            Ok(found) => found,
            Err(e) => {
                proof {
                    assert(pools.ensures((&factory,), given));
                }
                return Err(e);
            },
        };
        let mut out: Vec<Holding> = Vec::new();
        let mut i: usize = 0;
        proof {
            assert(views(out@) =~= Seq::<HoldingView>::empty());
            assert(found@.take(0).len() == 0);
        }
        while i < found.len()
            invariant
                i <= found@.len(),
                now + META_TTL_NS <= u64::MAX,
                forall|pool: PoolData| height.requires((&pool,)),
                forall|pool: PoolData| positions.requires((&pool,)),
                forall|pool: PoolData| metadata.requires((&pool,)),
                walked(
                    old(self)@,
                    self@,
                    old(cache)@,
                    cache@,
                    principal@,
                    found@.take(i as int),
                    now,
                    height,
                    positions,
                    metadata,
                    views(out@),
                ),
            decreases found@.len() - i,
        {
            let ghost meta_mid = self@;
            let ghost mid = cache@;
            let ghost sofar = views(out@);
            let pool = &found[i];
            let reported = height(pool);
            let holdings = self.pool_positions(
                cache,
                principal,
                pool,
                reported,
                now,
                &positions,
                &metadata,
            );
            let ghost last = views(holdings@);
            crate::holding::append_holdings(&mut out, &holdings);
            proof {
                let upto = found@.take(i as int + 1);
                assert(upto.drop_last() =~= found@.take(i as int));
                assert(upto.last() == *pool);
                assert(walked(
                    old(self)@,
                    meta_mid,
                    old(cache)@,
                    mid,
                    principal@,
                    upto.drop_last(),
                    now,
                    height,
                    positions,
                    metadata,
                    sofar,
                ));
                assert(height.ensures((&upto.last(),), reported));
                assert(pool_fetched(
                    meta_mid,
                    self@,
                    mid,
                    cache@,
                    principal@,
                    upto.last(),
                    reported,
                    now,
                    positions,
                    metadata,
                    last,
                ));
                assert(views(out@) == sofar + last);
                assert(walked(
                    old(self)@,
                    self@,
                    old(cache)@,
                    cache@,
                    principal@,
                    upto,
                    now,
                    height,
                    positions,
                    metadata,
                    views(out@),
                ));
            }
            i += 1;
        }
        let r = Ok(out);
        proof {
            assert(found@.take(found@.len() as int) =~= found@);
            assert(given == Ok::<Vec<PoolData>, FetchError>(found));
            assert(pools.ensures((&factory,), given));
        }
        r
    }

    /// Builds the holdings of the positions that a pool reported; without
    /// the pool's metadata there are none.
    pub fn pool_holdings(
        &self,
        pool: &PoolData,
        positions: &Vec<UserPositionInfoWithTokenAmount>,
        meta: Option<PoolMetadata>,
    ) -> (r: Vec<Holding>)
        ensures
            views(r@) == (match meta {
                Some(m) => positions_view(*pool, positions@, m),
                None => Seq::<HoldingView>::empty(),
            }),
            all_known(views(r@)),
    {
        proof {
            lemma_known_statuses();
        }
        let mut out: Vec<Holding> = Vec::new();
        let m = match meta {
            Some(m) => m,
            None => {
                proof {
                    assert(views(out@) =~= Seq::<HoldingView>::empty());
                }
                return out;
            },
        };
        let mut i: usize = 0;
        proof {
            assert(views(out@) =~= positions_view(*pool, positions@.take(0), m));
        }
        while i < positions.len()
            invariant
                i <= positions@.len(),
                views(out@) == positions_view(*pool, positions@.take(i as int), m),
                known_status("lp_escrow"@),
                forall|j: int| 0 <= j < out@.len() ==> (#[trigger] out@[j])@.status == "lp_escrow"@,
            decreases positions@.len() - i,
        {
            let ghost before = views(out@);
            let p = &positions[i];
            out.push(
                Holding::new(
                    "ICPSwap",
                    pool.token0.address.clone(),
                    format_amount_of(&p.token0_amount, m.token0_decimals),
                    "lp_escrow",
                ),
            );
            out.push(
                Holding::new(
                    "ICPSwap",
                    pool.token1.address.clone(),
                    format_amount_of(&p.token1_amount, m.token1_decimals),
                    "lp_escrow",
                ),
            );
            proof {
                assert(positions@.take(i as int + 1).drop_last() =~= positions@.take(i as int));
                assert(positions@.take(i as int + 1).last() == positions@[i as int]);
                assert(views(out@) =~= before.push(
                    escrow(pool.token0.address@, nat_value(p.token0_amount), m.token0_decimals),
                ).push(escrow(pool.token1.address@, nat_value(p.token1_amount), m.token1_decimals)));
            }
            i += 1;
        }
        proof {
            assert(positions@.take(positions@.len() as int) =~= positions@);
            assert forall|j: int| 0 <= j < views(out@).len() implies known_status(
                (#[trigger] views(out@)[j]).status,
            ) by {
                assert(out@[j]@.status == "lp_escrow"@);
            }
        }
        out
    }

    /// Claims for an identity at every pool of the factory. Without a
    /// configured factory this fails at once with `factory`, and without a
    /// ledger with `ledger`. The factory is asked for its pools through
    /// `pools` and its failure is handed back; then the pools are asked in
    /// order through `claim` and what they spent is added up, the first
    /// failure or an overflow of the sum ending the claim.
    pub fn claim_rewards<
        P: FnOnce(&Identity) -> Result<Vec<PoolData>, String>,
        C: Fn(&PoolData) -> Result<u64, String>,
    >(&self, configured: Option<Identity>, ledger: Option<Identity>, pools: P, claim: C) -> (r:
        Result<u64, String>)
        requires
            configured is Some && ledger is Some ==> pools.requires((&configured->Some_0,)),
            forall|pool: PoolData| claim.requires((&pool,)),
        ensures
            configured is None ==> r is Err && r->Err_0@ == "factory"@,
            configured is Some && ledger is None ==> r is Err && r->Err_0@ == "ledger"@,
            configured is Some && ledger is Some ==> exists|found: Result<Vec<PoolData>, String>|
                {
                    &&& pools.ensures((&configured->Some_0,), found)
                    &&& match found {
                        Err(reason) => r is Err && r->Err_0@ == reason@,
                        Ok(list) => pools_claimed(list@, claim, claim_view(r)),
                    }
                },
    {
        let factory = match configured {
            Some(id) => id,
            None => {
                return Err(String::from_str("factory"));
            },
        };
        if ledger.is_none() {
            return Err(String::from_str("ledger"));
        }
        let found = pools(&factory);
        let ghost given = found;
        let list = match found {
            Ok(list) => list,
            Err(reason) => {
                proof {
                    assert(pools.ensures((&factory,), given));
                }
                return Err(reason);
            },
        };
        let ghost mut answers: Seq<Result<u64, String>> = Seq::empty();
        let mut total: u64 = 0;
        let mut i: usize = 0;
        proof {
            assert(claim_views(answers) =~= Seq::empty());
        }
        while i < list.len()
            invariant
                i <= list@.len(),
                answers.len() == i,
                configured == Some(factory),
                ledger is Some,
                given == Ok::<Vec<PoolData>, String>(list),
                pools.ensures((&factory,), given),
                forall|pool: PoolData| claim.requires((&pool,)),
                forall|k: int| 0 <= k < i ==> claim.ensures((&list@[k],), #[trigger] answers[k]),
                forall|k: int|
                    0 <= k < i ==> #[trigger] claims_total(
                        claim_views(answers).take(k),
                    ) is Ok,
                claims_total(claim_views(answers)) == Ok::<u64, Seq<char>>(total),
            decreases list@.len() - i,
        {
            let answer = claim(&list[i]);
            let ghost earlier = answers;
            proof {
                answers = answers.push(answer);
                let all = claim_views(answers);
                let old_all = claim_views(earlier);
                assert(all.drop_last() =~= old_all);
                assert(all.last() == claim_view(answer));
                assert forall|k: int| 0 <= k < i + 1 implies #[trigger] claims_total(all.take(k))
                    is Ok by {
                    if k < i {
                        assert(all.take(k) =~= old_all.take(k));
                    } else {
                        assert(all.take(k) =~= old_all);
                    }
                }
            }
            let spent = match answer {
                Ok(spent) => spent,
                Err(reason) => {
                    let r = Err(reason);
                    proof {
                        assert(pools_claimed(list@, claim, claim_view(r)));
                        assert(pools.ensures((&configured->Some_0,), given));
                        assert(given is Ok && given->Ok_0@ == list@);
                    }
                    return r;
                },
            };
            if total > u64::MAX - spent {
                let r = Err(String::from_str("overflow"));
                proof {
                    assert(pools_claimed(list@, claim, claim_view(r)));
                    assert(pools.ensures((&configured->Some_0,), given));
                    assert(given is Ok && given->Ok_0@ == list@);
                }
                return r;
            }
            total = total + spent;
            i += 1;
        }
        let r = Ok(total);
        proof {
            assert(pools_claimed(list@, claim, claim_view(r)));
            assert(pools.ensures((&factory,), given));
        }
        r
    }

    /// Adds up what the pools spent in a claim; fails with `overflow` where
    /// the sum does not fit in 64 bits.
    pub fn total_claimed(&self, spent: &Vec<u64>) -> (r: Result<u64, String>)
        ensures
            match total_spent(spent@) {
                Some(total) => r == Ok::<u64, String>(total),
                None => r is Err && r->Err_0@ == "overflow"@,
            },
    {
        let mut total: u64 = 0;
        let mut i: usize = 0;
        proof {
            assert(spent@.take(0) =~= Seq::<u64>::empty());
        }
        while i < spent.len()
            invariant
                i <= spent@.len(),
                total_spent(spent@.take(i as int)) == Some(total),
            decreases spent@.len() - i,
        {
            proof {
                assert(spent@.take(i as int + 1).drop_last() =~= spent@.take(i as int));
                assert(spent@.take(i as int + 1).last() == spent@[i as int]);
            }
            if total > u64::MAX - spent[i] {
                proof {
                    lemma_overflow_sticks(spent@, i as int + 1);
                }
                return Err(String::from_str("overflow"));
            }
            total = total + spent[i];
            i += 1;
        }
        proof {
            assert(spent@.take(spent@.len() as int) =~= spent@);
        }
        Ok(total)
    }
}

/// Once a prefix of the amounts does not fit, the whole does not.
pub proof fn lemma_overflow_sticks(spent: Seq<u64>, upto: int)
    requires
        0 <= upto <= spent.len(),
        total_spent(spent.take(upto)) is None,
    ensures
        total_spent(spent) is None,
    decreases spent.len() - upto,
{
    if upto < spent.len() {
        assert(spent.take(upto + 1).drop_last() =~= spent.take(upto));
        lemma_overflow_sticks(spent, upto + 1);
    } else {
        assert(spent.take(upto) =~= spent);
    }
}

} // verus!
