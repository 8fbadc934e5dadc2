//! The position cache: decoded positions per identity and pool, valid as
//! long as the source has not advanced past the stored height.

use crate::holding::{clone_holdings, views, Holding, HoldingView};
use crate::identity::{copy_bytes, Identity};
use crate::utils::WEEK_NS;
use dashmap::DashMap;
use vstd::prelude::*;

verus! {

/// Age at which an entry is swept whatever its height.
pub const STALE_NS: u64 = WEEK_NS;

/// One cached list of positions.
pub struct Entry {
    /// The positions as they were fetched.
    pub data: Vec<Holding>,
    /// Height of the source at the time of the fetch.
    pub height: u64,
    /// Time of the fetch.
    pub ts: u64,
}

/// Mathematical value of an [`Entry`].
pub struct EntryView {
    pub data: Seq<HoldingView>,
    pub height: u64,
    pub ts: u64,
}

impl View for Entry {
    type V = EntryView;

    open spec fn view(&self) -> EntryView {
        EntryView { data: views(self.data@), height: self.height, ts: self.ts }
    }
}

impl Clone for Entry {
    fn clone(&self) -> (r: Self)
        ensures
            r@ == self@,
    {
        Entry { data: clone_holdings(&self.data), height: self.height, ts: self.ts }
    }
}

/// One entry of the cache in the form that is persisted.
pub struct StableEntry {
    /// Bytes of the identity.
    pub principal: Vec<u8>,
    /// Key of the pool.
    pub pool: String,
    /// The positions as they were fetched.
    pub data: Vec<Holding>,
    /// Height of the source at the time of the fetch.
    pub height: u64,
    /// Time of the fetch.
    pub ts: u64,
}

/// Key of the cache: the bytes of an identity and the key of a pool.
pub type Key = (Seq<u8>, Seq<char>);

impl StableEntry {
    /// The key under which this entry is cached.
    pub open spec fn key(&self) -> Key {
        (self.principal@, self.pool@)
    }

    /// What is cached under [`StableEntry::key`].
    pub open spec fn entry(&self) -> EntryView {
        EntryView { data: views(self.data@), height: self.height, ts: self.ts }
    }
}

/// The cache that a persisted list stands for: each entry under its key, a
/// later entry replacing an earlier one with the same key.
pub open spec fn restored(list: Seq<StableEntry>) -> Map<Key, EntryView>
    decreases list.len(),
{
    if list.len() == 0 {
        Map::empty()
    } else {
        restored(list.drop_last()).insert(list.last().key(), list.last().entry())
    }
}

/// True when something written at `ts` is younger than `bound` at `now`.
pub open spec fn fresh(ts: u64, now: u64, bound: u64) -> bool {
    now - ts < bound
}

/// Computes [`fresh`].
pub fn is_fresh(ts: u64, now: u64, bound: u64) -> (r: bool)
    ensures
        r == fresh(ts, now, bound),
{
    if now < ts {
        true
    } else {
        now - ts < bound
    }
}

/// What the concurrent map behind the position cache holds.
pub uninterp spec fn cached_positions(m: DashMap<(Vec<u8>, String), Entry>) -> Map<Key, EntryView>;

/// A position cache without entries.
pub open spec fn no_positions() -> Map<Key, EntryView> {
    Map::empty()
}

/// The entries of `m` that are younger than `bound` at `now`.
pub open spec fn younger(m: Map<Key, EntryView>, now: u64, bound: u64) -> Map<Key, EntryView> {
    m.restrict(Set::new(|k: Key| m.contains_key(k) && fresh(m[k].ts, now, bound)))
}

/// The entries of `m` that are younger than [`STALE_NS`] at `now`.
pub open spec fn unexpired(m: Map<Key, EntryView>, now: u64) -> Map<Key, EntryView> {
    younger(m, now, STALE_NS)
}

/// Calls `DashMap::new`: a map that holds nothing.
#[verifier::external_body]
fn positions_new() -> (m: DashMap<(Vec<u8>, String), Entry>)
    ensures
        cached_positions(m) == no_positions(),
{
    DashMap::new()
}

/// Calls `DashMap::get` and copies the entry out: the value stored under
/// the key, if there is one.
#[verifier::external_body]
fn positions_get(m: &DashMap<(Vec<u8>, String), Entry>, key: &(Vec<u8>, String)) -> (r: Option<
    Entry,
>)
    ensures
        r.is_some() == cached_positions(*m).contains_key((key.0@, key.1@)),
        r.is_some() ==> r.unwrap()@ == cached_positions(*m)[(key.0@, key.1@)],
{
    m.get(key).map(|e| e.value().clone())
}

/// Calls `DashMap::insert`: the key now maps to the value, other keys are
/// untouched.
#[verifier::external_body]
fn positions_insert(m: &mut DashMap<(Vec<u8>, String), Entry>, key: (Vec<u8>, String), value: Entry)
    ensures
        cached_positions(*final(m)) == cached_positions(*old(m)).insert((key.0@, key.1@), value@),
{
    m.insert(key, value);
}

/// Calls `DashMap::retain` with the freshness test: the entries younger
/// than `bound` stay, the others leave.
#[verifier::external_body]
fn positions_retain_fresh(m: &mut DashMap<(Vec<u8>, String), Entry>, now: u64, bound: u64)
    ensures
        cached_positions(*final(m)) == younger(cached_positions(*old(m)), now, bound),
{
    m.retain(|_, v| is_fresh(v.ts, now, bound));
}

/// Calls `DashMap::clear`: nothing is left.
#[verifier::external_body]
fn positions_clear(m: &mut DashMap<(Vec<u8>, String), Entry>)
    ensures
        cached_positions(*final(m)) == no_positions(),
{
    m.clear();
}

/// Calls `DashMap::iter` and copies every entry out, in the order in which
/// the map happens to walk them: each key once, with its value.
#[verifier::external_body]
fn positions_list(m: &DashMap<(Vec<u8>, String), Entry>) -> (r: Vec<StableEntry>)
    ensures
        restored(r@) == cached_positions(*m),
        forall|i: int, j: int|
            0 <= i < j < r@.len() ==> #[trigger] r@[i].key() != #[trigger] r@[j].key(),
{
    m.iter().map(
        |e|
            StableEntry {
                principal: copy_bytes(&e.key().0),
                pool: e.key().1.clone(),
                data: clone_holdings(&e.value().data),
                height: e.value().height,
                ts: e.value().ts,
            },
    ).collect()
}

/// The position cache.
pub struct PositionCache {
    map: DashMap<(Vec<u8>, String), Entry>,
}

impl View for PositionCache {
    type V = Map<Key, EntryView>;

    closed spec fn view(&self) -> Self::V {
        cached_positions(self.map)
    }
}

/// True when `m` answers a request for `key` at `height` and time `now`
/// without a fetch: an entry is stored at that very height and is younger
/// than [`STALE_NS`].
pub open spec fn hit(m: Map<Key, EntryView>, key: Key, height: u64, now: u64) -> bool {
    m.contains_key(key) && m[key].height == height && fresh(m[key].ts, now, STALE_NS)
}

impl PositionCache {
    /// An empty cache.
    pub fn new() -> (c: PositionCache)
        ensures
            c@ == no_positions(),
    {
        PositionCache { map: positions_new() }
    }

    /// The cached positions of `principal` in `pool`, if they are valid at
    /// `height` and `now`.
    pub fn lookup(&self, principal: &Identity, pool: &str, height: u64, now: u64) -> (r: Option<
        Vec<Holding>,
    >)
        ensures
            r.is_some() == hit(self@, (principal@, pool@), height, now),
            r.is_some() ==> views(r.unwrap()@) == self@[(principal@, pool@)].data,
    {
        let key = (copy_bytes(principal.as_bytes()), String::from_str(pool));
        match positions_get(&self.map, &key) {
            Some(e) => {
                if e.height == height && is_fresh(e.ts, now, STALE_NS) {
                    Some(e.data)
                } else {
                    None
                }
            },
            None => None,
        }
    }

    /// Stores freshly fetched positions with their height and time.
    pub fn store(
        &mut self,
        principal: &Identity,
        pool: &str,
        height: u64,
        data: Vec<Holding>,
        now: u64,
    )
        ensures
            final(self)@ == old(self)@.insert(
                (principal@, pool@),
                EntryView { data: views(data@), height, ts: now },
            ),
    {
        let key = (copy_bytes(principal.as_bytes()), String::from_str(pool));
        positions_insert(&mut self.map, key, Entry { data, height, ts: now });
    }

    /// The positions of `principal` in `pool` at `height`: the cached ones
    /// where they are valid, else what `fetch` returns, which is then
    /// cached. `fetch` needs to be callable only where the cache misses.
    pub fn get_or_fetch<F: FnOnce() -> Vec<Holding>>(
        &mut self,
        principal: &Identity,
        pool: &str,
        height: u64,
        now: u64,
        fetch: F,
    ) -> (r: Vec<Holding>)
        requires
            !hit(old(self)@, (principal@, pool@), height, now) ==> fetch.requires(()),
        ensures
            hit(old(self)@, (principal@, pool@), height, now) ==> {
                &&& views(r@) == old(self)@[(principal@, pool@)].data
                &&& final(self)@ == old(self)@
            },
            !hit(old(self)@, (principal@, pool@), height, now) ==> {
                &&& exists|fetched: Vec<Holding>|
                    fetch.ensures((), fetched) && views(fetched@) == views(r@)
                &&& final(self)@ == old(self)@.insert(
                    (principal@, pool@),
                    EntryView { data: views(r@), height, ts: now },
                )
            },
    {
        match self.lookup(principal, pool, height, now) {
            Some(data) => data,
            None => {
                let data = fetch();
                let kept = clone_holdings(&data);
                self.store(principal, pool, height, kept, now);
                data
            },
        }
    }

    /// Removes every entry that is [`STALE_NS`] old or older, whatever its
    /// height.
    pub fn evict_stale(&mut self, now: u64)
        ensures
            final(self)@ == unexpired(old(self)@, now),
    {
        positions_retain_fresh(&mut self.map, now, STALE_NS);
    }

    /// Forgets every entry.
    pub fn clear(&mut self)
        ensures
            final(self)@ == no_positions(),
    {
        positions_clear(&mut self.map);
    }

    /// The entries to persist, each key once, in no particular order.
    pub fn stable_save(&self) -> (r: Vec<StableEntry>)
        ensures
            restored(r@) == self@,
            forall|i: int, j: int|
                0 <= i < j < r@.len() ==> #[trigger] r@[i].key() != #[trigger] r@[j].key(),
    {
        positions_list(&self.map)
    }

    /// Replaces the whole cache by a persisted list.
    pub fn stable_restore(&mut self, entries: Vec<StableEntry>)
        ensures
            final(self)@ == restored(entries@),
    {
        positions_clear(&mut self.map);
        let mut entries = entries;
        let ghost all = entries@;
        let mut done: Vec<StableEntry> = Vec::new();
        let n = entries.len();
        let mut i: usize = 0;
        while i < n
            invariant
                i <= n,
                n == all.len(),
                entries@.len() == n - i,
                entries@ == all.skip(i as int),
                cached_positions(self.map) == restored(all.take(i as int)),
            decreases n - i,
        {
            let e = entries.remove(0);
            proof {
                assert(e == all[i as int]);
                assert(all.take(i as int + 1).drop_last() =~= all.take(i as int));
                assert(entries@ =~= all.skip(i as int + 1));
            }
            positions_insert(
                &mut self.map,
                (e.principal, e.pool),
                Entry { data: e.data, height: e.height, ts: e.ts },
            );
            i += 1;
        }
        proof {
            assert(all.take(n as int) =~= all);
        }
    }
}

/// Asking twice at the same height: once positions are stored, a request
/// at that height within [`STALE_NS`] is answered from the cache with the
/// very positions that were stored.
pub proof fn lemma_same_height_hits(
    m: Map<Key, EntryView>,
    key: Key,
    height: u64,
    data: Seq<HoldingView>,
    stored_at: u64,
    now: u64,
)
    requires
        fresh(stored_at, now, STALE_NS),
    ensures
        hit(m.insert(key, EntryView { data, height, ts: stored_at }), key, height, now),
        m.insert(key, EntryView { data, height, ts: stored_at })[key].data == data,
{
}

/// Asking at another height: whatever is stored for a key at `height`, a
/// request at a different height misses, so the positions are fetched anew.
pub proof fn lemma_other_height_misses(
    m: Map<Key, EntryView>,
    key: Key,
    height: u64,
    asked: u64,
    now: u64,
)
    requires
        m.contains_key(key),
        m[key].height == height,
        asked != height,
    ensures
        !hit(m, key, asked, now),
{
}

} // verus!
