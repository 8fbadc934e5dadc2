//! The metadata cache of the ledgers, validated by a hash of the raw
//! metadata, and the holdings built from ledger balances.

use crate::error::FetchError;
use crate::holding::{known_status, lemma_known_statuses, views, Holding, HoldingView};
use crate::identity::{copy_bytes, identity_views, Identity};
use crate::utils::{
    amount_text, format_amount, idl_to_u64, lemma_pow2_monotonic, nat_value, pow2,
    value_as_text, value_as_u64, MetadataValue, MetadataValueView, DAY_NS,
    MAX_DECIMALS,
};
use candid::Nat;
use dashmap::DashMap;
use sha2::{Digest, Sha256};
use vstd::prelude::*;

verus! {

/// Time that cached metadata stays valid when none is configured.
pub const DEFAULT_META_TTL_NS: u64 = DAY_NS;

/// Length of a content hash, in bytes.
pub const HASH_BYTES: usize = 32;

/// The static facts of one ledger.
pub struct Meta {
    /// Token symbol.
    pub symbol: String,
    /// Decimal places, at most [`MAX_DECIMALS`] when parsed here.
    pub decimals: u8,
    /// Transfer fee.
    pub fee: u64,
    /// Hash of the raw metadata these facts were parsed from.
    pub hash: [u8; 32],
    /// Time at which the entry stops being served without a fetch.
    pub expires: u64,
}

/// Mathematical value of a [`Meta`].
pub struct MetaView {
    pub symbol: Seq<char>,
    pub decimals: u8,
    pub fee: u64,
    pub hash: Seq<u8>,
    pub expires: u64,
}

impl View for Meta {
    type V = MetaView;

    open spec fn view(&self) -> MetaView {
        MetaView {
            symbol: self.symbol@,
            decimals: self.decimals,
            fee: self.fee,
            hash: self.hash@,
            expires: self.expires,
        }
    }
}

impl Clone for Meta {
    fn clone(&self) -> (r: Self)
        ensures
            r@ == self@,
    {
        Meta {
            symbol: self.symbol.clone(),
            decimals: self.decimals,
            fee: self.fee,
            hash: self.hash,
            expires: self.expires,
        }
    }
}

/// One entry of the metadata cache in the form that is persisted.
pub struct StableMeta {
    /// Bytes of the ledger's identity.
    pub cid: Vec<u8>,
    /// Token symbol.
    pub symbol: String,
    /// Decimal places.
    pub decimals: u8,
    /// Transfer fee.
    pub fee: u64,
    /// Hash of the raw metadata; anything but 32 bytes is read as all zeros.
    pub hash: Vec<u8>,
    /// Time at which the entry stops being served without a fetch.
    pub expires: u64,
}

/// Thirty-two zero bytes.
pub open spec fn zero_hash() -> Seq<u8> {
    Seq::new(HASH_BYTES as nat, |i: int| 0u8)
}

impl StableMeta {
    /// What is cached for [`StableMeta::cid`] when this entry is restored.
    pub open spec fn meta(&self) -> MetaView {
        MetaView {
            symbol: self.symbol@,
            decimals: self.decimals,
            fee: self.fee,
            hash: if self.hash@.len() == HASH_BYTES {
                self.hash@
            } else {
                zero_hash()
            },
            expires: self.expires,
        }
    }
}

/// The cache that a persisted list stands for: each entry under its ledger,
/// a later entry replacing an earlier one for the same ledger.
pub open spec fn restored(list: Seq<StableMeta>) -> Map<Seq<u8>, MetaView>
    decreases list.len(),
{
    if list.len() == 0 {
        Map::empty()
    } else {
        restored(list.drop_last()).insert(list.last().cid@, list.last().meta())
    }
}

/// Raw metadata as fetched from a ledger: its wire bytes and the items
/// decoded from them.
pub struct RawMetadata {
    /// The metadata in its wire encoding; the content hash is taken of it.
    pub encoded: Vec<u8>,
    /// The decoded items, each a key and a value.
    pub items: Vec<(String, MetadataValue)>,
}

/// The keys and values of a list of metadata items, in order.
pub open spec fn item_views(items: Seq<(String, MetadataValue)>) -> Seq<
    (Seq<char>, MetadataValueView),
> {
    items.map_values(|kv: (String, MetadataValue)| (kv.0@, kv.1@))
}

/// A number of decimal places held at [`MAX_DECIMALS`].
pub open spec fn clamped(decimals: u64) -> u8 {
    if decimals <= MAX_DECIMALS {
        decimals as u8
    } else {
        MAX_DECIMALS
    }
}

/// Symbol, decimals and fee parsed from metadata items. Each starts at its
/// zero value; an item under `icrc1:symbol`, `icrc1:decimals` or `icrc1:fee`
/// whose value reads as a text or a number sets it, a later item winning
/// over an earlier one, and one that does not read leaves it as it is. The
/// decimals are held at [`MAX_DECIMALS`].
pub open spec fn parsed(items: Seq<(Seq<char>, MetadataValueView)>) -> (Seq<char>, u8, u64)
    decreases items.len(),
{
    if items.len() == 0 {
        (Seq::empty(), 0u8, 0u64)
    } else {
        let before = parsed(items.drop_last());
        let key = items.last().0;
        let value = items.last().1;
        if key == "icrc1:symbol"@ {
            match value_as_text(value) {
                Some(s) => (s, before.1, before.2),
                None => before,
            }
        } else if key == "icrc1:decimals"@ {
            match value_as_u64(value) {
                Some(d) => (before.0, clamped(d), before.2),
                None => before,
            }
        } else if key == "icrc1:fee"@ {
            match value_as_u64(value) {
                Some(f) => (before.0, before.1, f),
                None => before,
            }
        } else {
            before
        }
    }
}

/// Parses symbol, decimals and fee out of metadata items.
pub fn parse_items(items: &Vec<(String, MetadataValue)>) -> (r: (String, u8, u64))
    ensures
        (r.0@, r.1, r.2) == parsed(item_views(items@)),
{
    let mut symbol = String::new();
    let mut decimals: u8 = 0;
    let mut fee: u64 = 0;
    let symbol_key = String::from_str("icrc1:symbol");
    let decimals_key = String::from_str("icrc1:decimals");
    let fee_key = String::from_str("icrc1:fee");
    let ghost all = item_views(items@);
    let mut i: usize = 0;
    proof {
        assert(all.take(0) =~= Seq::empty());
    }
    while i < items.len()
        invariant
            i <= items@.len(),
            all == item_views(items@),
            symbol_key@ == "icrc1:symbol"@,
            decimals_key@ == "icrc1:decimals"@,
            fee_key@ == "icrc1:fee"@,
            (symbol@, decimals, fee) == parsed(all.take(i as int)),
        decreases items@.len() - i,
    {
        proof {
            assert(all.take(i as int + 1).drop_last() =~= all.take(i as int));
            assert(all.take(i as int + 1).last() == (items@[i as int].0@, items@[i as int].1@));
        }
        let key = &items[i].0;
        let value = &items[i].1;
        if *key == symbol_key {
            match value {
                MetadataValue::Text(s) => {
                    symbol = s.clone();
                },
                _ => {},
            }
        } else if *key == decimals_key {
            match idl_to_u64(value) {
                Some(d) => {
                    decimals = if d <= MAX_DECIMALS as u64 { d as u8 } else { MAX_DECIMALS };
                },
                None => {},
            }
        } else if *key == fee_key {
            match idl_to_u64(value) {
                Some(f) => {
                    fee = f;
                },
                None => {},
            }
        }
        i += 1;
    }
    proof {
        assert(all.take(items@.len() as int) =~= all);
    }
    (symbol, decimals, fee)
}

/// The SHA-256 digest of a byte string.
pub uninterp spec fn sha256(data: Seq<u8>) -> Seq<u8>;

/// Calls `Sha256::digest`: the SHA-256 digest of the bytes.
#[verifier::external_body]
fn sha256_digest(data: &Vec<u8>) -> (h: [u8; 32])
    ensures
        h@ == sha256(data@),
{
    Sha256::digest(data).into()
}

/// True when two hashes are equal.
pub fn same_hash(a: &[u8; 32], b: &[u8; 32]) -> (r: bool)
    ensures
        r == (a@ == b@),
{
    let mut i: usize = 0;
    while i < 32
        invariant
            i <= 32,
            forall|j: int| 0 <= j < i ==> a@[j] == b@[j],
        decreases 32 - i,
    {
        if a[i] != b[i] {
            return false;
        }
        i += 1;
    }
    proof {
        assert(a@ =~= b@);
    }
    true
}

/// What the concurrent map behind the metadata cache holds.
pub uninterp spec fn cached_metadata(m: DashMap<Vec<u8>, Meta>) -> Map<Seq<u8>, MetaView>;

/// A metadata cache without entries.
pub open spec fn no_metadata() -> Map<Seq<u8>, MetaView> {
    Map::empty()
}

/// Calls `DashMap::new`: a map that holds nothing.
#[verifier::external_body]
fn metadata_new() -> (m: DashMap<Vec<u8>, Meta>)
    ensures
        cached_metadata(m) == no_metadata(),
{
    DashMap::new()
}

/// Calls `DashMap::get` and copies the entry out: the value stored under
/// the key, if there is one.
#[verifier::external_body]
fn metadata_get(m: &DashMap<Vec<u8>, Meta>, key: &Vec<u8>) -> (r: Option<Meta>)
    ensures
        r.is_some() == cached_metadata(*m).contains_key(key@),
        r.is_some() ==> r.unwrap()@ == cached_metadata(*m)[key@],
{
    m.get(key).map(|e| e.value().clone())
}

/// Calls `DashMap::insert`: the key now maps to the value, other keys are
/// untouched.
#[verifier::external_body]
fn metadata_insert(m: &mut DashMap<Vec<u8>, Meta>, key: Vec<u8>, value: Meta)
    ensures
        cached_metadata(*final(m)) == cached_metadata(*old(m)).insert(key@, value@),
{
    m.insert(key, value);
}

/// Calls `DashMap::clear`: nothing is left.
#[verifier::external_body]
fn metadata_clear(m: &mut DashMap<Vec<u8>, Meta>)
    ensures
        cached_metadata(*final(m)) == no_metadata(),
{
    m.clear();
}

/// Calls `DashMap::iter` and copies every entry out, in the order in which
/// the map happens to walk them: each key once, with its value.
#[verifier::external_body]
fn metadata_list(m: &DashMap<Vec<u8>, Meta>) -> (r: Vec<StableMeta>)
    ensures
        restored(r@) == cached_metadata(*m),
        forall|i: int, j: int| 0 <= i < j < r@.len() ==> #[trigger] r@[i].cid@ != #[trigger] r@[j].cid@,
        forall|i: int| 0 <= i < r@.len() ==> (#[trigger] r@[i]).hash@.len() == HASH_BYTES,
{
    m.iter().map(
        |e|
            StableMeta {
                cid: copy_bytes(e.key()),
                symbol: e.value().symbol.clone(),
                decimals: e.value().decimals,
                fee: e.value().fee,
                hash: e.value().hash.to_vec(),
                expires: e.value().expires,
            },
    ).collect()
}

/// Mathematical value of a [`MetadataCache`].
pub struct MetadataCacheView {
    /// The entries, by the bytes of the ledger's identity.
    pub entries: Map<Seq<u8>, MetaView>,
    /// Time that an entry stays valid after a fetch.
    pub ttl: u64,
}

/// The metadata cache.
pub struct MetadataCache {
    map: DashMap<Vec<u8>, Meta>,
    ttl: u64,
}

impl View for MetadataCache {
    type V = MetadataCacheView;

    closed spec fn view(&self) -> MetadataCacheView {
        MetadataCacheView { entries: cached_metadata(self.map), ttl: self.ttl }
    }
}

/// True when `m` answers a request for `cid` at `now` without a fetch.
pub open spec fn served(m: Map<Seq<u8>, MetaView>, cid: Seq<u8>, now: u64) -> bool {
    m.contains_key(cid) && m[cid].expires > now
}

/// True when the raw metadata hashes to what is stored for `cid`.
pub open spec fn unchanged(m: Map<Seq<u8>, MetaView>, cid: Seq<u8>, encoded: Seq<u8>) -> bool {
    m.contains_key(cid) && m[cid].hash == sha256(encoded)
}

/// The entry written for `cid` after a fetch at `now`: where the hash of
/// the raw metadata is the stored one, the stored facts with a new expiry;
/// else the facts parsed from the items, with the new hash.
pub open spec fn refreshed(
    v: MetadataCacheView,
    cid: Seq<u8>,
    encoded: Seq<u8>,
    items: Seq<(Seq<char>, MetadataValueView)>,
    now: u64,
) -> MetaView {
    if unchanged(v.entries, cid, encoded) {
        MetaView { expires: (now + v.ttl) as u64, ..v.entries[cid] }
    } else {
        MetaView {
            symbol: parsed(items).0,
            decimals: parsed(items).1,
            fee: parsed(items).2,
            hash: sha256(encoded),
            expires: (now + v.ttl) as u64,
        }
    }
}

impl MetadataCache {
    /// An empty cache whose entries stay valid for `ttl` nanoseconds, or for
    /// [`DEFAULT_META_TTL_NS`] when none is given.
    pub fn new(ttl: Option<u64>) -> (c: MetadataCache)
        ensures
            c@.entries == no_metadata(),
            c@.ttl == (match ttl {
                Some(t) => t,
                None => DEFAULT_META_TTL_NS,
            }),
    {
        let ttl = match ttl {
            Some(t) => t,
            None => DEFAULT_META_TTL_NS,
        };
        MetadataCache { map: metadata_new(), ttl }
    }

    /// Time that an entry stays valid after a fetch.
    pub fn ttl(&self) -> (t: u64)
        ensures
            t == self@.ttl,
    {
        self.ttl
    }

    /// Symbol, decimals and fee of `cid`, if a valid entry is cached.
    pub fn lookup(&self, cid: &Identity, now: u64) -> (r: Option<(String, u8, u64)>)
        ensures
            r.is_some() == served(self@.entries, cid@, now),
            r.is_some() ==> {
                &&& r.unwrap().0@ == self@.entries[cid@].symbol
                &&& r.unwrap().1 == self@.entries[cid@].decimals
                &&& r.unwrap().2 == self@.entries[cid@].fee
            },
    {
        let key = copy_bytes(cid.as_bytes());
        match metadata_get(&self.map, &key) {
            Some(meta) => {
                if meta.expires > now {
                    Some((meta.symbol, meta.decimals, meta.fee))
                } else {
                    None
                }
            },
            None => None,
        }
    }

    /// Takes in raw metadata fetched for `cid` at `now` and returns symbol,
    /// decimals and fee. Where its hash is the one stored, the stored facts
    /// are kept and only the expiry advances; else the facts are parsed
    /// anew and the entry is overwritten.
    pub fn refresh(&mut self, cid: &Identity, raw: &RawMetadata, now: u64) -> (r: (String, u8, u64))
        requires
            now + old(self)@.ttl <= u64::MAX,
        ensures
            final(self)@.ttl == old(self)@.ttl,
            final(self)@.entries == old(self)@.entries.insert(
                cid@,
                refreshed(old(self)@, cid@, raw.encoded@, item_views(raw.items@), now),
            ),
            r.0@ == final(self)@.entries[cid@].symbol,
            r.1 == final(self)@.entries[cid@].decimals,
            r.2 == final(self)@.entries[cid@].fee,
    {
        let key = copy_bytes(cid.as_bytes());
        let hash = sha256_digest(&raw.encoded);
        let expires = now + self.ttl;
        match metadata_get(&self.map, &key) {
            Some(meta) => {
                if same_hash(&meta.hash, &hash) {
                    let out = (meta.symbol.clone(), meta.decimals, meta.fee);
                    metadata_insert(
                        &mut self.map,
                        key,
                        Meta {
                            symbol: meta.symbol,
                            decimals: meta.decimals,
                            fee: meta.fee,
                            hash,
                            expires,
                        },
                    );
                    return out;
                }
            },
            None => {},
        }
        let (symbol, decimals, fee) = parse_items(&raw.items);
        metadata_insert(
            &mut self.map,
            key,
            Meta { symbol: symbol.clone(), decimals, fee, hash, expires },
        );
        (symbol, decimals, fee)
    }

    /// Symbol, decimals and fee of `cid`: the cached ones where they are
    /// valid at `now`; else `fetch` is called, its error is handed back
    /// with the cache untouched, and its metadata goes through
    /// [`MetadataCache::refresh`]. `fetch` needs to be callable only where
    /// no valid entry is cached.
    pub fn fetch_metadata<F: FnOnce() -> Result<RawMetadata, FetchError>>(
        &mut self,
        cid: &Identity,
        now: u64,
        fetch: F,
    ) -> (r: Result<(String, u8, u64), FetchError>)
        requires
            now + old(self)@.ttl <= u64::MAX,
            !served(old(self)@.entries, cid@, now) ==> fetch.requires(()),
        ensures
            final(self)@.ttl == old(self)@.ttl,
            served(old(self)@.entries, cid@, now) ==> {
                &&& final(self)@ == old(self)@
                &&& r is Ok
            },
            !served(old(self)@.entries, cid@, now) ==> exists|fetched: Result<RawMetadata, FetchError>|
                {
                    &&& fetch.ensures((), fetched)
                    &&& match fetched {
                        Ok(raw) => {
                            &&& r is Ok
                            &&& final(self)@.entries == old(self)@.entries.insert(
                                cid@,
                                refreshed(
                                    old(self)@,
                                    cid@,
                                    raw.encoded@,
                                    item_views(raw.items@),
                                    now,
                                ),
                            )
                        },
                        Err(e) => {
                            &&& r is Err
                            &&& r->Err_0@ == e@
                            &&& final(self)@ == old(self)@
                        },
                    }
                },
            r is Ok ==> {
                &&& final(self)@.entries.contains_key(cid@)
                &&& r->Ok_0.0@ == final(self)@.entries[cid@].symbol
                &&& r->Ok_0.1 == final(self)@.entries[cid@].decimals
                &&& r->Ok_0.2 == final(self)@.entries[cid@].fee
            },
    {
        match self.lookup(cid, now) {
            Some(facts) => Ok(facts),
            None => {
                match fetch() {
                    Ok(raw) => Ok(self.refresh(cid, &raw, now)),
                    Err(e) => Err(e),
                }
            },
        }
    }

    /// Forgets every entry.
    pub fn clear_cache(&mut self)
        ensures
            final(self)@.ttl == old(self)@.ttl,
            final(self)@.entries == no_metadata(),
    {
        metadata_clear(&mut self.map);
    }

    /// The entries to persist, each ledger once, in no particular order.
    pub fn stable_save(&self) -> (r: Vec<StableMeta>)
        ensures
            restored(r@) == self@.entries,
            forall|i: int, j: int|
                0 <= i < j < r@.len() ==> #[trigger] r@[i].cid@ != #[trigger] r@[j].cid@,
    {
        metadata_list(&self.map)
    }

    /// Replaces the whole cache by a persisted list.
    pub fn stable_restore(&mut self, data: Vec<StableMeta>)
        ensures
            final(self)@.ttl == old(self)@.ttl,
            final(self)@.entries == restored(data@),
    {
        metadata_clear(&mut self.map);
        let mut data = data;
        let ghost all = data@;
        let n = data.len();
        let mut i: usize = 0;
        while i < n
            invariant
                i <= n,
                n == all.len(),
                data@ == all.skip(i as int),
                self.ttl == old(self).ttl,
                cached_metadata(self.map) == restored(all.take(i as int)),
            decreases n - i,
        {
            let m = data.remove(0);
            proof {
                assert(m == all[i as int]);
                assert(all.take(i as int + 1).drop_last() =~= all.take(i as int));
                assert(data@ =~= all.skip(i as int + 1));
            }
            let mut hash = [0u8;32];
            if m.hash.len() == HASH_BYTES {
                let mut k: usize = 0;
                while k < HASH_BYTES
                    invariant
                        k <= HASH_BYTES,
                        m.hash@.len() == HASH_BYTES,
                        forall|j: int| 0 <= j < k ==> hash@[j] == m.hash@[j],
                    decreases HASH_BYTES - k,
                {
                    hash[k] = m.hash[k];
                    k += 1;
                }
                proof {
                    assert(hash@ =~= m.hash@);
                }
            } else {
                proof {
                    assert(hash@ =~= zero_hash());
                }
            }
            metadata_insert(
                &mut self.map,
                m.cid,
                Meta { symbol: m.symbol, decimals: m.decimals, fee: m.fee, hash, expires: m.expires },
            );
            i += 1;
        }
        proof {
            assert(all.take(n as int) =~= all);
        }
    }
}

/// Byte-identical raw metadata is never parsed again: when the metadata
/// fetched for `cid` has the bytes whose hash is stored, the entry keeps
/// its symbol, decimals and fee, whatever the items say.
pub proof fn lemma_identical_metadata_keeps_facts(
    v: MetadataCacheView,
    cid: Seq<u8>,
    encoded: Seq<u8>,
    items: Seq<(Seq<char>, MetadataValueView)>,
    now: u64,
)
    requires
        v.entries.contains_key(cid),
        v.entries[cid].hash == sha256(encoded),
    ensures
        refreshed(v, cid, encoded, items, now).symbol == v.entries[cid].symbol,
        refreshed(v, cid, encoded, items, now).decimals == v.entries[cid].decimals,
        refreshed(v, cid, encoded, items, now).fee == v.entries[cid].fee,
        refreshed(v, cid, encoded, items, now).hash == v.entries[cid].hash,
{
}

/// Parsed decimals never exceed [`MAX_DECIMALS`].
pub proof fn lemma_parsed_decimals_clamped(items: Seq<(Seq<char>, MetadataValueView)>)
    ensures
        parsed(items).1 <= MAX_DECIMALS,
    decreases items.len(),
{
    if items.len() > 0 {
        lemma_parsed_decimals_clamped(items.drop_last());
    }
}

/// Changed raw metadata always replaces hash and facts: when the hash of
/// what was fetched is not the stored one, or nothing is stored, the entry
/// holds the new hash and the facts parsed from the new items.
pub proof fn lemma_changed_metadata_replaces_facts(
    v: MetadataCacheView,
    cid: Seq<u8>,
    encoded: Seq<u8>,
    items: Seq<(Seq<char>, MetadataValueView)>,
    now: u64,
)
    requires
        !v.entries.contains_key(cid) || v.entries[cid].hash != sha256(encoded),
    ensures
        refreshed(v, cid, encoded, items, now).hash == sha256(encoded),
        refreshed(v, cid, encoded, items, now).symbol == parsed(items).0,
        refreshed(v, cid, encoded, items, now).decimals == parsed(items).1,
        refreshed(v, cid, encoded, items, now).fee == parsed(items).2,
{
}

/// The holding of one ledger balance.
pub open spec fn ledger_holding_view(symbol: Seq<char>, balance: nat, decimals: u8) -> HoldingView {
    HoldingView {
        source: "ledger"@,
        token: symbol,
        amount: amount_text(balance, decimals as nat),
        status: "liquid"@,
    }
}

/// Builds the holding of a ledger balance: liquid, under the ledger's
/// symbol, the balance formatted with the ledger's decimals.
pub fn ledger_holding(symbol: String, balance: Nat, decimals: u8) -> (h: Holding)
    ensures
        h@ == ledger_holding_view(symbol@, nat_value(balance), decimals),
        known_status(h@.status),
{
    proof {
        lemma_known_statuses();
    }
    let amount = format_amount(balance, decimals);
    Holding::new("ledger", symbol, amount, "liquid")
}

/// Attempts at a ledger call when no limit is configured.
pub const DEFAULT_LEDGER_RETRY_LIMIT: u8 = 3;

/// Wait before the first retry, in milliseconds.
pub const FIRST_RETRY_DELAY_MS: u64 = 100;

/// Most failed attempts for which the wait still fits in 64 bits.
pub const MAX_FAILED_ATTEMPTS: u8 = 58;

/// Milliseconds to wait after `failed` attempts have failed: a hundred
/// after the first, twice as long after each further one.
pub fn retry_delay_ms(failed: u8) -> (ms: u64)
    requires
        1 <= failed <= MAX_FAILED_ATTEMPTS,
    ensures
        ms == FIRST_RETRY_DELAY_MS * pow2((failed - 1) as nat),
{
    let mut ms: u64 = FIRST_RETRY_DELAY_MS;
    let mut k: u8 = 1;
    let ghost mut factor: nat = 1;
    while k < failed
        invariant
            1 <= k <= failed <= MAX_FAILED_ATTEMPTS,
            factor == pow2((k - 1) as nat),
            ms == FIRST_RETRY_DELAY_MS * factor,
        decreases failed - k,
    {
        proof {
            lemma_pow2_monotonic((k - 1) as nat, 56);
            lemma_pow2_fifty_six();
            factor = 2 * factor;
        }
        ms = ms * 2;
        k += 1;
    }
    ms
}

/// What follows the failure of an attempt, `failed` attempts having failed
/// so far out of at most `limit`: the milliseconds to wait before the next
/// attempt, or nothing where the limit is reached and the failure stands.
pub fn retry_step(limit: u8, failed: u8) -> (wait: Option<u64>)
    requires
        1 <= failed <= MAX_FAILED_ATTEMPTS,
    ensures
        wait == (if failed < limit {
            Some((FIRST_RETRY_DELAY_MS * pow2((failed - 1) as nat)) as u64)
        } else {
            None
        }),
{
    if failed < limit {
        Some(retry_delay_ms(failed))
    } else {
        None
    }
}

/// Two to the fifty-sixth.
pub proof fn lemma_pow2_fifty_six()
    ensures
        pow2(56) == 72057594037927936,
{
    reveal_with_fuel(pow2, 57);
}

/// Makes up to `limit` attempts, each through `attempt` with the number of
/// attempts that failed before it, and returns the first success, or the
/// failure of the last attempt where all of them failed.
pub fn with_retry<T, E, F: Fn(u8) -> Result<T, E>>(limit: u8, attempt: F) -> (r: Result<T, E>)
    requires
        limit >= 1,
        forall|k: u8| k < limit ==> attempt.requires((k,)),
    ensures
        exists|tries: Seq<Result<T, E>>|
            {
                &&& 1 <= tries.len() <= limit
                &&& forall|i: int|
                    0 <= i < tries.len() ==> attempt.ensures((i as u8,), #[trigger] tries[i])
                &&& forall|i: int| 0 <= i < tries.len() - 1 ==> (#[trigger] tries[i]) is Err
                &&& r == tries.last()
                &&& r is Err ==> tries.len() == limit
            },
{
    let ghost mut tries: Seq<Result<T, E>> = Seq::empty();
    let mut k: u8 = 0;
    loop
        invariant
            k < limit,
            tries.len() == k,
            forall|j: u8| j < limit ==> attempt.requires((j,)),
            forall|i: int| 0 <= i < tries.len() ==> attempt.ensures((i as u8,), #[trigger] tries[i]),
            forall|i: int| 0 <= i < tries.len() ==> (#[trigger] tries[i]) is Err,
        decreases limit - k,
    {
        let outcome = attempt(k);
        proof {
            let earlier = tries;
            tries = tries.push(outcome);
            assert(tries.last() == outcome);
            assert forall|i: int| 0 <= i < tries.len() implies attempt.ensures(
                (i as u8,),
                #[trigger] tries[i],
            ) by {
                if i < earlier.len() {
                    assert(tries[i] == earlier[i]);
                }
            }
            assert forall|i: int| 0 <= i < tries.len() - 1 implies (#[trigger] tries[i]) is Err by {
                assert(tries[i] == earlier[i]);
            }
        }
        match outcome {
            Ok(value) => {
                return Ok(value);
            },
            Err(e) => {
                if k + 1 == limit {
                    return Err(e);
                }
            },
        }
        k += 1;
    }
}

/// What the ledgers answered, merged: the failure of the first ledger, in
/// order, that failed; without a failure, the holding of every ledger.
pub open spec fn collected(rs: Seq<Result<HoldingView, crate::error::FetchErrorView>>) -> Result<
    Seq<HoldingView>,
    crate::error::FetchErrorView,
>
    decreases rs.len(),
{
    if rs.len() == 0 {
        Ok(Seq::empty())
    } else {
        match collected(rs.drop_last()) {
            Err(e) => Err(e),
            Ok(sofar) => match rs.last() {
                Ok(h) => Ok(sofar.push(h)),
                Err(e) => Err(e),
            },
        }
    }
}

/// The value of what one ledger answered.
pub open spec fn answer_view(r: Result<Holding, FetchError>) -> Result<
    HoldingView,
    crate::error::FetchErrorView,
> {
    match r {
        Ok(h) => Ok(h@),
        Err(e) => Err(e@),
    }
}

/// The values of what the ledgers answered, in order.
pub open spec fn answer_views(rs: Seq<Result<Holding, FetchError>>) -> Seq<
    Result<HoldingView, crate::error::FetchErrorView>,
> {
    rs.map_values(|r: Result<Holding, FetchError>| answer_view(r))
}

/// Once a prefix of the answers has failed, the whole has failed the same
/// way.
pub proof fn lemma_collected_failure_sticks(
    rs: Seq<Result<HoldingView, crate::error::FetchErrorView>>,
    upto: int,
)
    requires
        0 <= upto <= rs.len(),
        collected(rs.take(upto)) is Err,
    ensures
        collected(rs) == collected(rs.take(upto)),
    decreases rs.len() - upto,
{
    if upto < rs.len() {
        assert(rs.take(upto + 1).drop_last() =~= rs.take(upto));
        lemma_collected_failure_sticks(rs, upto + 1);
    } else {
        assert(rs.take(upto) =~= rs);
    }
}

/// Merges what the ledgers answered, given in ledger order.
pub fn fetch(results: &Vec<Result<Holding, FetchError>>) -> (r: Result<Vec<Holding>, FetchError>)
    ensures
        (match r {
            Ok(items) => Ok(views(items@)),
            Err(e) => Err(e@),
        }) == collected(answer_views(results@)),
{
    let ghost all = answer_views(results@);
    let mut out: Vec<Holding> = Vec::with_capacity(results.len());
    let mut i: usize = 0;
    proof {
        assert(views(out@) =~= Seq::<HoldingView>::empty());
        assert(all.take(0) =~= Seq::empty());
    }
    while i < results.len()
        invariant
            i <= results@.len(),
            all == answer_views(results@),
            collected(all.take(i as int)) == Ok::<Seq<HoldingView>, crate::error::FetchErrorView>(
                views(out@),
            ),
        decreases results@.len() - i,
    {
        let ghost before = views(out@);
        proof {
            assert(all.take(i as int + 1).drop_last() =~= all.take(i as int));
            assert(all.take(i as int + 1).last() == answer_view(results@[i as int]));
        }
        match &results[i] {
            Ok(h) => {
                out.push(h.clone());
                proof {
                    assert(views(out@) =~= before.push(h@));
                }
            },
            Err(e) => {
                let failure = e.clone();
                proof {
                    lemma_collected_failure_sticks(all, i as int + 1);
                }
                return Err(failure);
            },
        }
        i += 1;
    }
    proof {
        assert(all.take(results@.len() as int) =~= all);
    }
    Ok(out)
}

/// True when `a` and `b` are equally long and `a` comes first in the order
/// of their bytes.
pub open spec fn bytes_before(a: Seq<u8>, b: Seq<u8>) -> bool {
    exists|i: int|
        0 <= i < a.len() && i < b.len() && #[trigger] a[i] < b[i] && a.take(i) == b.take(i)
}

/// The order in which ledgers are asked: a shorter identity first, and among
/// equally long ones the one whose bytes come first.
pub open spec fn precedes(a: Seq<u8>, b: Seq<u8>) -> bool {
    a.len() < b.len() || (a.len() == b.len() && bytes_before(a, b))
}

/// True when every identity of `ids` precedes all that follow it.
pub open spec fn ordered(ids: Seq<Seq<u8>>) -> bool {
    forall|i: int, j: int| 0 <= i < j < ids.len() ==> precedes(#[trigger] ids[i], #[trigger] ids[j])
}

/// How one identity stands to another in the order of the ledgers.
#[derive(Debug, Clone, Copy, PartialEq, Eq, Structural)]
pub enum Rank {
    /// It precedes the other.
    Before,
    /// It is the other.
    Same,
    /// The other precedes it.
    After,
}

/// The place of `a` relative to `b` in the order of the ledgers.
pub open spec fn rank_of(a: Seq<u8>, b: Seq<u8>) -> Rank {
    if precedes(a, b) {
        Rank::Before
    } else if a == b {
        Rank::Same
    } else {
        Rank::After
    }
}

/// Finds how `a` stands to `b`.
pub fn rank(a: &Identity, b: &Identity) -> (r: Rank)
    ensures
        r == rank_of(a@, b@),
        r == Rank::After ==> precedes(b@, a@),
{
    let x = a.as_bytes();
    let y = b.as_bytes();
    proof {
        if precedes(a@, b@) && precedes(b@, a@) {
            lemma_precedes_transitive(a@, b@, a@);
            lemma_precedes_irreflexive(a@, a@);
        }
        if precedes(a@, b@) {
            lemma_precedes_irreflexive(a@, b@);
        }
        if precedes(b@, a@) {
            lemma_precedes_irreflexive(b@, a@);
        }
    }
    if x.len() < y.len() {
        return Rank::Before;
    }
    if x.len() > y.len() {
        return Rank::After;
    }
    let mut i: usize = 0;
    while i < x.len()
        invariant
            x@.len() == y@.len(),
            i <= x@.len(),
            x@.take(i as int) == y@.take(i as int),
            x@ == a@,
            y@ == b@,
        decreases x@.len() - i,
    {
        if x[i] < y[i] {
            proof {
                assert(a@[i as int] < b@[i as int]);
                assert(bytes_before(a@, b@));
            }
            return Rank::Before;
        }
        if x[i] > y[i] {
            proof {
                assert(b@[i as int] < a@[i as int]);
                assert(b@.take(i as int) == a@.take(i as int));
                assert(bytes_before(b@, a@));
                lemma_precedes_total(a@, b@);
                lemma_precedes_irreflexive(b@, a@);
            }
            return Rank::After;
        }
        proof {
            assert(x@.take(i as int + 1) =~= x@.take(i as int).push(x@[i as int]));
            assert(y@.take(i as int + 1) =~= y@.take(i as int).push(y@[i as int]));
        }
        i += 1;
    }
    proof {
        assert(x@.take(x@.len() as int) =~= x@);
        assert(y@.take(y@.len() as int) =~= y@);
        if precedes(a@, b@) {
            lemma_precedes_irreflexive(a@, b@);
        }
    }
    Rank::Same
}

/// The order of the ledgers is transitive.
pub proof fn lemma_precedes_transitive(a: Seq<u8>, b: Seq<u8>, c: Seq<u8>)
    requires
        precedes(a, b),
        precedes(b, c),
    ensures
        precedes(a, c),
{
    if a.len() == b.len() && b.len() == c.len() {
        let i = choose|i: int|
            0 <= i < a.len() && i < b.len() && #[trigger] a[i] < b[i] && a.take(i) == b.take(i);
        let j = choose|j: int|
            0 <= j < b.len() && j < c.len() && #[trigger] b[j] < c[j] && b.take(j) == c.take(j);
        let k = if i <= j { i } else { j };
        assert(a.take(k) =~= c.take(k)) by {
            assert forall|t: int| 0 <= t < k implies a.take(k)[t] == c.take(k)[t] by {
                assert(a.take(i)[t] == b.take(i)[t]);
                assert(b.take(j)[t] == c.take(j)[t]);
            }
        }
        if i < j {
            assert(b.take(j)[i] == c.take(j)[i]);
            assert(a[k] < c[k]);
        } else if j < i {
            assert(a.take(i)[j] == b.take(i)[j]);
            assert(a[k] < c[k]);
        } else {
            assert(a[k] < c[k]);
        }
    }
}

/// No identity precedes itself.
pub proof fn lemma_precedes_irreflexive(a: Seq<u8>, b: Seq<u8>)
    requires
        precedes(a, b),
    ensures
        a != b,
{
}

/// Of two different identities one precedes the other, and never both.
pub proof fn lemma_precedes_total(a: Seq<u8>, b: Seq<u8>)
    ensures
        a != b ==> precedes(a, b) || precedes(b, a),
        !(precedes(a, b) && precedes(b, a)),
{
    if precedes(a, b) && precedes(b, a) {
        lemma_precedes_transitive(a, b, a);
    }
    if a != b && a.len() == b.len() {
        assert(a.take(0) =~= b.take(0));
        lemma_first_difference(a, b, 0);
    }
}

/// Two equally long byte strings that agree up to `from` and differ
/// somewhere have a first place at which they differ.
proof fn lemma_first_difference(a: Seq<u8>, b: Seq<u8>, from: int)
    requires
        a.len() == b.len(),
        0 <= from <= a.len(),
        a.take(from) == b.take(from),
        a != b,
    ensures
        bytes_before(a, b) || bytes_before(b, a),
    decreases a.len() - from,
{
    if from == a.len() {
        assert(a.take(from) =~= a);
        assert(b.take(from) =~= b);
    } else if a[from] == b[from] {
        assert(a.take(from + 1) =~= a.take(from).push(a[from]));
        assert(b.take(from + 1) =~= b.take(from).push(b[from]));
        lemma_first_difference(a, b, from + 1);
    } else if a[from] < b[from] {
        assert(bytes_before(a, b));
    } else {
        assert(b[from] < a[from]);
        assert(bytes_before(b, a));
    }
}

/// The ledgers in the order in which they are asked, each once.
pub fn sort_ledgers(ids: &Vec<Identity>) -> (r: Vec<Identity>)
    ensures
        ordered(identity_views(r@)),
        forall|x: Seq<u8>| identity_views(r@).contains(x) <==> identity_views(ids@).contains(x),
{
    let mut out: Vec<Identity> = Vec::new();
    let mut i: usize = 0;
    while i < ids.len()
        invariant
            i <= ids@.len(),
            ordered(identity_views(out@)),
            forall|x: Seq<u8>|
                identity_views(out@).contains(x) <==> identity_views(ids@.take(i as int)).contains(
                    x,
                ),
        decreases ids@.len() - i,
    {
        let id = &ids[i];
        let ghost before = identity_views(out@);
        let mut slot: usize = 0;
        while slot < out.len() && rank(&out[slot], id) == Rank::Before
            invariant
                slot <= out@.len(),
                identity_views(out@) == before,
                forall|j: int| 0 <= j < slot ==> precedes((#[trigger] out@[j])@, id@),
            decreases out@.len() - slot,
        {
            slot += 1;
        }
        proof {
            assert(before.len() == out@.len());
            assert forall|j: int| 0 <= j < slot implies precedes(#[trigger] before[j], id@) by {
                assert(precedes(out@[j]@, id@));
            }
            if slot < out@.len() {
                assert(before[slot as int] == out@[slot as int]@);
                lemma_precedes_total(before[slot as int], id@);
            }
        }
        let present = slot < out.len() && out[slot].same(id);
        if !present {
            out.insert(slot, id.clone());
        }
        proof {
            let after = identity_views(out@);
            let seen = identity_views(ids@.take(i as int));
            let seen_next = identity_views(ids@.take(i as int + 1));
            assert(seen_next =~= seen.push(id@));
            if present {
                assert(after == before);
                assert(before[slot as int] == id@);
                assert forall|x: Seq<u8>| after.contains(x) <==> seen_next.contains(x) by {
                    if seen_next.contains(x) {
                        let k = choose|k: int| 0 <= k < seen_next.len() && seen_next[k] == x;
                        if k < seen.len() {
                            assert(seen[k] == x);
                            assert(seen.contains(x));
                        }
                    }
                    assert(before.contains(x) <==> seen.contains(x));
                    if after.contains(x) {
                        assert(seen.contains(x));
                        let k = choose|k: int| 0 <= k < seen.len() && seen[k] == x;
                        assert(seen_next[k] == x);
                    }
                    if seen_next.contains(x) && !seen.contains(x) {
                        assert(x == id@);
                        assert(before[slot as int] == x);
                    }
                }
            } else {
                assert(after =~= before.insert(slot as int, id@));
                assert forall|j: int| slot <= j < before.len() implies precedes(
                    id@,
                    #[trigger] before[j],
                ) by {
                    assert(precedes(id@, before[slot as int]));
                    if j > slot {
                        assert(precedes(before[slot as int], before[j]));
                        lemma_precedes_transitive(id@, before[slot as int], before[j]);
                    }
                }
                assert(ordered(after)) by {
                    assert forall|a: int, b: int| 0 <= a < b < after.len() implies precedes(
                        #[trigger] after[a],
                        #[trigger] after[b],
                    ) by {
                        if b < slot {
                            assert(precedes(before[a], before[b]));
                        } else if b == slot {
                            assert(precedes(before[a], id@));
                        } else if a == slot {
                            assert(precedes(id@, before[b - 1]));
                        } else if a < slot {
                            assert(precedes(before[a], before[b - 1]));
                        } else {
                            assert(precedes(before[a - 1], before[b - 1]));
                        }
                    }
                }
                assert forall|x: Seq<u8>| after.contains(x) <==> seen_next.contains(x) by {
                    if seen_next.contains(x) {
                        let k = choose|k: int| 0 <= k < seen_next.len() && seen_next[k] == x;
                        if k < seen.len() {
                            assert(seen[k] == x);
                            assert(seen.contains(x));
                            assert(before.contains(x) <==> seen.contains(x));
                            let m = choose|m: int| 0 <= m < before.len() && before[m] == x;
                            if m < slot {
                                assert(after[m] == x);
                            } else {
                                assert(after[m + 1] == x);
                            }
                        } else {
                            assert(after[slot as int] == x);
                        }
                    }
                    if after.contains(x) {
                        let m = choose|m: int| 0 <= m < after.len() && after[m] == x;
                        if m == slot {
                            assert(seen_next[seen.len() as int] == x);
                        } else {
                            let m0 = if m < slot { m } else { m - 1 };
                            assert(before[m0] == x);
                            assert(before.contains(x));
                            assert(before.contains(x) <==> seen.contains(x));
                            let k = choose|k: int| 0 <= k < seen.len() && seen[k] == x;
                            assert(seen_next[k] == x);
                        }
                    }
                }
            }
        }
        i += 1;
    }
    proof {
        assert(ids@.take(ids@.len() as int) =~= ids@);
    }
    out
}

/// Symbol and decimals of a ledger and the metadata cache after they were
/// needed at `now`: those of the cached entry where it is valid, with the
/// cache as it was; else the ledger is asked through `metadata`, a failure
/// leaves the cache as it was, and fetched metadata is taken in as
/// [`refreshed`] says.
pub open spec fn facts_fetched<M: Fn(&Identity) -> Result<RawMetadata, FetchError>>(
    before: MetadataCacheView,
    after: MetadataCacheView,
    cid: Identity,
    now: u64,
    metadata: M,
    facts: Result<(Seq<char>, u8), crate::error::FetchErrorView>,
) -> bool {
    if served(before.entries, cid@, now) {
        &&& after == before
        &&& facts == Ok::<(Seq<char>, u8), crate::error::FetchErrorView>(
            (before.entries[cid@].symbol, before.entries[cid@].decimals),
        )
    } else {
        exists|answer: Result<RawMetadata, FetchError>|
            {
                &&& #[trigger] metadata.ensures((&cid,), answer)
                &&& match answer {
                    Err(e) => after == before && facts == Err::<
                        (Seq<char>, u8),
                        crate::error::FetchErrorView,
                    >(e@),
                    Ok(raw) => {
                        &&& after.ttl == before.ttl
                        &&& after.entries == before.entries.insert(
                            cid@,
                            refreshed(before, cid@, raw.encoded@, item_views(raw.items@), now),
                        )
                        &&& facts == Ok::<(Seq<char>, u8), crate::error::FetchErrorView>(
                            (after.entries[cid@].symbol, after.entries[cid@].decimals),
                        )
                    },
                }
            }
    }
}

/// What asking one ledger amounts to: its symbol and decimals are had as
/// [`facts_fetched`] says; without them the ledger has failed; with them
/// the balance is asked through `balance`, and the ledger answers with the
/// holding of that balance, or has failed as the balance did.
pub open spec fn ledger_asked<
    M: Fn(&Identity) -> Result<RawMetadata, FetchError>,
    B: Fn(&Identity) -> Result<Nat, FetchError>,
>(
    before: MetadataCacheView,
    after: MetadataCacheView,
    cid: Identity,
    now: u64,
    metadata: M,
    balance: B,
    answer: Result<HoldingView, crate::error::FetchErrorView>,
) -> bool {
    exists|facts: Result<(Seq<char>, u8), crate::error::FetchErrorView>|
        {
            &&& #[trigger] facts_fetched(before, after, cid, now, metadata, facts)
            &&& match facts {
                Err(e) => answer == Err::<HoldingView, crate::error::FetchErrorView>(e),
                Ok(sd) => exists|amount: Result<Nat, FetchError>|
                    {
                        &&& #[trigger] balance.ensures((&cid,), amount)
                        &&& match amount {
                            Ok(n) => answer == Ok::<HoldingView, crate::error::FetchErrorView>(
                                ledger_holding_view(sd.0, nat_value(n), sd.1),
                            ),
                            Err(e) => answer == Err::<HoldingView, crate::error::FetchErrorView>(e@),
                        }
                    },
            }
        }
}

/// What asking the ledgers in order amounts to: each finds the metadata
/// cache as the one before it left it, and `answers` holds what each
/// answered.
pub open spec fn ledgers_asked<
    M: Fn(&Identity) -> Result<RawMetadata, FetchError>,
    B: Fn(&Identity) -> Result<Nat, FetchError>,
>(
    before: MetadataCacheView,
    after: MetadataCacheView,
    ledgers: Seq<Identity>,
    now: u64,
    metadata: M,
    balance: B,
    answers: Seq<Result<HoldingView, crate::error::FetchErrorView>>,
) -> bool
    decreases ledgers.len(),
{
    if ledgers.len() == 0 {
        after == before && answers.len() == 0
    } else {
        exists|mid: MetadataCacheView|
            {
                &&& answers.len() == ledgers.len()
                &&& ledgers_asked(
                    before,
                    mid,
                    ledgers.drop_last(),
                    now,
                    metadata,
                    balance,
                    answers.drop_last(),
                )
                &&& #[trigger] ledger_asked(
                    mid,
                    after,
                    ledgers.last(),
                    now,
                    metadata,
                    balance,
                    answers.last(),
                )
            }
    }
}

/// The value of symbol and decimals, or of the failure to get them.
pub open spec fn facts_view(r: Result<(String, u8), FetchError>) -> Result<
    (Seq<char>, u8),
    crate::error::FetchErrorView,
> {
    match r {
        Ok(sd) => Ok((sd.0@, sd.1)),
        Err(e) => Err(e@),
    }
}

impl MetadataCache {
    fn ledger_facts<M: Fn(&Identity) -> Result<RawMetadata, FetchError>>(
        &mut self,
        cid: &Identity,
        now: u64,
        metadata: &M,
    ) -> (r: Result<(String, u8), FetchError>)
        requires
            now + old(self)@.ttl <= u64::MAX,
            metadata.requires((cid,)),
        ensures
            final(self)@.ttl == old(self)@.ttl,
            facts_fetched(old(self)@, final(self)@, *cid, now, *metadata, facts_view(r)),
    {
        match self.lookup(cid, now) {
            Some(facts) => Ok((facts.0, facts.1)),
            None => {
                let answer = metadata(cid);
                proof {
                    assert(metadata.ensures((cid,), answer));
                }
                match answer {
                    Ok(raw) => {
                        let facts = self.refresh(cid, &raw, now);
                        Ok((facts.0, facts.1))
                    },
                    Err(e) => Err(e),
                }
            },
        }
    }

    /// Asks one ledger for the holding of an identity: symbol and decimals
    /// from the cache or through `metadata`, the balance through `balance`.
    pub fn ledger_balance<
        M: Fn(&Identity) -> Result<RawMetadata, FetchError>,
        B: Fn(&Identity) -> Result<Nat, FetchError>,
    >(&mut self, cid: &Identity, now: u64, metadata: &M, balance: &B) -> (r: Result<
        Holding,
        FetchError,
    >)
        requires
            now + old(self)@.ttl <= u64::MAX,
            metadata.requires((cid,)),
            balance.requires((cid,)),
        ensures
            final(self)@.ttl == old(self)@.ttl,
            ledger_asked(old(self)@, final(self)@, *cid, now, *metadata, *balance, answer_view(r)),
    {
        let facts = self.ledger_facts(cid, now, metadata);
        let ghost got = facts_view(facts);
        match facts {
            Err(e) => {
                let r = Err(e);
                proof {
                    assert(facts_fetched(old(self)@, self@, *cid, now, *metadata, got));
                }
                r
            },
            Ok(sd) => {
                let amount = balance(cid);
                proof {
                    assert(balance.ensures((cid,), amount));
                    assert(facts_fetched(old(self)@, self@, *cid, now, *metadata, got));
                }
                match amount {
                    Ok(n) => Ok(ledger_holding(sd.0, n, sd.1)),
                    Err(e) => Err(e),
                }
            },
        }
    }

    /// Asks every ledger, in the order given, for the holding of an
    /// identity and merges the answers: the failure of the first ledger
    /// that failed, or all holdings. Every ledger is asked, whether or not
    /// an earlier one failed.
    pub fn fetch_ledgers<
        M: Fn(&Identity) -> Result<RawMetadata, FetchError>,
        B: Fn(&Identity) -> Result<Nat, FetchError>,
    >(&mut self, ledgers: &Vec<Identity>, now: u64, metadata: M, balance: B) -> (r: Result<
        Vec<Holding>,
        FetchError,
    >)
        requires
            now + old(self)@.ttl <= u64::MAX,
            forall|cid: Identity| metadata.requires((&cid,)),
            forall|cid: Identity| balance.requires((&cid,)),
        ensures
            final(self)@.ttl == old(self)@.ttl,
            exists|answers: Seq<Result<HoldingView, crate::error::FetchErrorView>>|
                {
                    &&& #[trigger] ledgers_asked(
                        old(self)@,
                        final(self)@,
                        ledgers@,
                        now,
                        metadata,
                        balance,
                        answers,
                    )
                    &&& (match r {
                        Ok(items) => Ok(views(items@)),
                        Err(e) => Err(e@),
                    }) == collected(answers)
                },
    {
        let mut results: Vec<Result<Holding, FetchError>> = Vec::with_capacity(ledgers.len());
        let mut i: usize = 0;
        proof {
            assert(answer_views(results@).len() == 0);
            assert(ledgers@.take(0).len() == 0);
        }
        while i < ledgers.len()
            invariant
                i <= ledgers@.len(),
                results@.len() == i,
                self@.ttl == old(self)@.ttl,
                now + self@.ttl <= u64::MAX,
                forall|cid: Identity| metadata.requires((&cid,)),
                forall|cid: Identity| balance.requires((&cid,)),
                ledgers_asked(
                    old(self)@,
                    self@,
                    ledgers@.take(i as int),
                    now,
                    metadata,
                    balance,
                    answer_views(results@),
                ),
            decreases ledgers@.len() - i,
        {
            let ghost mid = self@;
            let ghost sofar = answer_views(results@);
            let answer = self.ledger_balance(&ledgers[i], now, &metadata, &balance);
            let ghost last = answer_view(answer);
            results.push(answer);
            proof {
                let upto = ledgers@.take(i as int + 1);
                let all = answer_views(results@);
                assert(upto.drop_last() =~= ledgers@.take(i as int));
                assert(upto.last() == ledgers@[i as int]);
                assert(all.drop_last() =~= sofar);
                assert(all.last() == last);
                assert(all.len() == upto.len());
                assert(ledgers_asked(old(self)@, mid, upto.drop_last(), now, metadata, balance, all.drop_last()));
                assert(ledger_asked(mid, self@, upto.last(), now, metadata, balance, all.last()));
                assert(ledgers_asked(old(self)@, self@, upto, now, metadata, balance, all));
            }
            i += 1;
        }
        proof {
            assert(ledgers@.take(ledgers@.len() as int) =~= ledgers@);
        }
        fetch(&results)
    }
}

} // verus!
