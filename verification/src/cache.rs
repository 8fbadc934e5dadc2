//! The result cache: the last merged result of each identity, with the time
//! it was written.

use crate::holding::{clone_holdings, views, Holding, HoldingView};
use crate::identity::{copy_bytes, Identity};
use dashmap::DashMap;
use vstd::prelude::*;

verus! {

/// The concurrent map of the `dashmap` crate. What a map holds is named
/// by a function of its own for each cache that is built on one.
#[verifier::external_type_specification]
#[verifier::external_body]
#[verifier::reject_recursive_types(K)]
#[verifier::reject_recursive_types(V)]
#[verifier::reject_recursive_types(S)]
pub struct ExDashMap<K, V, S>(DashMap<K, V, S>);

/// What the concurrent map behind the result cache holds: for each identity,
/// by its bytes, the holdings and the time of writing.
pub uninterp spec fn cached_results(m: DashMap<Vec<u8>, (Vec<Holding>, u64)>) -> Map<
    Seq<u8>,
    (Seq<HoldingView>, u64),
>;

/// A result cache without entries.
pub open spec fn no_results() -> Map<Seq<u8>, (Seq<HoldingView>, u64)> {
    Map::empty()
}

/// Calls `DashMap::new`: a map that holds nothing.
#[verifier::external_body]
fn results_new() -> (m: DashMap<Vec<u8>, (Vec<Holding>, u64)>)
    ensures
        cached_results(m) == no_results(),
{
    DashMap::new()
}

/// Calls `DashMap::get` and copies the entry out: the value stored under
/// the key, if there is one.
#[verifier::external_body]
fn results_get(m: &DashMap<Vec<u8>, (Vec<Holding>, u64)>, key: &Vec<u8>) -> (r: Option<
    (Vec<Holding>, u64),
>)
    ensures
        r.is_some() == cached_results(*m).contains_key(key@),
        r.is_some() ==> (views(r.unwrap().0@), r.unwrap().1) == cached_results(*m)[key@],
{
    m.get(key).map(|e| (clone_holdings(&e.value().0), e.value().1))
}

/// Calls `DashMap::insert`: the key now maps to the value, other keys are
/// untouched.
#[verifier::external_body]
fn results_insert(m: &mut DashMap<Vec<u8>, (Vec<Holding>, u64)>, key: Vec<u8>, value: (
    Vec<Holding>,
    u64,
))
    ensures
        cached_results(*final(m)) == cached_results(*old(m)).insert(
            key@,
            (views(value.0@), value.1),
        ),
{
    m.insert(key, value);
}

/// The result cache.
pub struct Cache {
    map: DashMap<Vec<u8>, (Vec<Holding>, u64)>,
}

impl View for Cache {
    type V = Map<Seq<u8>, (Seq<HoldingView>, u64)>;

    closed spec fn view(&self) -> Self::V {
        cached_results(self.map)
    }
}

impl Cache {
    /// An empty cache.
    pub fn new() -> (c: Cache)
        ensures
            c@ == no_results(),
    {
        Cache { map: results_new() }
    }

    /// The holdings last written for `principal` and the time of writing.
    pub fn get(&self, principal: &Identity) -> (r: Option<(Vec<Holding>, u64)>)
        ensures
            r.is_some() == self@.contains_key(principal@),
            r.is_some() ==> (views(r.unwrap().0@), r.unwrap().1) == self@[principal@],
    {
        let key = copy_bytes(principal.as_bytes());
        results_get(&self.map, &key)
    }

    /// Replaces the entry of `principal` wholesale.
    pub fn insert(&mut self, principal: &Identity, holdings: Vec<Holding>, now: u64)
        ensures
            final(self)@ == old(self)@.insert(principal@, (views(holdings@), now)),
    {
        let key = copy_bytes(principal.as_bytes());
        results_insert(&mut self.map, key, (holdings, now));
    }
}

} // verus!
