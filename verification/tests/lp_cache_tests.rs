use aggregator::holding::Holding;
use aggregator::identity::Identity;
use aggregator::lp_cache::{is_fresh, PositionCache, StableEntry, STALE_NS};
use candid::Principal;
use std::cell::Cell;

fn identity(text: &str) -> Identity {
    Identity::from_bytes(Principal::from_text(text).unwrap().as_slice().to_vec()).unwrap()
}

fn escrow(amount: &str) -> Holding {
    Holding {
        source: "x".into(),
        token: "t".into(),
        amount: amount.into(),
        status: "lp_escrow".into(),
    }
}

#[test]
fn cache_respects_height() {
    let calls = Cell::new(0usize);
    let mut cache = PositionCache::new();
    let principal = identity("aaaaa-aa");
    let pool = "p1";
    let h1 = 1u64;
    let v1 = cache.get_or_fetch(&principal, pool, h1, 10, || {
        calls.set(calls.get() + 1);
        vec![escrow("1")]
    });
    assert_eq!(calls.get(), 1);
    let v2 = cache.get_or_fetch(&principal, pool, h1, 11, || {
        calls.set(calls.get() + 1);
        vec![]
    });
    assert_eq!(calls.get(), 1);
    assert_eq!(v2, v1);
    let v3 = cache.get_or_fetch(&principal, pool, h1 + 1, 12, || {
        calls.set(calls.get() + 1);
        vec![escrow("2")]
    });
    assert_eq!(calls.get(), 2);
    assert_eq!(v3[0].amount, "2");
}

#[test]
fn entry_at_the_staleness_bound_is_fetched_again() {
    let mut cache = PositionCache::new();
    let p = identity("aaaaa-aa");
    cache.store(&p, "pool", 7, vec![escrow("1")], 100);
    assert_eq!(cache.lookup(&p, "pool", 7, 100 + STALE_NS - 1), Some(vec![escrow("1")]));
    assert_eq!(cache.lookup(&p, "pool", 7, 100 + STALE_NS), None);
    assert_eq!(cache.lookup(&p, "pool", 8, 101), None);
    assert_eq!(cache.lookup(&p, "other", 7, 101), None);
    assert_eq!(cache.lookup(&identity("2vxsx-fae"), "pool", 7, 101), None);
}

#[test]
fn sweep_removes_old_entries_whatever_their_height() {
    let mut cache = PositionCache::new();
    let p = identity("aaaaa-aa");
    cache.store(&p, "old", 1, vec![escrow("1")], 0);
    cache.store(&p, "new", 1, vec![escrow("2")], STALE_NS);
    cache.evict_stale(STALE_NS);
    let mut left: Vec<String> = cache.stable_save().into_iter().map(|e| e.pool).collect();
    left.sort();
    assert_eq!(left, vec!["new".to_string()]);
}

#[test]
fn persisted_entries_come_back() {
    let mut cache = PositionCache::new();
    let a = identity("aaaaa-aa");
    let b = identity("2vxsx-fae");
    cache.store(&a, "p", 3, vec![escrow("1")], 5);
    cache.store(&b, "p", 4, vec![escrow("2"), escrow("3")], 6);
    let saved = cache.stable_save();
    assert_eq!(saved.len(), 2);
    let mut restored = PositionCache::new();
    restored.store(&a, "gone", 1, vec![], 1);
    restored.stable_restore(saved);
    assert_eq!(restored.lookup(&a, "gone", 1, 1), None);
    assert_eq!(restored.lookup(&a, "p", 3, 7), Some(vec![escrow("1")]));
    assert_eq!(restored.lookup(&b, "p", 4, 7), Some(vec![escrow("2"), escrow("3")]));
}

#[test]
fn a_later_persisted_entry_replaces_an_earlier_one() {
    let a = identity("aaaaa-aa");
    let entry = |amount: &str, height: u64| StableEntry {
        principal: a.as_bytes().clone(),
        pool: "p".to_string(),
        data: vec![escrow(amount)],
        height,
        ts: 1,
    };
    let mut cache = PositionCache::new();
    cache.stable_restore(vec![entry("1", 1), entry("2", 2)]);
    assert_eq!(cache.lookup(&a, "p", 1, 2), None);
    assert_eq!(cache.lookup(&a, "p", 2, 2), Some(vec![escrow("2")]));
}

#[test]
fn freshness_is_age_below_the_bound() {
    assert!(is_fresh(10, 10, 1));
    assert!(!is_fresh(10, 11, 1));
    assert!(!is_fresh(10, 10, 0));
    assert!(is_fresh(10, 5, 0));
    assert!(is_fresh(0, u64::MAX - 1, u64::MAX));
}
