use aggregator::error::FetchError;
use aggregator::holding::Holding;
use aggregator::identity::Identity;
use aggregator::ledger_fetcher::{
    fetch, ledger_holding, parse_items, rank, retry_delay_ms, same_hash, sort_ledgers, with_retry,
    MetadataCache, Rank, RawMetadata, StableMeta, DEFAULT_LEDGER_RETRY_LIMIT, DEFAULT_META_TTL_NS,
};
use aggregator::utils::{MetadataValue, DAY_NS};
use candid::{Nat, Principal};
use sha2::{Digest, Sha256};
use std::cell::Cell;

fn identity(text: &str) -> Identity {
    Identity::from_bytes(Principal::from_text(text).unwrap().as_slice().to_vec()).unwrap()
}

fn raw(symbol: &str, decimals: u8, fee: u64) -> RawMetadata {
    RawMetadata {
        encoded: format!("{symbol}:{decimals}:{fee}").into_bytes(),
        items: vec![
            ("icrc1:symbol".to_string(), MetadataValue::Text(symbol.to_string())),
            ("icrc1:decimals".to_string(), MetadataValue::Nat8(decimals)),
            ("icrc1:fee".to_string(), MetadataValue::Nat(Nat::from(fee))),
        ],
    }
}

fn same_bytes_other_items(symbol: &str, decimals: u8, fee: u64, bytes_of: &RawMetadata) -> RawMetadata {
    let mut r = raw(symbol, decimals, fee);
    r.encoded = bytes_of.encoded.clone();
    r
}

#[test]
fn metadata_caching_and_expiry() {
    let cid = identity("aaaaa-aa");
    let mut cache = MetadataCache::new(None);
    let ttl = cache.ttl();
    assert_eq!(ttl, DEFAULT_META_TTL_NS);

    let first = raw("AAA", 2, 10);
    let v1 = cache.fetch_metadata(&cid, 1, || Ok(raw("AAA", 2, 10))).unwrap();
    assert_eq!(v1, ("AAA".into(), 2, 10));

    let called = Cell::new(false);
    let v2 = cache
        .fetch_metadata(&cid, 2, || {
            called.set(true);
            Ok(raw("BBB", 3, 20))
        })
        .unwrap();
    assert_eq!(v2, ("AAA".into(), 2, 10));
    assert!(!called.get());
    assert_eq!(cache.lookup(&cid, 2).unwrap().0, "AAA");

    let v3 = cache.fetch_metadata(&cid, ttl + 3, || Ok(raw("BBB", 3, 20))).unwrap();
    assert_eq!(v3, ("BBB".into(), 3, 20));
    assert_eq!(cache.lookup(&cid, ttl + 3).unwrap().0, "BBB");
    assert_eq!(first.items.len(), 3);
}

#[test]
fn metadata_error() {
    let cid = identity("aaaaa-aa");
    let mut cache = MetadataCache::new(None);
    let err = cache
        .fetch_metadata(&cid, 0, || Err(FetchError::Network("fail".into())))
        .unwrap_err();
    assert!(matches!(err, FetchError::Network(_)));
    assert_eq!(cache.lookup(&cid, 0), None);
    assert!(cache.stable_save().is_empty());
}

#[test]
fn identical_raw_metadata_is_not_parsed_again() {
    let cid = identity("aaaaa-aa");
    let mut cache = MetadataCache::new(Some(10));
    let first = raw("AAA", 2, 10);
    assert_eq!(cache.refresh(&cid, &first, 0), ("AAA".into(), 2, 10));
    assert_eq!(cache.lookup(&cid, 9), Some(("AAA".into(), 2, 10)));
    assert_eq!(cache.lookup(&cid, 10), None);
    let second = same_bytes_other_items("ZZZ", 9, 99, &first);
    assert_eq!(cache.refresh(&cid, &second, 10), ("AAA".into(), 2, 10));
    assert_eq!(cache.lookup(&cid, 19), Some(("AAA".into(), 2, 10)));
    assert_eq!(cache.lookup(&cid, 20), None);
}

#[test]
fn changed_raw_metadata_replaces_hash_and_facts() {
    let cid = identity("aaaaa-aa");
    let mut cache = MetadataCache::new(Some(10));
    cache.refresh(&cid, &raw("AAA", 2, 10), 0);
    let changed = raw("BBB", 3, 20);
    assert_eq!(cache.refresh(&cid, &changed, 5), ("BBB".into(), 3, 20));
    let saved = cache.stable_save();
    assert_eq!(saved.len(), 1);
    assert_eq!(saved[0].symbol, "BBB");
    assert_eq!(saved[0].expires, 15);
    let digest: [u8; 32] = Sha256::digest(&changed.encoded).into();
    assert_eq!(saved[0].hash, digest.to_vec());
    assert_ne!(saved[0].hash, changed.encoded);
}

#[test]
fn decimals_are_clamped_and_unreadable_fields_stay_zero() {
    let items = vec![
        ("icrc1:decimals".to_string(), MetadataValue::Nat8(200)),
        ("icrc1:fee".to_string(), MetadataValue::Text("free".to_string())),
        ("icrc1:symbol".to_string(), MetadataValue::Nat8(1)),
        ("icrc1:name".to_string(), MetadataValue::Text("Name".to_string())),
    ];
    assert_eq!(parse_items(&items), (String::new(), 18, 0));
    let later_wins = vec![
        ("icrc1:symbol".to_string(), MetadataValue::Text("A".to_string())),
        ("icrc1:symbol".to_string(), MetadataValue::Text("B".to_string())),
        ("icrc1:decimals".to_string(), MetadataValue::Nat64(258)),
        ("icrc1:fee".to_string(), MetadataValue::Nat32(7)),
        ("icrc1:fee".to_string(), MetadataValue::Other),
    ];
    assert_eq!(parse_items(&later_wins), ("B".to_string(), 18, 7));
    let wide = vec![("icrc1:decimals".to_string(), MetadataValue::Nat64(u64::MAX))];
    assert_eq!(parse_items(&wide), (String::new(), 18, 0));
    let small = vec![("icrc1:decimals".to_string(), MetadataValue::Nat32(17))];
    assert_eq!(parse_items(&small), (String::new(), 17, 0));
    assert_eq!(parse_items(&vec![]), (String::new(), 0, 0));
}

#[test]
fn persisted_metadata_comes_back() {
    let a = identity("aaaaa-aa");
    let b = identity("2vxsx-fae");
    let mut cache = MetadataCache::new(Some(100));
    cache.refresh(&a, &raw("AAA", 2, 10), 0);
    cache.refresh(&b, &raw("BBB", 8, 1), 1);
    let saved = cache.stable_save();
    assert_eq!(saved.len(), 2);
    let mut restored = MetadataCache::new(Some(100));
    restored.refresh(&a, &raw("OLD", 1, 1), 0);
    restored.stable_restore(saved);
    assert_eq!(restored.lookup(&a, 50), Some(("AAA".into(), 2, 10)));
    assert_eq!(restored.lookup(&b, 50), Some(("BBB".into(), 8, 1)));
    assert_eq!(restored.refresh(&a, &same_bytes_other_items("X", 0, 0, &raw("AAA", 2, 10)), 200).0, "AAA");
    restored.clear_cache();
    assert_eq!(restored.lookup(&a, 50), None);
}

#[test]
fn persisted_hash_of_wrong_length_reads_as_zeros() {
    let a = identity("aaaaa-aa");
    let mut cache = MetadataCache::new(Some(100));
    cache.stable_restore(vec![StableMeta {
        cid: a.as_bytes().clone(),
        symbol: "AAA".to_string(),
        decimals: 2,
        fee: 3,
        hash: vec![1, 2, 3],
        expires: 10,
    }]);
    let saved = cache.stable_save();
    assert_eq!(saved[0].hash, vec![0u8; 32]);
    assert_eq!(cache.lookup(&a, 9), Some(("AAA".into(), 2, 3)));
}

#[test]
fn with_retry_succeeds_after_retries() {
    let attempts = Cell::new(0u8);
    let result: Result<i32, FetchError> = with_retry(DEFAULT_LEDGER_RETRY_LIMIT, |_| {
        attempts.set(attempts.get() + 1);
        if attempts.get() < 3 {
            Err(FetchError::Network("no".into()))
        } else {
            Ok(5)
        }
    });
    assert_eq!(result.unwrap(), 5);
    assert_eq!(attempts.get(), 3);
}

#[test]
fn with_retry_gives_up_with_the_last_failure() {
    let seen = Cell::new(0u8);
    let result: Result<(), String> = with_retry(3, |failed| {
        seen.set(seen.get() + 1);
        Err(format!("failure {failed}"))
    });
    assert_eq!(result, Err("failure 2".to_string()));
    assert_eq!(seen.get(), 3);
    let once: Result<u8, u8> = with_retry(1, |k| Err(k));
    assert_eq!(once, Err(0));
    let first: Result<u8, u8> = with_retry(5, |k| Ok(k));
    assert_eq!(first, Ok(0));
}

#[test]
fn retry_delay_doubles() {
    assert_eq!(retry_delay_ms(1), 100);
    assert_eq!(retry_delay_ms(2), 200);
    assert_eq!(retry_delay_ms(3), 400);
    assert_eq!(retry_delay_ms(58), 100 * (1u64 << 57));
}

#[test]
fn fetch_happy_path() {
    let mut cache = MetadataCache::new(None);
    let cid = identity("aaaaa-aa");
    let (symbol, decimals, _) = cache
        .fetch_metadata(&cid, 0, || {
            Ok(RawMetadata {
                encoded: vec![1],
                items: vec![
                    ("icrc1:symbol".to_string(), MetadataValue::Text("AAA".to_string())),
                    ("icrc1:decimals".to_string(), MetadataValue::Nat8(2)),
                ],
            })
        })
        .unwrap();
    let res = fetch(&vec![Ok(ledger_holding(symbol, Nat::from(1234u64), decimals))]).unwrap();
    assert_eq!(res.len(), 1);
    assert_eq!(res[0].token, "AAA");
    assert_eq!(res[0].amount, "12.34");
    assert_eq!(res[0].status, "liquid");
    assert_eq!(res[0].source, "ledger");
}

#[test]
fn fetch_balance_error() {
    let ok = ledger_holding("AAA".to_string(), Nat::from(1u64), 0);
    let err = fetch(&vec![Ok(ok), Err(FetchError::Network("oops".into()))]).unwrap_err();
    assert!(matches!(err, FetchError::Network(_)));
}

#[test]
fn fetch_metadata_error() {
    let mut cache = MetadataCache::new(None);
    let cid = identity("aaaaa-aa");
    let meta = cache.fetch_metadata(&cid, 0, || Err(FetchError::Network("bad".into())));
    let answers: Vec<Result<Holding, FetchError>> = vec![meta
        .map(|(symbol, decimals, _)| ledger_holding(symbol, Nat::from(10u64), decimals))];
    let err = fetch(&answers).unwrap_err();
    assert!(matches!(err, FetchError::Network(_)));
}

#[test]
fn fetch_reports_the_first_failure_in_ledger_order() {
    let answers = vec![
        Ok(ledger_holding("A".to_string(), Nat::from(1u64), 0)),
        Err(FetchError::InvalidResponse),
        Err(FetchError::Network("later".into())),
    ];
    assert_eq!(fetch(&answers), Err(FetchError::InvalidResponse));
    assert_eq!(fetch(&vec![]), Ok(vec![]));
}

#[test]
fn ledgers_are_asked_in_order_each_once() {
    let short = Identity::from_bytes(vec![9]).unwrap();
    let a = Identity::from_bytes(vec![1, 2]).unwrap();
    let b = Identity::from_bytes(vec![1, 3]).unwrap();
    let c = Identity::from_bytes(vec![2, 0]).unwrap();
    let empty = Identity::from_bytes(vec![]).unwrap();
    let sorted = sort_ledgers(&vec![c.clone(), a.clone(), short.clone(), b.clone(), a.clone(), empty.clone(), c.clone()]);
    assert_eq!(sorted, vec![empty.clone(), short.clone(), a.clone(), b.clone(), c.clone()]);
    assert_eq!(rank(&a, &b), Rank::Before);
    assert_eq!(rank(&b, &a), Rank::After);
    assert_eq!(rank(&a, &a), Rank::Same);
    assert_eq!(rank(&short, &a), Rank::Before);
    assert_eq!(rank(&c, &short), Rank::After);
}

#[test]
fn ledger_order_is_that_of_the_identities() {
    let mut principals: Vec<Principal> = (0..40u8)
        .map(|i| Principal::self_authenticating([i; 32]))
        .chain([Principal::anonymous(), Principal::management_canister()])
        .chain((0..10u8).map(|i| Principal::from_slice(&[i, 255 - i, 7])))
        .collect();
    let ids: Vec<Identity> = principals
        .iter()
        .map(|p| Identity::from_bytes(p.as_slice().to_vec()).unwrap())
        .collect();
    principals.sort();
    principals.dedup();
    let expected: Vec<Vec<u8>> = principals.iter().map(|p| p.as_slice().to_vec()).collect();
    let sorted: Vec<Vec<u8>> = sort_ledgers(&ids).iter().map(|i| i.as_bytes().clone()).collect();
    assert_eq!(sorted, expected);
}

#[test]
fn hashes_compare_by_value() {
    let a = [7u8; 32];
    let mut b = [7u8; 32];
    assert!(same_hash(&a, &b));
    b[31] = 8;
    assert!(!same_hash(&a, &b));
    assert_eq!(DAY_NS, DEFAULT_META_TTL_NS);
}

#[test]
fn every_ledger_is_asked_and_the_first_failure_wins() {
    let mut cache = MetadataCache::new(None);
    let a = Identity::from_bytes(vec![1]).unwrap();
    let b = Identity::from_bytes(vec![2]).unwrap();
    let c = Identity::from_bytes(vec![3]).unwrap();
    let ledgers = vec![a.clone(), b.clone(), c.clone()];
    let meta_calls = Cell::new(0);
    let balance_calls = Cell::new(0);
    let symbol = |cid: &Identity| format!("L{}", cid.as_bytes()[0]);
    let ok = cache.fetch_ledgers(
        &ledgers,
        0,
        |cid| {
            meta_calls.set(meta_calls.get() + 1);
            Ok(raw(&symbol(cid), 1, 0))
        },
        |cid| {
            balance_calls.set(balance_calls.get() + 1);
            Ok(Nat::from(cid.as_bytes()[0] as u64 * 10))
        },
    );
    let amounts: Vec<(String, String)> =
        ok.unwrap().into_iter().map(|h| (h.token, h.amount)).collect();
    assert_eq!(
        amounts,
        vec![
            ("L1".to_string(), "1.0".to_string()),
            ("L2".to_string(), "2.0".to_string()),
            ("L3".to_string(), "3.0".to_string()),
        ]
    );
    assert_eq!((meta_calls.get(), balance_calls.get()), (3, 3));
    let failed = cache.fetch_ledgers(
        &ledgers,
        1,
        |_| {
            meta_calls.set(meta_calls.get() + 1);
            Err(FetchError::Network("meta".into()))
        },
        |cid| {
            balance_calls.set(balance_calls.get() + 1);
            if cid.same(&b) {
                Err(FetchError::Network("second".into()))
            } else if cid.same(&c) {
                Err(FetchError::InvalidResponse)
            } else {
                Ok(Nat::from(1u64))
            }
        },
    );
    assert_eq!(failed, Err(FetchError::Network("second".into())));
    assert_eq!((meta_calls.get(), balance_calls.get()), (3, 6));
    assert_eq!(cache.fetch_ledgers(&vec![], 2, |_| Err(FetchError::InvalidResponse), |_| Ok(Nat::from(0u64))), Ok(vec![]));
}

#[test]
fn a_ledger_without_metadata_is_not_asked_for_its_balance() {
    let mut cache = MetadataCache::new(None);
    let a = Identity::from_bytes(vec![1]).unwrap();
    let asked = Cell::new(false);
    let r = cache.ledger_balance(&a, 0, &|_: &Identity| Err(FetchError::Network("meta".into())), &|_: &Identity| {
        asked.set(true);
        Ok(Nat::from(1u64))
    });
    assert_eq!(r, Err(FetchError::Network("meta".into())));
    assert!(!asked.get());
    assert_eq!(cache.lookup(&a, 0), None);
}
