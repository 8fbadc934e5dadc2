use aggregator::dex::dex_icpswap::{IcpswapAdapter, PoolData, PoolMetadata, Token, UserPositionInfoWithTokenAmount};
use aggregator::dex::dex_infinity::{InfinityAdapter, VaultBalance, VaultPosition};
use aggregator::dex::dex_sonic::{PositionInfo, SonicAdapter};
use aggregator::dex::sns_adapter::{Claimable, SnsAdapter};
use aggregator::error::FetchError;
use aggregator::holding::Holding;
use aggregator::identity::Identity;
use aggregator::ledger_fetcher::retry_step;
use aggregator::lp_cache::PositionCache;
use candid::{Nat, Principal};
use std::cell::Cell;

fn id(n: u8) -> Identity {
    Identity::from_bytes(Principal::self_authenticating([n; 32]).as_slice().to_vec()).unwrap()
}

fn holding(source: &str, token: &str, amount: &str) -> Holding {
    Holding { source: source.into(), token: token.into(), amount: amount.into(), status: "lp_escrow".into() }
}

fn sonic_position(amount: u64) -> PositionInfo {
    let token = |address: &str| aggregator::dex::dex_sonic::Token { address: address.into(), decimals: 1 };
    PositionInfo {
        token_a: token("a"),
        token_b: token("b"),
        token_a_amount: Nat::from(amount),
        token_b_amount: Nat::from(0u64),
        reward_token: token("r"),
        reward_amount: Nat::from(0u64),
        auto_compound: true,
    }
}

#[test]
fn sonic_without_a_router_asks_nobody() {
    let mut cache = PositionCache::new();
    let asked = Cell::new(false);
    let r = SonicAdapter.fetch_positions(
        &mut cache,
        None,
        &id(1),
        0,
        |_| {
            asked.set(true);
            Ok(vec![])
        },
        |_| {
            asked.set(true);
            None
        },
    );
    assert_eq!(r, Err(FetchError::InvalidConfig("router".into())));
    assert!(!asked.get());
    assert!(cache.stable_save().is_empty());
}

#[test]
fn sonic_positions_are_cached_by_height() {
    let mut cache = PositionCache::new();
    let who = id(1);
    let first = SonicAdapter
        .fetch_positions(&mut cache, Some(id(9)), &who, 0, |_| Ok(vec![sonic_position(15)]), |_| Some(4))
        .unwrap();
    assert_eq!(first, vec![holding("Sonic", "a", "1.5"), holding("Sonic", "b", "0.0")]);
    let same_height = SonicAdapter
        .fetch_positions(&mut cache, Some(id(9)), &who, 1, |_| Ok(vec![sonic_position(99)]), |_| Some(4))
        .unwrap();
    assert_eq!(same_height, first);
    let advanced = SonicAdapter
        .fetch_positions(&mut cache, Some(id(9)), &who, 2, |_| Ok(vec![sonic_position(99)]), |_| Some(5))
        .unwrap();
    assert_eq!(advanced[0], holding("Sonic", "a", "9.9"));
    let unknown_height = SonicAdapter
        .fetch_positions(&mut cache, Some(id(9)), &who, 3, |_| Ok(vec![sonic_position(7)]), |_| None)
        .unwrap();
    assert_eq!(unknown_height[0], holding("Sonic", "a", "0.7"));
    assert_eq!(cache.lookup(&who, "sonic", 0, 3), Some(unknown_height));
}

#[test]
fn sonic_failure_is_handed_back_and_nothing_is_cached() {
    let mut cache = PositionCache::new();
    let asked_height = Cell::new(false);
    let r = SonicAdapter.fetch_positions(
        &mut cache,
        Some(id(9)),
        &id(1),
        0,
        |_| Err(FetchError::InvalidResponse),
        |_| {
            asked_height.set(true);
            Some(1)
        },
    );
    assert_eq!(r, Err(FetchError::InvalidResponse));
    assert!(!asked_height.get());
    assert!(cache.stable_save().is_empty());
}

#[test]
fn infinity_fetch_follows_the_same_rules() {
    let adapter = InfinityAdapter::new();
    let mut cache = PositionCache::new();
    let who = id(1);
    let asked = Cell::new(0);
    let unset = adapter.fetch_positions(&mut cache, None, &who, 0, |_| Ok(vec![]), |_| None, |_| vec![]);
    assert_eq!(unset, Err(FetchError::InvalidConfig("vault".into())));
    let positions = || vec![VaultPosition { ledger: id(5), subaccount: vec![1] }];
    let balances = |ps: &Vec<VaultPosition>| -> Vec<Option<VaultBalance>> {
        asked.set(asked.get() + 1);
        ps.iter()
            .map(|_| Some(VaultBalance { symbol: "X".into(), decimals: 0, balance: Nat::from(3u64) }))
            .collect()
    };
    let first = adapter
        .fetch_positions(&mut cache, Some(id(9)), &who, 0, |_| Ok(positions()), |_| Some(1), balances)
        .unwrap();
    assert_eq!(first, vec![holding("InfinitySwap", "X", "3")]);
    let again = adapter
        .fetch_positions(&mut cache, Some(id(9)), &who, 1, |_| Ok(positions()), |_| Some(1), balances)
        .unwrap();
    assert_eq!(again, first);
    assert_eq!(asked.get(), 1);
    let failed = adapter.fetch_positions(
        &mut cache,
        Some(id(9)),
        &who,
        1,
        |_| Err(FetchError::Network("down".into())),
        |_| Some(1),
        balances,
    );
    assert_eq!(failed, Err(FetchError::Network("down".into())));
    assert_eq!(cache.lookup(&who, "infinity", 1, 2), Some(first));
}

fn pool() -> PoolData {
    PoolData {
        key: "k".into(),
        token0: Token { address: "t0".into(), standard: "s".into() },
        token1: Token { address: "t1".into(), standard: "s".into() },
        canister_id: id(7),
    }
}

fn position(a: u64, b: u64) -> UserPositionInfoWithTokenAmount {
    UserPositionInfoWithTokenAmount {
        id: Nat::from(1u64),
        token0_amount: Nat::from(a),
        token1_amount: Nat::from(b),
    }
}

#[test]
fn icpswap_pool_positions_use_both_caches() {
    let mut adapter = IcpswapAdapter::new();
    let mut cache = PositionCache::new();
    let who = id(1);
    let meta = PoolMetadata { token0_decimals: 1, token1_decimals: 2 };
    let meta_calls = Cell::new(0);
    let first = adapter.pool_positions(
        &mut cache,
        &who,
        &pool(),
        Some(3),
        0,
        &|_: &PoolData| Some(vec![position(10, 100)]),
        &|_: &PoolData| {
            meta_calls.set(meta_calls.get() + 1);
            Some(meta)
        },
    );
    assert_eq!(first, vec![holding("ICPSwap", "t0", "1.0"), holding("ICPSwap", "t1", "1.00")]);
    let cached = adapter.pool_positions(
        &mut cache,
        &who,
        &pool(),
        Some(3),
        1,
        &|_: &PoolData| None,
        &|_: &PoolData| None,
    );
    assert_eq!(cached, first);
    let advanced = adapter.pool_positions(
        &mut cache,
        &who,
        &pool(),
        Some(4),
        2,
        &|_: &PoolData| Some(vec![position(20, 0)]),
        &|_: &PoolData| {
            meta_calls.set(meta_calls.get() + 1);
            None
        },
    );
    assert_eq!(advanced, vec![holding("ICPSwap", "t0", "2.0"), holding("ICPSwap", "t1", "0.00")]);
    assert_eq!(meta_calls.get(), 1);
    let no_answer = adapter.pool_positions(
        &mut cache,
        &who,
        &pool(),
        None,
        3,
        &|_: &PoolData| None,
        &|_: &PoolData| None,
    );
    assert_eq!(no_answer, vec![]);
    assert_eq!(cache.lookup(&who, "k", 0, 3), Some(vec![]));
}

#[test]
fn icpswap_pool_without_metadata_has_no_holdings() {
    let mut adapter = IcpswapAdapter::new();
    let mut cache = PositionCache::new();
    let r = adapter.pool_positions(
        &mut cache,
        &id(1),
        &pool(),
        Some(1),
        0,
        &|_: &PoolData| Some(vec![position(1, 1)]),
        &|_: &PoolData| None,
    );
    assert_eq!(r, vec![]);
}

#[test]
fn icpswap_walks_through_the_pools_in_order() {
    let mut adapter = IcpswapAdapter::new();
    let mut cache = PositionCache::new();
    let who = id(1);
    let pools = || {
        let mut second = pool();
        second.key = "k2".into();
        second.canister_id = id(8);
        second.token0.address = "u0".into();
        vec![pool(), second]
    };
    let asked = Cell::new(0);
    let r = adapter
        .fetch_positions(
            &mut cache,
            Some(id(9)),
            &who,
            0,
            |_| Ok(pools()),
            |p| if p.key == "k" { Some(2) } else { None },
            |p| {
                asked.set(asked.get() + 1);
                Some(vec![position(if p.key == "k" { 5 } else { 7 }, 0)])
            },
            |_| Some(PoolMetadata { token0_decimals: 0, token1_decimals: 0 }),
        )
        .unwrap();
    assert_eq!(
        r,
        vec![
            holding("ICPSwap", "t0", "5"),
            holding("ICPSwap", "t1", "0"),
            holding("ICPSwap", "u0", "7"),
            holding("ICPSwap", "t1", "0"),
        ]
    );
    assert_eq!(asked.get(), 2);
    let again = adapter
        .fetch_positions(
            &mut cache,
            Some(id(9)),
            &who,
            1,
            |_| Ok(pools()),
            |p| if p.key == "k" { Some(2) } else { None },
            |_| {
                asked.set(asked.get() + 1);
                None
            },
            |_| None,
        )
        .unwrap();
    assert_eq!(again, r);
    assert_eq!(asked.get(), 2);
}

#[test]
fn icpswap_without_a_factory_asks_nobody() {
    let mut adapter = IcpswapAdapter::new();
    let mut cache = PositionCache::new();
    let asked = Cell::new(false);
    let r = adapter.fetch_positions(
        &mut cache,
        None,
        &id(1),
        0,
        |_| {
            asked.set(true);
            Ok(vec![])
        },
        |_| None,
        |_| None,
        |_| None,
    );
    assert_eq!(r, Err(FetchError::InvalidConfig("factory".into())));
    assert!(!asked.get());
    let failed = adapter.fetch_positions(
        &mut cache,
        Some(id(9)),
        &id(1),
        0,
        |_| Err(FetchError::InvalidResponse),
        |_| None,
        |_| None,
        |_| None,
    );
    assert_eq!(failed, Err(FetchError::InvalidResponse));
    assert!(cache.stable_save().is_empty());
}

#[test]
fn sns_canned_answers_are_read_back() {
    let mut adapter = SnsAdapter::new();
    assert_eq!(adapter.canned_positions(), None);
    assert_eq!(adapter.canned_claim(), None);
    adapter.set_claimable(Ok(vec![Claimable { symbol: "A".into(), amount: Nat::from(10u64), decimals: 1 }]));
    adapter.set_claim(Ok(2));
    let mut expected = holding("SNS", "A", "1.0");
    expected.status = "claimable".into();
    assert_eq!(adapter.canned_positions(), Some(Ok(vec![expected])));
    assert_eq!(adapter.canned_claim(), Some(Ok(2)));
    adapter.set_claimable(Err("x".into()));
    adapter.set_claim(Err("y".into()));
    assert_eq!(adapter.canned_positions(), Some(Err(FetchError::Network("x".into()))));
    assert_eq!(adapter.canned_claim(), Some(Err("y".to_string())));
}

#[test]
fn retry_step_waits_then_gives_up() {
    assert_eq!(retry_step(3, 1), Some(100));
    assert_eq!(retry_step(3, 2), Some(200));
    assert_eq!(retry_step(3, 3), None);
    assert_eq!(retry_step(1, 1), None);
    assert_eq!(retry_step(255, 58), Some(100 * (1u64 << 57)));
}

#[test]
fn sonic_claim_needs_a_router_and_a_ledger() {
    let asked = Cell::new(false);
    let mut claim = |router: Option<Identity>, ledger: Option<Identity>| {
        SonicAdapter.claim_rewards(router, ledger, |_, _| {
            asked.set(true);
            Ok(12)
        })
    };
    assert_eq!(claim(None, Some(id(2))), Err("router".to_string()));
    assert_eq!(claim(Some(id(1)), None), Err("ledger".to_string()));
    assert_eq!(claim(None, None), Err("router".to_string()));
    assert!(!asked.get());
    assert_eq!(claim(Some(id(1)), Some(id(2))), Ok(12));
    let failed = SonicAdapter.claim_rewards(Some(id(1)), Some(id(2)), |_, _| Err("no".to_string()));
    assert_eq!(failed, Err("no".to_string()));
}

#[test]
fn icpswap_claim_adds_up_what_the_pools_spent() {
    let adapter = IcpswapAdapter::new();
    let three = || {
        let mut pools = vec![pool(), pool(), pool()];
        pools[1].key = "b".into();
        pools[2].key = "c".into();
        Ok(pools)
    };
    let asked = Cell::new(0);
    let total = adapter.claim_rewards(Some(id(1)), Some(id(2)), |_| three(), |p| {
        asked.set(asked.get() + 1);
        Ok(match p.key.as_str() {
            "k" => 5,
            "b" => 7,
            _ => 1,
        })
    });
    assert_eq!(total, Ok(13));
    assert_eq!(asked.get(), 3);
    assert_eq!(adapter.claim_rewards(Some(id(1)), Some(id(2)), |_| Ok(vec![]), |_| Ok(1)), Ok(0));
}

#[test]
fn icpswap_claim_ends_at_the_first_failure_or_overflow() {
    let adapter = IcpswapAdapter::new();
    let three = || {
        let mut pools = vec![pool(), pool(), pool()];
        pools[1].key = "b".into();
        pools[2].key = "c".into();
        Ok(pools)
    };
    let asked = Cell::new(0);
    let failed = adapter.claim_rewards(Some(id(1)), Some(id(2)), |_| three(), |p| {
        asked.set(asked.get() + 1);
        if p.key == "b" {
            Err("pool b".to_string())
        } else {
            Ok(1)
        }
    });
    assert_eq!(failed, Err("pool b".to_string()));
    assert_eq!(asked.get(), 2);
    asked.set(0);
    let overflow = adapter.claim_rewards(Some(id(1)), Some(id(2)), |_| three(), |p| {
        asked.set(asked.get() + 1);
        Ok(if p.key == "k" { u64::MAX } else { 1 })
    });
    assert_eq!(overflow, Err("overflow".to_string()));
    assert_eq!(asked.get(), 2);
    asked.set(0);
    assert_eq!(
        adapter.claim_rewards(None, Some(id(2)), |_| three(), |_| Ok(1)),
        Err("factory".to_string())
    );
    assert_eq!(
        adapter.claim_rewards(Some(id(1)), None, |_| three(), |_| Ok(1)),
        Err("ledger".to_string())
    );
    let no_pools = adapter.claim_rewards(Some(id(1)), Some(id(2)), |_| Err("down".to_string()), |_| {
        asked.set(asked.get() + 1);
        Ok(1)
    });
    assert_eq!(no_pools, Err("down".to_string()));
    assert_eq!(asked.get(), 0);
}
