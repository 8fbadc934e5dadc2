use aggregator::dex::dex_icpswap::{IcpswapAdapter, PoolData, PoolMetadata, UserPositionInfoWithTokenAmount};
use aggregator::dex::dex_infinity::{InfinityAdapter, VaultBalance};
use aggregator::dex::dex_sonic::{PositionInfo, SonicAdapter};
use aggregator::dex::sns_adapter::{claimable_holdings, Claimable, SnsAdapter};
use aggregator::dex::{claim_rewards, claimable_rewards, clear_all_caches, resolve_target, RewardInfo};
use aggregator::dex_fetchers::{fetch, merge, with_timeout};
use aggregator::error::FetchError;
use aggregator::holding::Holding;
use aggregator::identity::Identity;
use aggregator::ledger_fetcher::RawMetadata;
use aggregator::lp_cache::PositionCache;
use aggregator::neuron_fetcher;
use aggregator::utils::{MetadataValue, DAY_NS};
use candid::{Nat, Principal};
use std::cell::Cell;

fn anonymous() -> Identity {
    Identity::from_bytes(Principal::anonymous().as_slice().to_vec()).unwrap()
}

fn holding(source: &str, token: &str, amount: &str, status: &str) -> Holding {
    Holding { source: source.into(), token: token.into(), amount: amount.into(), status: status.into() }
}

#[test]
fn fetch_positions_empty_without_env() {
    let mut adapter = IcpswapAdapter::new();
    let mut cache = PositionCache::new();
    let res = adapter.fetch_positions(
        &mut cache,
        None,
        &anonymous(),
        0,
        |_| Ok(vec![]),
        |_| None,
        |_| None,
        |_| None,
    );
    assert!(matches!(res, Err(FetchError::InvalidConfig(_))));
    assert_eq!(res, Err(FetchError::InvalidConfig("factory".into())));
    assert_eq!(adapter.target(None), Err(FetchError::InvalidConfig("factory".into())));
    assert_eq!(adapter.field(), "factory");
}

#[test]
fn claim_fails_without_env() {
    let adapter = IcpswapAdapter::new();
    let res = adapter.claim_rewards(None, Some(anonymous()), |_| Ok(vec![]), |_| Ok(1));
    assert!(res.is_err());
    assert_eq!(res, Err("factory".to_string()));
    assert_eq!(SnsAdapter::new().claim_rewards(None, |_| Ok(1)), Err("distributor".to_string()));
}

#[test]
fn dex_infinity_empty_without_env() {
    let adapter = InfinityAdapter::new();
    let mut cache = PositionCache::new();
    let res =
        adapter.fetch_positions(&mut cache, None, &anonymous(), 0, |_| Ok(vec![]), |_| None, |_| vec![]);
    assert!(matches!(res, Err(FetchError::InvalidConfig(_))));
    assert_eq!(res, Err(FetchError::InvalidConfig("vault".into())));
    assert_eq!(adapter.target(None), Err(FetchError::InvalidConfig("vault".into())));
}

#[test]
fn dex_sonic_empty_without_env() {
    let adapter = SonicAdapter;
    let mut cache = PositionCache::new();
    let res = adapter.fetch_positions(&mut cache, None, &anonymous(), 0, |_| Ok(vec![]), |_| None);
    assert!(matches!(res, Err(FetchError::InvalidConfig(_))));
    assert_eq!(res, Err(FetchError::InvalidConfig("router".into())));
    assert_eq!(adapter.target(None), Err(FetchError::InvalidConfig("router".into())));
}

#[test]
fn configured_target_is_handed_through() {
    assert_eq!(resolve_target("x", Some(anonymous())), Ok(anonymous()));
    assert_eq!(SonicAdapter.target(Some(anonymous())), Ok(anonymous()));
    assert_eq!(resolve_target("x", None), Err(FetchError::InvalidConfig("x".into())));
}

#[test]
fn sns_get_claimable_mock() {
    let mut adapter = SnsAdapter::new();
    adapter.set_claimable(Ok(vec![Claimable {
        symbol: "AAA".into(),
        amount: Nat::from(1234u64),
        decimals: 2,
    }]));
    let asked = Cell::new(false);
    let res = adapter
        .fetch_positions(Some(anonymous()), |_| {
            asked.set(true);
            Ok(vec![])
        })
        .unwrap();
    assert_eq!(res.len(), 1);
    assert!(!asked.get());
    assert_eq!(res[0], holding("SNS", "AAA", "12.34", "claimable"));
    assert_eq!(
        adapter.claimable_rewards(&res),
        vec![RewardInfo { token: "AAA".into(), amount: "12.34".into() }]
    );
}

#[test]
fn sns_claim_mock() {
    let mut adapter = SnsAdapter::new();
    adapter.set_claim(Err("fail".into()));
    let err = adapter.claim_rewards(Some(anonymous()), |_| Ok(1)).unwrap_err();
    assert_eq!(err, "fail");
    adapter.set_claim(Ok(9));
    assert_eq!(adapter.claim_rewards(Some(anonymous()), |_| Ok(1)), Ok(9));
}

#[test]
fn sns_asks_the_distributor_without_a_canned_answer() {
    let adapter = SnsAdapter::new();
    let res = adapter.fetch_positions(Some(anonymous()), |d| {
        assert!(d.is_anonymous());
        Ok(vec![Claimable { symbol: "B".into(), amount: Nat::from(5u64), decimals: 3 }])
    });
    assert_eq!(res, Ok(vec![holding("SNS", "B", "0.005", "claimable")]));
    let failed = adapter.fetch_positions(Some(anonymous()), |_| Err(FetchError::InvalidResponse));
    assert_eq!(failed, Err(FetchError::InvalidResponse));
    let unset = adapter.fetch_positions(None, |_| Ok(vec![]));
    assert_eq!(unset, Err(FetchError::InvalidConfig("distributor".into())));
    assert_eq!(adapter.claim_rewards(Some(anonymous()), |_| Ok(4)), Ok(4));
    let mut canned = SnsAdapter::new();
    canned.set_claimable(Err("down".into()));
    assert_eq!(
        canned.fetch_positions(Some(anonymous()), |_| Ok(vec![])),
        Err(FetchError::Network("down".into()))
    );
    assert_eq!(claimable_holdings(&vec![]), vec![]);
}

#[test]
fn adapters_without_the_capability_have_nothing_to_claim() {
    assert_eq!(claimable_rewards(), vec![]);
    assert_eq!(claim_rewards(), Ok(0));
}

#[test]
fn sonic_positions_become_escrow_holdings() {
    let token = |address: &str, decimals: u8| aggregator::dex::dex_sonic::Token {
        address: address.into(),
        decimals,
    };
    let position = |auto_compound: bool| PositionInfo {
        token_a: token("ta", 2),
        token_b: token("tb", 0),
        token_a_amount: Nat::from(150u64),
        token_b_amount: Nat::from(3u64),
        reward_token: token("tr", 1),
        reward_amount: Nat::from(25u64),
        auto_compound,
    };
    let out = SonicAdapter.position_holdings(&vec![position(false), position(true)]);
    assert_eq!(
        out,
        vec![
            holding("Sonic", "ta", "1.50", "lp_escrow"),
            holding("Sonic", "tb", "3", "lp_escrow"),
            holding("Sonic", "tr", "2.5", "lp_escrow"),
            holding("Sonic", "ta", "1.50", "lp_escrow"),
            holding("Sonic", "tb", "3", "lp_escrow"),
        ]
    );
    assert_eq!(SonicAdapter.position_holdings(&vec![]), vec![]);
}

#[test]
fn infinity_positions_without_metadata_or_balance_are_left_out() {
    let adapter = InfinityAdapter::new();
    let found = vec![
        Some(VaultBalance { symbol: "X".into(), decimals: 1, balance: Nat::from(11u64) }),
        None,
        Some(VaultBalance { symbol: "Y".into(), decimals: 0, balance: Nat::from(2u64) }),
    ];
    assert_eq!(
        adapter.vault_holdings(&found),
        vec![
            holding("InfinitySwap", "X", "1.1", "lp_escrow"),
            holding("InfinitySwap", "Y", "2", "lp_escrow"),
        ]
    );
}

fn pool() -> PoolData {
    PoolData {
        key: "pool-1".into(),
        token0: aggregator::dex::dex_icpswap::Token { address: "t0".into(), standard: "ICRC1".into() },
        token1: aggregator::dex::dex_icpswap::Token { address: "t1".into(), standard: "ICRC1".into() },
        canister_id: anonymous(),
    }
}

#[test]
fn icpswap_positions_become_two_holdings_each() {
    let adapter = IcpswapAdapter::new();
    let positions = vec![
        UserPositionInfoWithTokenAmount {
            id: Nat::from(1u64),
            token0_amount: Nat::from(100u64),
            token1_amount: Nat::from(5u64),
        },
        UserPositionInfoWithTokenAmount {
            id: Nat::from(2u64),
            token0_amount: Nat::from(1u64),
            token1_amount: Nat::from(0u64),
        },
    ];
    let meta = PoolMetadata { token0_decimals: 2, token1_decimals: 1 };
    assert_eq!(
        adapter.pool_holdings(&pool(), &positions, Some(meta)),
        vec![
            holding("ICPSwap", "t0", "1.00", "lp_escrow"),
            holding("ICPSwap", "t1", "0.5", "lp_escrow"),
            holding("ICPSwap", "t0", "0.01", "lp_escrow"),
            holding("ICPSwap", "t1", "0.0", "lp_escrow"),
        ]
    );
    assert_eq!(adapter.pool_holdings(&pool(), &positions, None), vec![]);
}

#[test]
fn icpswap_pool_metadata_is_cached_for_a_day() {
    let mut adapter = IcpswapAdapter::new();
    let cid = anonymous();
    let meta = PoolMetadata { token0_decimals: 8, token1_decimals: 6 };
    let calls = Cell::new(0);
    let mut ask = |adapter: &mut IcpswapAdapter, now: u64, answer: Option<PoolMetadata>| {
        adapter.fetch_meta(&cid, now, || {
            calls.set(calls.get() + 1);
            answer
        })
    };
    assert_eq!(ask(&mut adapter, 0, None), None);
    assert_eq!(ask(&mut adapter, 0, Some(meta)), Some(meta));
    assert_eq!(calls.get(), 2);
    assert_eq!(ask(&mut adapter, DAY_NS - 1, None), Some(meta));
    assert_eq!(calls.get(), 2);
    assert_eq!(ask(&mut adapter, DAY_NS, None), None);
    assert_eq!(calls.get(), 3);
    adapter.clear_cache();
    assert_eq!(ask(&mut adapter, 1, None), None);
    assert_eq!(calls.get(), 4);
}

#[test]
fn icpswap_claim_total_fails_on_overflow() {
    let adapter = IcpswapAdapter::new();
    assert_eq!(adapter.total_claimed(&vec![]), Ok(0));
    assert_eq!(adapter.total_claimed(&vec![1, 2, 3]), Ok(6));
    assert_eq!(adapter.total_claimed(&vec![u64::MAX - 1, 1]), Ok(u64::MAX));
    assert_eq!(adapter.total_claimed(&vec![u64::MAX, 1, 0]), Err("overflow".to_string()));
}

#[test]
fn clearing_all_caches_empties_what_the_adapters_hold() {
    let mut icpswap = IcpswapAdapter::new();
    let mut sonic = SonicAdapter;
    let mut infinity = InfinityAdapter::new();
    let mut sns = SnsAdapter::new();
    let cid = anonymous();
    let meta = PoolMetadata { token0_decimals: 1, token1_decimals: 1 };
    icpswap.fetch_meta(&cid, 0, || Some(meta));
    infinity.meta.refresh(
        &cid,
        &RawMetadata {
            encoded: vec![1],
            items: vec![("icrc1:symbol".to_string(), MetadataValue::Text("S".into()))],
        },
        0,
    );
    assert!(infinity.meta.lookup(&cid, 1).is_some());
    sns.set_claim(Ok(3));
    let mut positions = PositionCache::new();
    positions.store(&cid, "pool", 1, vec![holding("x", "t", "1", "lp_escrow")], 0);
    assert!(positions.lookup(&cid, "pool", 1, 1).is_some());
    clear_all_caches(&mut icpswap, &mut sonic, &mut infinity, &mut sns, &mut positions);
    assert_eq!(positions.lookup(&cid, "pool", 1, 1), None);
    assert!(positions.stable_save().is_empty());
    assert_eq!(icpswap.fetch_meta(&cid, 1, || None), None);
    assert_eq!(infinity.meta.lookup(&cid, 1), None);
    assert_eq!(sns.claim_rewards(Some(anonymous()), |_| Ok(0)), Ok(3));
}

#[test]
fn fan_out_merges_in_adapter_order() {
    let a = vec![holding("A", "t", "1", "lp_escrow")];
    let b = vec![holding("B", "t", "2", "lp_escrow"), holding("B", "u", "3", "lp_escrow")];
    let merged = merge(&vec![Ok(a.clone()), Ok(vec![]), Ok(b.clone())]).unwrap();
    assert_eq!(merged, [a.clone(), b.clone()].concat());
    assert_eq!(merge(&vec![]), Ok(vec![]));
}

#[test]
fn fan_out_aborts_on_the_first_failure_in_adapter_order() {
    let a = vec![holding("A", "t", "1", "lp_escrow")];
    let r = merge(&vec![
        Ok(a),
        Err(FetchError::InvalidConfig("router".into())),
        Err(FetchError::Network("x".into())),
    ]);
    assert_eq!(r, Err(FetchError::InvalidConfig("router".into())));
}

#[test]
fn timeout_is_a_network_error() {
    assert_eq!(with_timeout(None), Err(FetchError::Network("timeout".into())));
    assert_eq!(with_timeout(Some(Ok(vec![]))), Ok(vec![]));
    assert_eq!(with_timeout(Some(Err(FetchError::InvalidResponse))), Err(FetchError::InvalidResponse));
}

#[test]
fn fan_out_asks_every_adapter() {
    let asked = Cell::new(0);
    let r = fetch(4, |i| {
        asked.set(asked.get() + 1);
        match i {
            0 => Some(Ok(vec![holding("A", "t", "1", "lp_escrow")])),
            1 => None,
            2 => Some(Err(FetchError::InvalidResponse)),
            _ => Some(Ok(vec![])),
        }
    });
    assert_eq!(asked.get(), 4);
    assert_eq!(r, Err(FetchError::Network("timeout".into())));
    let ok = fetch(2, |i| Some(Ok(vec![holding("S", "t", &i.to_string(), "lp_escrow")])));
    assert_eq!(ok.unwrap().iter().map(|h| h.amount.clone()).collect::<Vec<_>>(), vec!["0", "1"]);
}

#[test]
fn staked_position_is_the_fixed_one() {
    assert_eq!(neuron_fetcher::fetch(), vec![holding("neuron", "ICP", "1200", "locked_8y")]);
}
