use aggregator::claim::{
    claim_with_timeout, ClaimConfig, ClaimController, ClaimError, ClaimStatus,
    DEFAULT_DAILY_LIMIT, DEFAULT_LIMIT_WINDOW_NS, DEFAULT_LOCK_TIMEOUT_NS,
};
use aggregator::identity::Identity;
use aggregator::metrics::Counters;
use candid::Principal;
use std::cell::Cell;

fn id(n: u8) -> Identity {
    Identity::from_bytes(vec![n, n, n]).unwrap()
}

fn anonymous() -> Identity {
    Identity::from_bytes(Principal::anonymous().as_slice().to_vec()).unwrap()
}

fn controller(limit: u32) -> ClaimController {
    let mut config = ClaimConfig::defaults();
    config.daily_limit = limit;
    ClaimController::new(config)
}

#[test]
fn defaults_are_the_documented_ones() {
    let c = ClaimConfig::defaults();
    assert_eq!(c.lock_timeout_ns, 300 * 1_000_000_000);
    assert_eq!(c.window_ns, 86_400 * 1_000_000_000);
    assert_eq!(c.daily_limit, 5);
    assert_eq!(c.max_total, u64::MAX);
    assert_eq!(c.max_per_call, usize::MAX);
    assert!(c.wallets.is_empty() && c.denylist.is_empty());
    assert_eq!(DEFAULT_DAILY_LIMIT, 5);
}

#[test]
fn caller_must_be_the_identity_or_on_the_allowlist() {
    let mut config = ClaimConfig::defaults();
    config.wallets = vec![id(9)];
    let mut c = ClaimController::new(config);
    assert_eq!(c.begin_claim(&id(2), &id(1), 0), Err(ClaimError::Unauthorized));
    assert_eq!(c.begin_claim(&id(9), &id(1), 0), Ok(()));
    c.release(&id(1));
    assert_eq!(c.begin_claim(&id(1), &id(1), 0), Ok(()));
}

#[test]
fn anonymous_identity_is_refused() {
    let mut c = controller(5);
    assert_eq!(c.begin_claim(&anonymous(), &anonymous(), 0), Err(ClaimError::InvalidPrincipal));
    assert_eq!(
        c.get_claim_status(&anonymous(), 0),
        ClaimStatus { attempts: 0, window_expires: DEFAULT_LIMIT_WINDOW_NS, locked: false }
    );
}

#[test]
fn denied_identity_is_refused_before_any_lock_or_quota_change() {
    let mut config = ClaimConfig::defaults();
    config.denylist = vec![id(1)];
    let mut c = ClaimController::new(config);
    let before = c.get_claim_status(&id(1), 7);
    assert_eq!(c.begin_claim(&id(1), &id(1), 7), Err(ClaimError::Denied));
    assert_eq!(c.get_claim_status(&id(1), 7), before);
    assert_eq!(before, ClaimStatus { attempts: 0, window_expires: 7 + DEFAULT_LIMIT_WINDOW_NS, locked: false });
    assert_eq!(c.get_claim_status(&id(1), 8).window_expires, 8 + DEFAULT_LIMIT_WINDOW_NS);
    assert_eq!(c.begin_claim(&id(2), &id(2), 7), Ok(()));
}

#[test]
fn second_concurrent_claim_is_in_progress_until_the_lock_expires() {
    let mut c = controller(5);
    assert_eq!(c.begin_claim(&id(1), &id(1), 100), Ok(()));
    assert!(c.get_claim_status(&id(1), 100).locked);
    assert_eq!(c.begin_claim(&id(1), &id(1), 101), Err(ClaimError::InProgress));
    assert_eq!(
        c.begin_claim(&id(1), &id(1), 100 + DEFAULT_LOCK_TIMEOUT_NS - 1),
        Err(ClaimError::InProgress)
    );
    assert!(!c.get_claim_status(&id(1), 100 + DEFAULT_LOCK_TIMEOUT_NS).locked);
    assert_eq!(c.begin_claim(&id(1), &id(1), 100 + DEFAULT_LOCK_TIMEOUT_NS), Ok(()));
    assert_eq!(c.begin_claim(&id(2), &id(2), 101), Ok(()));
}

#[test]
fn a_refused_concurrent_claim_still_counts_against_the_quota() {
    let mut c = controller(5);
    assert_eq!(c.begin_claim(&id(1), &id(1), 0), Ok(()));
    assert_eq!(c.begin_claim(&id(1), &id(1), 1), Err(ClaimError::InProgress));
    assert_eq!(c.get_claim_status(&id(1), 1).attempts, 2);
}

#[test]
fn exactly_the_limit_succeeds_per_window() {
    let n = 4u32;
    let mut c = controller(n);
    for i in 0..n {
        assert_eq!(c.begin_claim(&id(1), &id(1), i as u64), Ok(()));
        c.release(&id(1));
    }
    assert_eq!(c.begin_claim(&id(1), &id(1), n as u64), Err(ClaimError::LimitReached));
    assert_eq!(c.begin_claim(&id(1), &id(1), DEFAULT_LIMIT_WINDOW_NS), Err(ClaimError::LimitReached));
    assert_eq!(
        c.get_claim_status(&id(1), 5),
        ClaimStatus { attempts: n, window_expires: DEFAULT_LIMIT_WINDOW_NS, locked: false }
    );
    assert_eq!(c.begin_claim(&id(1), &id(1), DEFAULT_LIMIT_WINDOW_NS + 1), Ok(()));
    assert_eq!(
        c.get_claim_status(&id(1), DEFAULT_LIMIT_WINDOW_NS + 1),
        ClaimStatus { attempts: 1, window_expires: 2 * DEFAULT_LIMIT_WINDOW_NS + 1, locked: true }
    );
}

#[test]
fn a_limit_of_zero_refuses_every_claim() {
    let mut c = controller(0);
    assert_eq!(c.begin_claim(&id(1), &id(1), 0), Err(ClaimError::LimitReached));
    assert_eq!(c.get_claim_status(&id(1), 0).attempts, 0);
}

#[test]
fn whole_claim_spends_per_adapter_and_releases_the_lock() {
    let mut c = controller(5);
    let mut m = Counters::new();
    let asked = Cell::new(0usize);
    let spent = c.claim_all_rewards(&mut m, &id(1), &id(1), 0, 4, |i| {
        asked.set(asked.get() + 1);
        [Some(5), None, Some(7), Some(0)][i]
    });
    assert_eq!(spent, Ok(vec![5, 7, 0]));
    assert_eq!(asked.get(), 4);
    assert!(!c.get_claim_status(&id(1), 0).locked);
    assert_eq!((m.query_count, m.claim_attempts, m.claim_successes), (1, 1, 1));
}

#[test]
fn whole_claim_stops_quietly_at_the_ceiling_and_fails_past_it() {
    let mut config = ClaimConfig::defaults();
    config.max_total = 10;
    let mut c = ClaimController::new(config);
    let mut m = Counters::new();
    let asked = Cell::new(0usize);
    let spent = c.claim_all_rewards(&mut m, &id(1), &id(1), 0, 4, |i| {
        asked.set(asked.get() + 1);
        [Some(4), Some(6), Some(1), Some(1)][i]
    });
    assert_eq!(spent, Ok(vec![4, 6]));
    assert_eq!(asked.get(), 2);

    asked.set(0);
    let failed = c.claim_all_rewards(&mut m, &id(2), &id(2), 0, 4, |i| {
        asked.set(asked.get() + 1);
        [Some(4), Some(7), Some(1), Some(1)][i]
    });
    assert_eq!(failed, Err(ClaimError::TotalExceeded));
    assert_eq!(asked.get(), 2);
    assert!(!c.get_claim_status(&id(2), 0).locked);
    assert_eq!((m.claim_attempts, m.claim_successes), (2, 1));
}

#[test]
fn whole_claim_asks_no_more_adapters_than_one_call_may() {
    let mut config = ClaimConfig::defaults();
    config.max_per_call = 2;
    let mut c = ClaimController::new(config);
    let mut m = Counters::new();
    let spent = c.claim_all_rewards(&mut m, &id(1), &id(1), 0, 4, |i| Some(i as u64 + 1));
    assert_eq!(spent, Ok(vec![1, 2]));
    assert_eq!(c.adapters_per_call(4), 2);
    assert_eq!(c.adapters_per_call(1), 1);
}

#[test]
fn whole_claim_that_is_refused_asks_no_adapter() {
    let mut c = controller(5);
    let mut m = Counters::new();
    let asked = Cell::new(false);
    let r = c.claim_all_rewards(&mut m, &id(2), &id(1), 0, 4, |_| {
        asked.set(true);
        Some(1)
    });
    assert_eq!(r, Err(ClaimError::Unauthorized));
    assert!(!asked.get());
    assert_eq!((m.query_count, m.claim_attempts, m.claim_successes), (1, 1, 0));
}

#[test]
fn run_total_is_held_at_the_largest_value() {
    let c = controller(5);
    let mut run = c.start_run();
    assert!(run.wants_next());
    assert_eq!(run.record(Some(u64::MAX - 1)), Ok(()));
    assert!(run.wants_next());
    assert_eq!(run.record(Some(5)), Ok(()));
    assert!(!run.wants_next());
    assert_eq!(run.finish(), vec![u64::MAX - 1, 5]);
}

#[test]
fn failed_and_timed_out_claims_are_skipped() {
    assert_eq!(claim_with_timeout(Some(Ok(3))), Some(3));
    assert_eq!(claim_with_timeout(Some(Err("failed".to_string()))), None);
    assert_eq!(claim_with_timeout(None), None);
}

#[test]
fn claim_errors_have_the_documented_text() {
    assert_eq!(ClaimError::Unauthorized.message(), "unauthorized");
    assert_eq!(ClaimError::InvalidPrincipal.message(), "invalid principal");
    assert_eq!(ClaimError::Denied.message(), "denied");
    assert_eq!(ClaimError::LimitReached.message(), "claim limit reached");
    assert_eq!(ClaimError::InProgress.message(), "claim already in progress");
    assert_eq!(ClaimError::TotalExceeded.message(), "claim total exceeded");
}
