use aggregator::cycles::{compute_backoff_minutes, CycleMonitor, TickAction, LOG_LIMIT, MIN_BALANCE};
use aggregator::utils::MINUTE_NS;

#[test]
fn backoff_growth_and_cap() {
    assert_eq!(compute_backoff_minutes(0, 60), 1);
    assert_eq!(compute_backoff_minutes(1, 60), 2);
    assert_eq!(compute_backoff_minutes(5, 60), 32);
    assert_eq!(compute_backoff_minutes(7, 60), 60);
}

#[test]
fn backoff_is_held_at_the_configured_ceiling_only() {
    assert_eq!(compute_backoff_minutes(6, 1000), 64);
    assert_eq!(compute_backoff_minutes(7, 100), 100);
    assert_eq!(compute_backoff_minutes(7, 1000), 128);
    assert_eq!(compute_backoff_minutes(9, 1000), 512);
    assert_eq!(compute_backoff_minutes(10, 1000), 1000);
    assert_eq!(compute_backoff_minutes(200, 1000), 1000);
    assert_eq!(compute_backoff_minutes(63, u64::MAX), 1u64 << 63);
    assert_eq!(compute_backoff_minutes(64, u64::MAX), u64::MAX);
    assert_eq!(compute_backoff_minutes(255, u64::MAX), u64::MAX);
}

#[test]
fn deadline_after_seven_failures_follows_the_ceiling() {
    let mut m = CycleMonitor::new(Some(100));
    let mut now = 0;
    for _ in 0..7 {
        m.settle_refill(now, 0, 0, false);
        now = m.backoff_until();
    }
    assert!(!m.settle_refill(now, 0, 0, false));
    assert_eq!(m.backoff_until(), now + 100 * MINUTE_NS);
    assert_eq!(m.log().last().unwrap(), &format!("{now}: refill failed, backoff 100m"));
}

#[test]
fn backoff_ceiling_of_zero_counts_as_one() {
    assert_eq!(compute_backoff_minutes(0, 0), 1);
    assert_eq!(compute_backoff_minutes(9, 0), 1);
    assert_eq!(compute_backoff_minutes(3, 1), 1);
}

#[test]
fn consecutive_failures_double_the_delay() {
    let mut m = CycleMonitor::new(Some(60));
    let start = 1_000 * MINUTE_NS;
    let expected = [1u64, 2, 4, 8, 16, 32, 60, 60];
    let mut now = start;
    for (i, minutes) in expected.iter().enumerate() {
        let done = m.settle_refill(now, 10, 10, true);
        assert!(!done);
        assert_eq!(m.backoff_until(), now + minutes * MINUTE_NS);
        assert_eq!(m.failures() as usize, i + 1);
        now = m.backoff_until();
    }
}

#[test]
fn success_resets_the_next_delay_to_one_minute() {
    let mut m = CycleMonitor::new(None);
    assert_eq!(m.max_backoff_minutes(), 60);
    assert!(!m.settle_refill(5, 1, 1, true));
    assert!(!m.settle_refill(6, 1, 1, false));
    assert!(!m.settle_refill(7, 1, 2, false));
    assert_eq!(m.failures(), 3);
    assert!(m.settle_refill(8, 1, 2, true));
    assert_eq!(m.failures(), 0);
    assert_eq!(m.backoff_until(), 8);
    assert!(!m.settle_refill(9, 2, 2, true));
    assert_eq!(m.backoff_until(), 9 + MINUTE_NS);
}

#[test]
fn failure_count_is_held_at_its_largest_value() {
    let mut m = CycleMonitor::new(Some(1));
    for i in 0..300u64 {
        m.settle_refill(i, 0, 0, false);
    }
    assert_eq!(m.failures(), 255);
}

#[test]
fn log_entries_have_the_documented_text() {
    let mut m = CycleMonitor::new(Some(60));
    m.settle_refill(42, 1, 7_000_000_000_000, true);
    m.settle_refill(43, 1, 1, true);
    assert_eq!(
        m.log(),
        vec![
            "42: refilled to 7000000000000".to_string(),
            "43: refill failed, backoff 1m".to_string()
        ]
    );
}

#[test]
fn tick_waits_for_backoff_minute_balance_and_wallet() {
    let mut m = CycleMonitor::new(Some(60));
    let t0 = 10 * MINUTE_NS;
    assert_eq!(m.tick(t0, MIN_BALANCE, true), TickAction::Healthy);
    assert_eq!(m.tick(t0 + 1, 0, true), TickAction::TooSoon);
    assert_eq!(m.tick(t0 + MINUTE_NS - 1, 0, true), TickAction::TooSoon);
    assert_eq!(m.tick(t0 + MINUTE_NS, MIN_BALANCE - 1, false), TickAction::NoWallet);
    assert_eq!(m.tick(t0 + 2 * MINUTE_NS, MIN_BALANCE - 1, true), TickAction::Refill);
    assert!(!m.settle_refill(t0 + 2 * MINUTE_NS, 5, 5, true));
    assert_eq!(m.tick(t0 + 3 * MINUTE_NS - 1, 0, true), TickAction::Backoff);
    assert_eq!(m.tick(t0 + 3 * MINUTE_NS, 0, true), TickAction::Refill);
}

#[test]
fn tick_with_a_clock_that_runs_backwards_does_not_check() {
    let mut m = CycleMonitor::new(None);
    assert_eq!(m.tick(100 * MINUTE_NS, 0, true), TickAction::Refill);
    assert_eq!(m.tick(50 * MINUTE_NS, 0, true), TickAction::TooSoon);
}

#[test]
fn log_is_a_ring_of_one_hundred() {
    let mut m = CycleMonitor::new(None);
    for i in 0..(LOG_LIMIT + 5) {
        m.push_log(format!("e{i}"));
    }
    let log = m.log();
    assert_eq!(log.len(), LOG_LIMIT);
    assert_eq!(log[0], "e5");
    assert_eq!(log[LOG_LIMIT - 1], format!("e{}", LOG_LIMIT + 4));
}

#[test]
fn take_log_empties_and_set_log_keeps_the_newest() {
    let mut m = CycleMonitor::new(None);
    m.push_log("a".to_string());
    m.push_log("b".to_string());
    assert_eq!(m.take_log(), vec!["a".to_string(), "b".to_string()]);
    assert!(m.log().is_empty());
    let long: Vec<String> = (0..250).map(|i| format!("x{i}")).collect();
    m.set_log(long);
    let log = m.log();
    assert_eq!(log.len(), LOG_LIMIT);
    assert_eq!(log[0], "x150");
    assert_eq!(log[99], "x249");
    m.set_log(vec!["only".to_string()]);
    assert_eq!(m.log(), vec!["only".to_string()]);
}
