use aggregator::metrics::{Counters, Metrics};

#[test]
fn counters_count() {
    let mut c = Counters::new();
    c.inc_query();
    c.inc_query();
    c.inc_claim_attempt();
    c.inc_claim_success();
    c.inc_cycle_refill_attempt();
    c.inc_cycle_refill_success();
    c.inc_heartbeat(77);
    assert_eq!(
        c.get(9),
        Metrics {
            cycles: 9,
            query_count: 2,
            heartbeat_count: 1,
            last_heartbeat: 77,
            claim_attempts: 1,
            claim_successes: 1,
            cycle_refill_attempts: 1,
            cycle_refill_successes: 1,
        }
    );
}

#[test]
fn counters_survive_an_upgrade() {
    let mut c = Counters::new();
    c.inc_heartbeat(5);
    c.inc_heartbeat(6);
    c.inc_query();
    let saved = c.stable_save();
    assert_eq!(saved, (1, 2, 6, 0, 0, 0, 0));
    let mut fresh = Counters::new();
    fresh.stable_restore(saved);
    assert_eq!(fresh, c);
    fresh.stable_restore((1, 2, 3, 4, 5, 6, 7));
    assert_eq!(fresh.stable_save(), (1, 2, 3, 4, 5, 6, 7));
}

#[test]
fn a_counter_starts_over_after_its_largest_value() {
    let mut c = Counters::new();
    c.stable_restore((u64::MAX, 0, 0, 0, 0, 0, 0));
    c.inc_query();
    assert_eq!(c.query_count, 0);
}
