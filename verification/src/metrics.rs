//! Counters of what the service has done, and their snapshot.

use vstd::prelude::*;

verus! {

/// A snapshot of the counters together with the host's balance.
#[derive(Debug, Clone, Copy, PartialEq, Eq, Structural)]
pub struct Metrics {
    /// Spendable balance of the host at the time of the snapshot.
    pub cycles: u128,
    /// Inbound calls served.
    pub query_count: u64,
    /// Heartbeats seen.
    pub heartbeat_count: u64,
    /// Time of the last heartbeat.
    pub last_heartbeat: u64,
    /// Claims attempted.
    pub claim_attempts: u64,
    /// Claims completed.
    pub claim_successes: u64,
    /// Replenishments requested.
    pub cycle_refill_attempts: u64,
    /// Replenishments that raised the balance.
    pub cycle_refill_successes: u64,
}

/// The running counters.
#[derive(Debug, Clone, Copy, PartialEq, Eq, Structural)]
pub struct Counters {
    /// Inbound calls served.
    pub query_count: u64,
    /// Heartbeats seen.
    pub heartbeat_count: u64,
    /// Time of the last heartbeat.
    pub last_heartbeat: u64,
    /// Claims attempted.
    pub claim_attempts: u64,
    /// Claims completed.
    pub claim_successes: u64,
    /// Replenishments requested.
    pub cycle_refill_attempts: u64,
    /// Replenishments that raised the balance.
    pub cycle_refill_successes: u64,
}

/// A counter after one more event; it starts over after its largest value.
pub open spec fn bumped(count: u64) -> u64 {
    if count == u64::MAX {
        0
    } else {
        (count + 1) as u64
    }
}

fn bump(count: u64) -> (r: u64)
    ensures
        r == bumped(count),
{
    if count == u64::MAX {
        0
    } else {
        count + 1
    }
}

/// All counters at zero.
pub open spec fn zeroed() -> Counters {
    Counters {
        query_count: 0,
        heartbeat_count: 0,
        last_heartbeat: 0,
        claim_attempts: 0,
        claim_successes: 0,
        cycle_refill_attempts: 0,
        cycle_refill_successes: 0,
    }
}

impl Counters {
    /// All counters at zero.
    pub fn new() -> (c: Counters)
        ensures
            c == zeroed(),
    {
        Counters {
            query_count: 0,
            heartbeat_count: 0,
            last_heartbeat: 0,
            claim_attempts: 0,
            claim_successes: 0,
            cycle_refill_attempts: 0,
            cycle_refill_successes: 0,
        }
    }

    /// Counts one inbound call.
    pub fn inc_query(&mut self)
        ensures
            *final(self) == (Counters { query_count: bumped(old(self).query_count), ..*old(self) }),
    {
        self.query_count = bump(self.query_count);
    }

    /// Counts one attempted claim.
    pub fn inc_claim_attempt(&mut self)
        ensures
            *final(self) == (Counters {
                claim_attempts: bumped(old(self).claim_attempts),
                ..*old(self)
            }),
    {
        self.claim_attempts = bump(self.claim_attempts);
    }

    /// Counts one completed claim.
    pub fn inc_claim_success(&mut self)
        ensures
            *final(self) == (Counters {
                claim_successes: bumped(old(self).claim_successes),
                ..*old(self)
            }),
    {
        self.claim_successes = bump(self.claim_successes);
    }

    /// Counts one requested replenishment.
    pub fn inc_cycle_refill_attempt(&mut self)
        ensures
            *final(self) == (Counters {
                cycle_refill_attempts: bumped(old(self).cycle_refill_attempts),
                ..*old(self)
            }),
    {
        self.cycle_refill_attempts = bump(self.cycle_refill_attempts);
    }

    /// Counts one replenishment that raised the balance.
    pub fn inc_cycle_refill_success(&mut self)
        ensures
            *final(self) == (Counters {
                cycle_refill_successes: bumped(old(self).cycle_refill_successes),
                ..*old(self)
            }),
    {
        self.cycle_refill_successes = bump(self.cycle_refill_successes);
    }

    /// Counts one heartbeat and records its time.
    pub fn inc_heartbeat(&mut self, now: u64)
        ensures
            *final(self) == (Counters {
                heartbeat_count: bumped(old(self).heartbeat_count),
                last_heartbeat: now,
                ..*old(self)
            }),
    {
        self.heartbeat_count = bump(self.heartbeat_count);
        self.last_heartbeat = now;
    }

    /// The counters as they stand, beside the host's balance `cycles`.
    pub fn get(&self, cycles: u128) -> (m: Metrics)
        ensures
            m == (Metrics {
                cycles,
                query_count: self.query_count,
                heartbeat_count: self.heartbeat_count,
                last_heartbeat: self.last_heartbeat,
                claim_attempts: self.claim_attempts,
                claim_successes: self.claim_successes,
                cycle_refill_attempts: self.cycle_refill_attempts,
                cycle_refill_successes: self.cycle_refill_successes,
            }),
    {
        Metrics {
            cycles,
            query_count: self.query_count,
            heartbeat_count: self.heartbeat_count,
            last_heartbeat: self.last_heartbeat,
            claim_attempts: self.claim_attempts,
            claim_successes: self.claim_successes,
            cycle_refill_attempts: self.cycle_refill_attempts,
            cycle_refill_successes: self.cycle_refill_successes,
        }
    }

    /// The counters as a tuple to persist: calls, heartbeats, last heartbeat,
    /// claim attempts, claim successes, replenishment attempts,
    /// replenishment successes.
    pub fn stable_save(&self) -> (data: (u64, u64, u64, u64, u64, u64, u64))
        ensures
            data == saved(*self),
    {
        (
            self.query_count,
            self.heartbeat_count,
            self.last_heartbeat,
            self.claim_attempts,
            self.claim_successes,
            self.cycle_refill_attempts,
            self.cycle_refill_successes,
        )
    }

    /// Replaces the counters by a persisted tuple.
    pub fn stable_restore(&mut self, data: (u64, u64, u64, u64, u64, u64, u64))
        ensures
            *final(self) == restored(data),
    {
        self.query_count = data.0;
        self.heartbeat_count = data.1;
        self.last_heartbeat = data.2;
        self.claim_attempts = data.3;
        self.claim_successes = data.4;
        self.cycle_refill_attempts = data.5;
        self.cycle_refill_successes = data.6;
    }
}

/// The tuple that persists the counters `c`.
pub open spec fn saved(c: Counters) -> (u64, u64, u64, u64, u64, u64, u64) {
    (
        c.query_count,
        c.heartbeat_count,
        c.last_heartbeat,
        c.claim_attempts,
        c.claim_successes,
        c.cycle_refill_attempts,
        c.cycle_refill_successes,
    )
}

/// The counters that a persisted tuple stands for.
pub open spec fn restored(data: (u64, u64, u64, u64, u64, u64, u64)) -> Counters {
    Counters {
        query_count: data.0,
        heartbeat_count: data.1,
        last_heartbeat: data.2,
        claim_attempts: data.3,
        claim_successes: data.4,
        cycle_refill_attempts: data.5,
        cycle_refill_successes: data.6,
    }
}

/// Counters survive an upgrade: restoring what was saved gives them back.
pub proof fn lemma_save_restore(c: Counters)
    ensures
        restored(saved(c)) == c,
{
}

} // verus!
