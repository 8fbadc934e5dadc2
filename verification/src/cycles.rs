//! Watches the host's spendable balance and paces replenishment attempts
//! with an exponential backoff.

use crate::utils::{decimal_string, digits_in, lemma_pow2_monotonic, pow2, MINUTE_NS};
use vstd::prelude::*;

verus! {

/// Balance below which a replenishment is requested.
pub const MIN_BALANCE: u128 = 500_000_000_000;

/// Capacity of the event log.
pub const LOG_LIMIT: usize = 100;

/// Backoff ceiling, in minutes, when none is configured.
pub const DEFAULT_MAX_BACKOFF_MINUTES: u64 = 60;

/// The smaller of two numbers.
pub open spec fn min_nat(a: nat, b: nat) -> nat {
    if a <= b {
        a
    } else {
        b
    }
}

/// The configured ceiling, in minutes; zero counts as one.
pub open spec fn ceiling_of(max: nat) -> nat {
    if max < 1 {
        1
    } else {
        max
    }
}

/// Minutes to wait after a failure that follows `fails` consecutive
/// failures: two to the power `fails`, held at the configured ceiling.
pub open spec fn backoff_minutes(fails: nat, max: nat) -> nat {
    min_nat(pow2(fails), ceiling_of(max))
}

/// Computes [`backoff_minutes`]. The doubling stops as soon as the ceiling
/// is reached, so nothing overflows however many failures there were.
pub fn compute_backoff_minutes(fails: u8, max: u64) -> (m: u64)
    ensures
        m == backoff_minutes(fails as nat, max as nat),
        1 <= m <= ceiling_of(max as nat),
{
    let ceiling: u64 = if max < 1 { 1 } else { max };
    let mut power: u64 = 1;
    let mut i: u8 = 0;
    while i < fails && power < ceiling
        invariant
            i <= fails,
            power == pow2(i as nat),
            ceiling == ceiling_of(max as nat),
        decreases fails - i,
    {
        if power > u64::MAX / 2 {
            proof {
                lemma_pow2_monotonic(i as nat + 1, fails as nat);
            }
            return ceiling;
        }
        power = power * 2;
        i += 1;
    }
    proof {
        lemma_pow2_monotonic(i as nat, fails as nat);
    }
    if power < ceiling {
        power
    } else {
        ceiling
    }
}

/// What the monitor asks of its caller after a heartbeat.
#[derive(Debug, Clone, Copy, PartialEq, Eq, Structural)]
pub enum TickAction {
    /// A backoff is running: nothing was looked at.
    Backoff,
    /// The last check is less than a minute old.
    TooSoon,
    /// The balance is at or above the threshold.
    Healthy,
    /// The balance is low and no replenishment source is configured.
    NoWallet,
    /// The balance is low: request a replenishment, then report its outcome
    /// with [`CycleMonitor::settle_refill`].
    Refill,
}

/// State of the replenishment monitor.
pub struct CycleMonitor {
    last_check: u64,
    backoff_until: u64,
    failures: u8,
    max_backoff: u64,
    log: Vec<String>,
}

/// Mathematical value of a [`CycleMonitor`].
pub struct CycleMonitorView {
    /// Time of the last balance check.
    pub last_check: u64,
    /// Time before which no check runs.
    pub backoff_until: u64,
    /// Consecutive failed replenishments.
    pub failures: u8,
    /// Configured backoff ceiling, in minutes.
    pub max_backoff: u64,
    /// The event log, oldest entry first.
    pub log: Seq<Seq<char>>,
}

/// The texts of a list of strings.
pub open spec fn texts(entries: Seq<String>) -> Seq<Seq<char>> {
    entries.map_values(|s: String| s@)
}

/// A log with one more entry, the oldest dropped when the log is full.
pub open spec fn pushed(log: Seq<Seq<char>>, entry: Seq<char>) -> Seq<Seq<char>> {
    if log.len() >= LOG_LIMIT {
        log.skip(log.len() - LOG_LIMIT + 1).push(entry)
    } else {
        log.push(entry)
    }
}

/// The last [`LOG_LIMIT`] entries of a log.
pub open spec fn newest(log: Seq<Seq<char>>) -> Seq<Seq<char>> {
    if log.len() > LOG_LIMIT {
        log.skip(log.len() - LOG_LIMIT)
    } else {
        log
    }
}

/// The log entry of a successful replenishment.
pub open spec fn success_entry(now: u64, balance: u128) -> Seq<char> {
    digits_in(now as nat, 10) + ": refilled to "@ + digits_in(balance as nat, 10)
}

/// The log entry of a failed replenishment.
pub open spec fn failure_entry(now: u64, minutes: u64) -> Seq<char> {
    digits_in(now as nat, 10) + ": refill failed, backoff "@ + digits_in(minutes as nat, 10) + "m"@
}

/// True when a check is allowed at `now`: no backoff is running and the last
/// check is at least a minute old.
pub open spec fn check_due(v: CycleMonitorView, now: u64) -> bool {
    now >= v.backoff_until && now - v.last_check >= MINUTE_NS
}

/// What a heartbeat at `now` asks for.
pub open spec fn tick_action(v: CycleMonitorView, now: u64, balance: u128, wallet: bool)
    -> TickAction {
    if now < v.backoff_until {
        TickAction::Backoff
    } else if now - v.last_check < MINUTE_NS {
        TickAction::TooSoon
    } else if balance >= MIN_BALANCE {
        TickAction::Healthy
    } else if !wallet {
        TickAction::NoWallet
    } else {
        TickAction::Refill
    }
}

/// The state after a heartbeat at `now`: a check that runs is recorded.
pub open spec fn after_tick(v: CycleMonitorView, now: u64) -> CycleMonitorView {
    if check_due(v, now) {
        CycleMonitorView { last_check: now, ..v }
    } else {
        v
    }
}

/// True when a replenishment counts as done: the call succeeded and the
/// balance grew.
pub open spec fn refill_succeeded(before: u128, after: u128, call_ok: bool) -> bool {
    call_ok && after > before
}

/// The state after a successful replenishment at `now`.
pub open spec fn after_success(v: CycleMonitorView, now: u64, balance: u128) -> CycleMonitorView {
    CycleMonitorView {
        failures: 0,
        backoff_until: now,
        log: pushed(v.log, success_entry(now, balance)),
        ..v
    }
}

/// Minutes of backoff that a failure in state `v` imposes.
pub open spec fn next_delay(v: CycleMonitorView) -> nat {
    backoff_minutes(v.failures as nat, v.max_backoff as nat)
}

/// The state after a failed replenishment at `now`.
pub open spec fn after_failure(v: CycleMonitorView, now: u64) -> CycleMonitorView {
    CycleMonitorView {
        failures: if v.failures < 255 { (v.failures + 1) as u8 } else { 255u8 },
        backoff_until: (now + next_delay(v) * MINUTE_NS) as u64,
        log: pushed(v.log, failure_entry(now, next_delay(v) as u64)),
        ..v
    }
}

/// The state after the failed replenishments at the times `nows`, in order.
pub open spec fn after_failures(v: CycleMonitorView, nows: Seq<u64>) -> CycleMonitorView
    decreases nows.len(),
{
    if nows.len() == 0 {
        v
    } else {
        after_failure(after_failures(v, nows.drop_last()), nows.last())
    }
}

impl View for CycleMonitor {
    type V = CycleMonitorView;

    closed spec fn view(&self) -> CycleMonitorView {
        CycleMonitorView {
            last_check: self.last_check,
            backoff_until: self.backoff_until,
            failures: self.failures,
            max_backoff: self.max_backoff,
            log: texts(self.log@),
        }
    }
}

/// Copies a list of strings.
pub fn clone_strings(items: &Vec<String>) -> (r: Vec<String>)
    ensures
        texts(r@) == texts(items@),
{
    let mut out: Vec<String> = Vec::with_capacity(items.len());
    let mut i: usize = 0;
    while i < items.len()
        invariant
            i <= items.len(),
            out.len() == i,
            forall|j: int| 0 <= j < i ==> out@[j]@ == items@[j]@,
        decreases items.len() - i,
    {
        out.push(items[i].clone());
        i += 1;
    }
    proof {
        assert(texts(out@) =~= texts(items@));
    }
    out
}

impl CycleMonitor {
    #[verifier::type_invariant]
    spec fn bounded(self) -> bool {
        self.log@.len() <= LOG_LIMIT
    }

    /// A monitor that has never checked, with the given backoff ceiling in
    /// minutes, or [`DEFAULT_MAX_BACKOFF_MINUTES`] when none is given.
    pub fn new(max_backoff: Option<u64>) -> (m: CycleMonitor)
        ensures
            m@ == (CycleMonitorView {
                last_check: 0,
                backoff_until: 0,
                failures: 0,
                max_backoff: match max_backoff {
                    Some(minutes) => minutes,
                    None => DEFAULT_MAX_BACKOFF_MINUTES,
                },
                log: Seq::<Seq<char>>::empty(),
            }),
    {
        let ceiling = match max_backoff {
            Some(minutes) => minutes,
            None => DEFAULT_MAX_BACKOFF_MINUTES,
        };
        let m = CycleMonitor {
            last_check: 0,
            backoff_until: 0,
            failures: 0,
            max_backoff: ceiling,
            log: Vec::new(),
        };
        proof {
            assert(texts(m.log@) =~= Seq::<Seq<char>>::empty());
        }
        m
    }

    /// The configured backoff ceiling, in minutes.
    pub fn max_backoff_minutes(&self) -> (m: u64)
        ensures
            m == self@.max_backoff,
    {
        self.max_backoff
    }

    /// Consecutive failed replenishments so far.
    pub fn failures(&self) -> (f: u8)
        ensures
            f == self@.failures,
    {
        self.failures
    }

    /// Time before which no check runs.
    pub fn backoff_until(&self) -> (t: u64)
        ensures
            t == self@.backoff_until,
    {
        self.backoff_until
    }

    /// Appends an entry to the event log, dropping the oldest when full.
    pub fn push_log(&mut self, entry: String)
        ensures
            final(self)@ == (CycleMonitorView { log: pushed(old(self)@.log, entry@), ..old(self)@ }),
            final(self)@.log.len() <= LOG_LIMIT,
    {
        proof {
            use_type_invariant(&*self);
        }
        let mut log: Vec<String> = Vec::new();
        std::mem::swap(&mut self.log, &mut log);
        if log.len() >= LOG_LIMIT {
            log.remove(0);
        }
        log.push(entry);
        proof {
            assert(texts(log@) =~= pushed(texts(old(self).log@), entry@));
        }
        self.log = log;
    }

    /// A copy of the event log, oldest entry first.
    pub fn log(&self) -> (r: Vec<String>)
        ensures
            texts(r@) == self@.log,
            r@.len() <= LOG_LIMIT,
    {
        proof {
            use_type_invariant(self);
        }
        let r = clone_strings(&self.log);
        proof {
            assert(texts(r@).len() == r@.len());
            assert(texts(self.log@).len() == self.log@.len());
        }
        r
    }

    /// Hands out the event log and leaves it empty.
    pub fn take_log(&mut self) -> (r: Vec<String>)
        ensures
            texts(r@) == old(self)@.log,
            final(self)@ == (CycleMonitorView { log: Seq::<Seq<char>>::empty(), ..old(self)@ }),
    {
        let mut taken: Vec<String> = Vec::new();
        std::mem::swap(&mut self.log, &mut taken);
        proof {
            assert(texts(self.log@) =~= Seq::<Seq<char>>::empty());
        }
        taken
    }

    /// Replaces the event log by the newest [`LOG_LIMIT`] entries of `log`.
    pub fn set_log(&mut self, log: Vec<String>)
        ensures
            final(self)@ == (CycleMonitorView { log: newest(texts(log@)), ..old(self)@ }),
    {
        let ghost given = log@;
        let mut log = log;
        if log.len() > LOG_LIMIT {
            let cut: usize = log.len() - LOG_LIMIT;
            let kept = log.split_off(cut);
            proof {
                assert(kept@ =~= given.skip(cut as int));
                assert(texts(kept@) =~= newest(texts(given)));
            }
            self.log = kept;
        } else {
            self.log = log;
        }
    }

    /// Decides what a heartbeat at `now` does, given the host's balance and
    /// whether a replenishment source is configured. A check that runs is
    /// recorded, so that the next one is at least a minute away.
    pub fn tick(&mut self, now: u64, balance: u128, wallet: bool) -> (action: TickAction)
        ensures
            action == tick_action(old(self)@, now, balance, wallet),
            final(self)@ == after_tick(old(self)@, now),
    {
        proof {
            use_type_invariant(&*self);
        }
        if now < self.backoff_until {
            return TickAction::Backoff;
        }
        if now < self.last_check || now - self.last_check < MINUTE_NS {
            return TickAction::TooSoon;
        }
        self.last_check = now;
        if balance >= MIN_BALANCE {
            TickAction::Healthy
        } else if !wallet {
            TickAction::NoWallet
        } else {
            TickAction::Refill
        }
    }

    /// Records the outcome of a replenishment requested at `now`: the balance
    /// before and after the request, and whether the request itself
    /// succeeded. Returns whether the replenishment counts as done.
    pub fn settle_refill(&mut self, now: u64, before: u128, after: u128, call_ok: bool) -> (done:
        bool)
        requires
            now + next_delay(old(self)@) * MINUTE_NS <= u64::MAX,
        ensures
            done == refill_succeeded(before, after, call_ok),
            done ==> final(self)@ == after_success(old(self)@, now, after),
            !done ==> final(self)@ == after_failure(old(self)@, now),
    {
        proof {
            use_type_invariant(&*self);
        }
        let stamp = decimal_string(now as u128);
        if call_ok && after > before {
            self.failures = 0;
            self.backoff_until = now;
            let entry = stamp.concat(": refilled to ").concat(decimal_string(after).as_str());
            self.push_log(entry);
            true
        } else {
            let minutes = compute_backoff_minutes(self.failures, self.max_backoff);
            self.failures = if self.failures < 255 { self.failures + 1 } else { 255 };
            self.backoff_until = now + minutes * MINUTE_NS;
            let entry = stamp.concat(": refill failed, backoff ").concat(
                decimal_string(minutes as u128).as_str(),
            ).concat("m");
            self.push_log(entry);
            false
        }
    }
}

/// The delays grow as 1, 2, 4, 8, ... minutes: after `k` consecutive
/// failures the next one waits two to the power `k`, as long as that is
/// within the configured ceiling.
pub proof fn lemma_backoff_doubles(k: nat, max: nat)
    requires
        pow2(k) <= max,
    ensures
        backoff_minutes(k, max) == pow2(k),
{
    lemma_pow2_monotonic(0, k);
}

/// No delay exceeds the configured ceiling (a ceiling of zero counting as
/// one), every delay is at least a minute, and past the ceiling the delay
/// is the ceiling.
pub proof fn lemma_backoff_capped(k: nat, max: nat)
    ensures
        1 <= backoff_minutes(k, max) <= ceiling_of(max),
        pow2(k) >= ceiling_of(max) ==> backoff_minutes(k, max) == ceiling_of(max),
{
    lemma_pow2_monotonic(0, k);
}

/// The delay never shrinks as failures go on.
pub proof fn lemma_backoff_grows(k: nat, later: nat, max: nat)
    requires
        k <= later,
    ensures
        backoff_minutes(k, max) <= backoff_minutes(later, max),
{
    lemma_pow2_monotonic(k, later);
}

/// Consecutive failures after a success: the `i`-th of them (counted from
/// zero) sets the backoff deadline `min(2^i, ceiling)` minutes after its own
/// time, and leaves `i + 1` failures on record.
pub proof fn lemma_consecutive_failures(v: CycleMonitorView, nows: Seq<u64>)
    requires
        v.failures == 0,
        0 < nows.len() <= 255,
        forall|j: int|
            0 <= j < nows.len() ==> #[trigger] nows[j] + backoff_minutes(
                j as nat,
                v.max_backoff as nat,
            ) * MINUTE_NS <= u64::MAX,
    ensures
        after_failures(v, nows).failures == nows.len(),
        after_failures(v, nows).max_backoff == v.max_backoff,
        after_failures(v, nows).backoff_until == nows.last() + backoff_minutes(
            (nows.len() - 1) as nat,
            v.max_backoff as nat,
        ) * MINUTE_NS,
    decreases nows.len(),
{
    let prev = after_failures(v, nows.drop_last());
    if nows.len() > 1 {
        assert forall|j: int| 0 <= j < nows.drop_last().len() implies #[trigger] nows.drop_last()[j]
            + backoff_minutes(j as nat, v.max_backoff as nat) * MINUTE_NS <= u64::MAX by {
            assert(nows.drop_last()[j] == nows[j]);
        }
        lemma_consecutive_failures(v, nows.drop_last());
    }
    assert(prev.failures == nows.len() - 1);
    assert(prev.max_backoff == v.max_backoff);
    assert(nows.last() == nows[nows.len() - 1]);
}

/// A success resets the count: the failure that follows it waits one minute.
pub proof fn lemma_success_resets(v: CycleMonitorView, now: u64, balance: u128)
    ensures
        after_success(v, now, balance).failures == 0,
        after_success(v, now, balance).backoff_until == now,
        next_delay(after_success(v, now, balance)) == 1,
{
    reveal_with_fuel(pow2, 2);
}

} // verus!
