//! The claim controller: authorization, a quota per identity and window, one lock
//! per identity, and a ceiling on what one claim may spend.

use crate::identity::{anonymous_bytes, contains_identity, identity_views, Identity};
use crate::identity_map::IdentityMap;
use crate::metrics::{bumped, Counters};
use crate::utils::DAY_NS;
use vstd::prelude::*;

verus! {

/// Lifetime of a lock when none is configured: five minutes.
pub const DEFAULT_LOCK_TIMEOUT_NS: u64 = 300_000_000_000;

/// Length of the quota window when none is configured: one day.
pub const DEFAULT_LIMIT_WINDOW_NS: u64 = DAY_NS;

/// Claims per identity and window when no limit is configured.
pub const DEFAULT_DAILY_LIMIT: u32 = 5;

/// Seconds given to one adapter's claim when none are configured.
pub const DEFAULT_ADAPTER_TIMEOUT_SECS: u64 = 10;

/// Why a claim was refused or stopped.
#[derive(Debug, Clone, Copy, PartialEq, Eq, Structural)]
pub enum ClaimError {
    /// The caller is neither the identity nor on the allowlist.
    Unauthorized,
    /// The identity is the anonymous one.
    InvalidPrincipal,
    /// The identity is on the denylist.
    Denied,
    /// The identity has used up its claims for the window.
    LimitReached,
    /// A claim for the identity is running.
    InProgress,
    /// The claim spent more than the global ceiling.
    TotalExceeded,
}

/// The text shown for a claim error.
pub open spec fn claim_error_text(e: ClaimError) -> Seq<char> {
    match e {
        ClaimError::Unauthorized => "unauthorized"@,
        ClaimError::InvalidPrincipal => "invalid principal"@,
        ClaimError::Denied => "denied"@,
        ClaimError::LimitReached => "claim limit reached"@,
        ClaimError::InProgress => "claim already in progress"@,
        ClaimError::TotalExceeded => "claim total exceeded"@,
    }
}

impl ClaimError {
    /// The user-visible text of this error.
    pub fn message(&self) -> (s: &'static str)
        ensures
            s@ == claim_error_text(*self),
    {
        match self {
            ClaimError::Unauthorized => "unauthorized",
            ClaimError::InvalidPrincipal => "invalid principal",
            ClaimError::Denied => "denied",
            ClaimError::LimitReached => "claim limit reached",
            ClaimError::InProgress => "claim already in progress",
            ClaimError::TotalExceeded => "claim total exceeded",
        }
    }
}

/// The numeric and list parameters of the claim controller.
pub struct ClaimConfig {
    /// Callers that may claim for any identity.
    pub wallets: Vec<Identity>,
    /// Identities that may not claim.
    pub denylist: Vec<Identity>,
    /// Lifetime of a lock.
    pub lock_timeout_ns: u64,
    /// Length of the quota window.
    pub window_ns: u64,
    /// Claims per identity and window.
    pub daily_limit: u32,
    /// Ceiling on what one claim may spend over all adapters.
    pub max_total: u64,
    /// Largest number of adapters asked in one claim.
    pub max_per_call: usize,
}

impl ClaimConfig {
    /// The configuration used when nothing is configured: empty lists, a
    /// five-minute lock, five claims a day, no ceiling and no adapter cap.
    pub fn defaults() -> (c: ClaimConfig)
        ensures
            c.wallets@.len() == 0,
            c.denylist@.len() == 0,
            c.lock_timeout_ns == DEFAULT_LOCK_TIMEOUT_NS,
            c.window_ns == DEFAULT_LIMIT_WINDOW_NS,
            c.daily_limit == DEFAULT_DAILY_LIMIT,
            c.max_total == u64::MAX,
            c.max_per_call == usize::MAX,
    {
        ClaimConfig {
            wallets: Vec::new(),
            denylist: Vec::new(),
            lock_timeout_ns: DEFAULT_LOCK_TIMEOUT_NS,
            window_ns: DEFAULT_LIMIT_WINDOW_NS,
            daily_limit: DEFAULT_DAILY_LIMIT,
            max_total: u64::MAX,
            max_per_call: usize::MAX,
        }
    }
}

/// Mathematical value of a [`ClaimController`].
pub struct ClaimView {
    /// Callers that may claim for any identity.
    pub wallets: Seq<Seq<u8>>,
    /// Identities that may not claim.
    pub denylist: Seq<Seq<u8>>,
    /// Lifetime of a lock.
    pub lock_timeout_ns: u64,
    /// Length of the quota window.
    pub window_ns: u64,
    /// Claims per identity and window.
    pub daily_limit: u32,
    /// Ceiling on what one claim may spend.
    pub max_total: u64,
    /// Largest number of adapters asked in one claim.
    pub max_per_call: usize,
    /// Expiry of the lock of each identity that has one.
    pub locks: Map<Seq<u8>, u64>,
    /// Claims counted and end of the window, per identity.
    pub counts: Map<Seq<u8>, (u32, u64)>,
}

/// What one identity may know of its claims.
#[derive(Debug, Clone, Copy, PartialEq, Eq, Structural)]
pub struct ClaimStatus {
    /// Claims counted in the current window.
    pub attempts: u32,
    /// End of the current window.
    pub window_expires: u64,
    /// Whether a claim is running.
    pub locked: bool,
}

/// The first authorization rule that refuses the claim, if any: the caller
/// must be the identity or on the allowlist, the identity must not be the
/// anonymous one, and it must not be on the denylist.
pub open spec fn refusal(v: ClaimView, caller: Seq<u8>, principal: Seq<u8>) -> Option<ClaimError> {
    if caller != principal && !v.wallets.contains(caller) {
        Some(ClaimError::Unauthorized)
    } else if principal == anonymous_bytes() {
        Some(ClaimError::InvalidPrincipal)
    } else if v.denylist.contains(principal) {
        Some(ClaimError::Denied)
    } else {
        None
    }
}

/// The quota entry of an identity as an attempt at `now` finds it: a new
/// window where there is none or the old one is over.
pub open spec fn quota_entry(v: ClaimView, principal: Seq<u8>, now: u64) -> (u32, u64) {
    if !v.counts.contains_key(principal) || now > v.counts[principal].1 {
        (0u32, (now + v.window_ns) as u64)
    } else {
        v.counts[principal]
    }
}

/// True when the quota lets an attempt at `now` through.
pub open spec fn quota_left(v: ClaimView, principal: Seq<u8>, now: u64) -> bool {
    quota_entry(v, principal, now).0 < v.daily_limit
}

/// The locks that have not expired at `now`.
pub open spec fn live_locks(locks: Map<Seq<u8>, u64>, now: u64) -> Map<Seq<u8>, u64> {
    locks.restrict(Set::new(|k: Seq<u8>| locks.contains_key(k) && locks[k] > now))
}

/// True when a claim for the identity is running at `now`.
pub open spec fn locked(v: ClaimView, principal: Seq<u8>, now: u64) -> bool {
    v.locks.contains_key(principal) && v.locks[principal] > now
}

/// How an attempt at `now` ends: refused by authorization, by the quota, by
/// a running claim, or let through.
pub open spec fn attempt_outcome(v: ClaimView, caller: Seq<u8>, principal: Seq<u8>, now: u64)
    -> Result<(), ClaimError> {
    match refusal(v, caller, principal) {
        Some(e) => Err(e),
        None => if !quota_left(v, principal, now) {
            Err(ClaimError::LimitReached)
        } else if locked(v, principal, now) {
            Err(ClaimError::InProgress)
        } else {
            Ok(())
        },
    }
}

/// The state after an attempt at `now`. A refusal by authorization changes
/// nothing. Past it, the quota entry is written: counted up where quota is
/// left, else as found. Past the quota, expired locks are purged, and where
/// no claim is running the lock of the identity is set.
pub open spec fn after_attempt(v: ClaimView, caller: Seq<u8>, principal: Seq<u8>, now: u64)
    -> ClaimView {
    let entry = quota_entry(v, principal, now);
    if refusal(v, caller, principal) is Some {
        v
    } else if !quota_left(v, principal, now) {
        ClaimView { counts: v.counts.insert(principal, entry), ..v }
    } else {
        let counts = v.counts.insert(principal, ((entry.0 + 1) as u32, entry.1));
        let live = live_locks(v.locks, now);
        if locked(v, principal, now) {
            ClaimView { counts, locks: live, ..v }
        } else {
            ClaimView {
                counts,
                locks: live.insert(principal, (now + v.lock_timeout_ns) as u64),
                ..v
            }
        }
    }
}

/// The state after the lock of an identity was released.
pub open spec fn released(v: ClaimView, principal: Seq<u8>) -> ClaimView {
    ClaimView { locks: v.locks.remove(principal), ..v }
}

/// True when no identity is counted beyond the limit.
pub open spec fn quota_bounded(v: ClaimView) -> bool {
    forall|k: Seq<u8>| v.counts.contains_key(k) ==> (#[trigger] v.counts[k]).0 <= v.daily_limit
}

/// What [`ClaimController::get_claim_status`] reports.
pub open spec fn status_of(v: ClaimView, principal: Seq<u8>, now: u64) -> ClaimStatus {
    ClaimStatus {
        attempts: if v.counts.contains_key(principal) {
            v.counts[principal].0
        } else {
            0
        },
        window_expires: if v.counts.contains_key(principal) {
            v.counts[principal].1
        } else {
            (now + v.window_ns) as u64
        },
        locked: locked(v, principal, now),
    }
}

/// The claim controller.
pub struct ClaimController {
    config: ClaimConfig,
    locks: IdentityMap<u64>,
    counts: IdentityMap<(u32, u64)>,
}

impl View for ClaimController {
    type V = ClaimView;

    closed spec fn view(&self) -> ClaimView {
        ClaimView {
            wallets: identity_views(self.config.wallets@),
            denylist: identity_views(self.config.denylist@),
            lock_timeout_ns: self.config.lock_timeout_ns,
            window_ns: self.config.window_ns,
            daily_limit: self.config.daily_limit,
            max_total: self.config.max_total,
            max_per_call: self.config.max_per_call,
            locks: self.locks@,
            counts: self.counts@,
        }
    }
}

impl ClaimController {
    /// A controller with the given parameters, no locks and no counts.
    pub fn new(config: ClaimConfig) -> (c: ClaimController)
        ensures
            c@ == (ClaimView {
                wallets: identity_views(config.wallets@),
                denylist: identity_views(config.denylist@),
                lock_timeout_ns: config.lock_timeout_ns,
                window_ns: config.window_ns,
                daily_limit: config.daily_limit,
                max_total: config.max_total,
                max_per_call: config.max_per_call,
                locks: Map::<Seq<u8>, u64>::empty(),
                counts: Map::<Seq<u8>, (u32, u64)>::empty(),
            }),
    {
        ClaimController { config, locks: IdentityMap::new(), counts: IdentityMap::new() }
    }

    /// The authorization rule that refuses a claim by `caller` for
    /// `principal`, if any.
    pub fn check_caller(&self, caller: &Identity, principal: &Identity) -> (r: Option<ClaimError>)
        ensures
            r == refusal(self@, caller@, principal@),
    {
        if !caller.same(principal) && !contains_identity(&self.config.wallets, caller) {
            Some(ClaimError::Unauthorized)
        } else if principal.is_anonymous() {
            Some(ClaimError::InvalidPrincipal)
        } else if contains_identity(&self.config.denylist, principal) {
            Some(ClaimError::Denied)
        } else {
            None
        }
    }

    /// Opens a claim by `caller` for `principal` at `now`: authorization,
    /// then the quota, then the lock. `Ok` means the lock is held and must
    /// be given back with [`ClaimController::release`].
    pub fn begin_claim(&mut self, caller: &Identity, principal: &Identity, now: u64) -> (r: Result<
        (),
        ClaimError,
    >)
        requires
            now + old(self)@.window_ns <= u64::MAX,
            now + old(self)@.lock_timeout_ns <= u64::MAX,
        ensures
            r == attempt_outcome(old(self)@, caller@, principal@, now),
            final(self)@ == after_attempt(old(self)@, caller@, principal@, now),
            quota_bounded(old(self)@) ==> quota_bounded(final(self)@),
    {
        match self.check_caller(caller, principal) {
            Some(e) => {
                return Err(e);
            },
            None => {},
        }
        let fresh_window = (0u32, now + self.config.window_ns);
        let entry = match self.counts.get(principal) {
            Some(found) => if now > found.1 {
                fresh_window
            } else {
                found
            },
            None => fresh_window,
        };
        if entry.0 >= self.config.daily_limit {
            self.counts.insert(principal, entry);
            return Err(ClaimError::LimitReached);
        }
        self.counts.insert(principal, (entry.0 + 1, entry.1));
        let held = match self.locks.get(principal) {
            Some(expiry) => expiry > now,
            None => false,
        };
        self.locks.retain_after(now);
        if held {
            return Err(ClaimError::InProgress);
        }
        self.locks.insert(principal, now + self.config.lock_timeout_ns);
        Ok(())
    }

    /// Gives back the lock of `principal`.
    pub fn release(&mut self, principal: &Identity)
        ensures
            final(self)@ == released(old(self)@, principal@),
    {
        self.locks.remove(principal);
    }

    /// Claims counted, end of the window and lock state of `principal`.
    pub fn get_claim_status(&self, principal: &Identity, now: u64) -> (s: ClaimStatus)
        requires
            now + self@.window_ns <= u64::MAX,
        ensures
            s == status_of(self@, principal@, now),
    {
        let (attempts, window_expires) = match self.counts.get(principal) {
            Some(found) => found,
            None => (0u32, now + self.config.window_ns),
        };
        let locked = match self.locks.get(principal) {
            Some(expiry) => expiry > now,
            None => false,
        };
        ClaimStatus { attempts, window_expires, locked }
    }

    /// Number of adapters that a claim asks when `available` can claim.
    pub fn adapters_per_call(&self, available: usize) -> (n: usize)
        ensures
            n == (if self@.max_per_call < available {
                self@.max_per_call
            } else {
                available
            }),
            n <= available,
    {
        if self.config.max_per_call < available {
            self.config.max_per_call
        } else {
            available
        }
    }

    /// A run over the adapters that keeps to the ceiling of this controller.
    pub fn start_run(&self) -> (run: ClaimRun)
        ensures
            run@ == (RunView { spent: Seq::<u64>::empty(), total: 0, max_total: self@.max_total }),
    {
        ClaimRun { spent: Vec::new(), total: 0, max_total: self.config.max_total }
    }
}

/// Mathematical value of a [`ClaimRun`].
pub struct RunView {
    /// What each adapter that claimed spent, in order.
    pub spent: Seq<u64>,
    /// Running total of what was spent, held at the largest `u64`.
    pub total: u64,
    /// The ceiling on the total.
    pub max_total: u64,
}

/// The progress of one claim over its adapters.
pub struct ClaimRun {
    spent: Vec<u64>,
    total: u64,
    max_total: u64,
}

impl View for ClaimRun {
    type V = RunView;

    closed spec fn view(&self) -> RunView {
        RunView { spent: self.spent@, total: self.total, max_total: self.max_total }
    }
}

/// What an adapter's claim counts as: its amount where it answered in time
/// and succeeded, nothing where it failed or timed out.
pub open spec fn counted(answer: Option<Result<u64, Seq<char>>>) -> Option<u64> {
    match answer {
        Some(Ok(amount)) => Some(amount),
        _ => None,
    }
}

/// Drops the reason of a failed or timed-out claim, which is skipped.
pub fn claim_with_timeout(answer: Option<Result<u64, String>>) -> (r: Option<u64>)
    ensures
        r == counted(
            match answer {
                Some(Ok(amount)) => Some(Ok(amount)),
                Some(Err(reason)) => Some(Err(reason@)),
                None => None,
            },
        ),
{
    match answer {
        Some(Ok(amount)) => Some(amount),
        _ => None,
    }
}

/// The sum of two amounts, held at the largest `u64`.
pub open spec fn capped_sum(a: u64, b: u64) -> u64 {
    if a + b > u64::MAX {
        u64::MAX
    } else {
        (a + b) as u64
    }
}

/// True when the next adapter is asked: the total is still below the
/// ceiling.
pub open spec fn wants_more(r: RunView) -> bool {
    r.total < r.max_total
}

/// True when counting `outcome` takes the total past the ceiling.
pub open spec fn overshoots(r: RunView, outcome: Option<u64>) -> bool {
    match outcome {
        Some(amount) => capped_sum(r.total, amount) > r.max_total,
        None => false,
    }
}

/// The run after `outcome` was counted: a skipped adapter changes nothing;
/// an amount raises the total and, unless the ceiling is passed, is listed.
pub open spec fn recorded(r: RunView, outcome: Option<u64>) -> RunView {
    match outcome {
        Some(amount) => RunView {
            total: capped_sum(r.total, amount),
            spent: if overshoots(r, outcome) {
                r.spent
            } else {
                r.spent.push(amount)
            },
            ..r
        },
        None => r,
    }
}

impl ClaimRun {
    /// Whether the next adapter is to be asked.
    pub fn wants_next(&self) -> (r: bool)
        ensures
            r == wants_more(self@),
    {
        self.total < self.max_total
    }

    /// Counts what one adapter spent, `None` for one that failed or timed
    /// out. Fails when the total passes the ceiling: the claim stops there.
    pub fn record(&mut self, outcome: Option<u64>) -> (r: Result<(), ClaimError>)
        ensures
            final(self)@ == recorded(old(self)@, outcome),
            overshoots(old(self)@, outcome) ==> r == Err::<(), ClaimError>(ClaimError::TotalExceeded),
            !overshoots(old(self)@, outcome) ==> r == Ok::<(), ClaimError>(()),
    {
        match outcome {
            Some(amount) => {
                self.total = if self.total > u64::MAX - amount {
                    u64::MAX
                } else {
                    self.total + amount
                };
                if self.total > self.max_total {
                    return Err(ClaimError::TotalExceeded);
                }
                self.spent.push(amount);
                Ok(())
            },
            None => Ok(()),
        }
    }

    /// What each adapter that claimed spent, in order.
    pub fn finish(self) -> (spent: Vec<u64>)
        ensures
            spent@ == self@.spent,
    {
        self.spent
    }
}

/// The run after the outcomes of the adapters asked so far, in order.
pub open spec fn run_after(max_total: u64, outcomes: Seq<Option<u64>>) -> RunView
    decreases outcomes.len(),
{
    if outcomes.len() == 0 {
        RunView { spent: Seq::empty(), total: 0, max_total }
    } else {
        recorded(run_after(max_total, outcomes.drop_last()), outcomes.last())
    }
}

/// True when the claim asked exactly the adapters whose outcomes are
/// `outcomes` out of `planned`: each was asked while the total was below the
/// ceiling and no earlier one had passed it, and the claim went on until the
/// adapters ran out, the total reached the ceiling, or it was passed.
pub open spec fn run_complete(max_total: u64, planned: nat, outcomes: Seq<Option<u64>>) -> bool {
    &&& outcomes.len() <= planned
    &&& forall|i: int|
        0 <= i < outcomes.len() ==> {
            &&& wants_more(#[trigger] run_after(max_total, outcomes.take(i)))
            &&& i + 1 < outcomes.len() ==> !overshoots(
                run_after(max_total, outcomes.take(i)),
                outcomes[i],
            )
        }
    &&& (outcomes.len() == planned || !wants_more(run_after(max_total, outcomes))
        || run_stopped(max_total, outcomes))
}

/// True when the last adapter asked took the total past the ceiling.
pub open spec fn run_stopped(max_total: u64, outcomes: Seq<Option<u64>>) -> bool {
    outcomes.len() > 0 && overshoots(run_after(max_total, outcomes.drop_last()), outcomes.last())
}

/// Number of adapters that a claim asks when `available` can claim.
pub open spec fn planned(v: ClaimView, available: usize) -> nat {
    if v.max_per_call < available {
        v.max_per_call as nat
    } else {
        available as nat
    }
}

/// What a whole claim leaves behind. The call and the attempt are counted.
/// A claim that the checks refuse fails with their error and changes what
/// an attempt changes. One that gets through asks adapters through `claim`
/// as [`run_complete`] says, gives the lock back whatever happens, and
/// either fails because the ceiling was passed, or is counted as a success
/// and returns what each adapter that claimed spent.
pub open spec fn claimed<F: Fn(usize) -> Option<u64>>(
    before: ClaimView,
    after: ClaimView,
    counters_before: Counters,
    counters_after: Counters,
    caller: Seq<u8>,
    principal: Seq<u8>,
    now: u64,
    available: usize,
    claim: F,
    r: Result<Vec<u64>, ClaimError>,
) -> bool {
    &&& counters_after.query_count == bumped(counters_before.query_count)
    &&& counters_after.claim_attempts == bumped(counters_before.claim_attempts)
    &&& counters_after.heartbeat_count == counters_before.heartbeat_count
    &&& counters_after.last_heartbeat == counters_before.last_heartbeat
    &&& counters_after.cycle_refill_attempts == counters_before.cycle_refill_attempts
    &&& counters_after.cycle_refill_successes == counters_before.cycle_refill_successes
    &&& match attempt_outcome(before, caller, principal, now) {
        Err(e) => {
            &&& r == Err::<Vec<u64>, ClaimError>(e)
            &&& after == after_attempt(before, caller, principal, now)
            &&& counters_after.claim_successes == counters_before.claim_successes
        },
        Ok(_) => {
            &&& after == released(after_attempt(before, caller, principal, now), principal)
            &&& exists|outcomes: Seq<Option<u64>>|
                {
                    &&& run_complete(before.max_total, planned(before, available), outcomes)
                    &&& forall|i: int|
                        0 <= i < outcomes.len() ==> claim.ensures(
                            (i as usize,),
                            #[trigger] outcomes[i],
                        )
                    &&& if run_stopped(before.max_total, outcomes) {
                        &&& r == Err::<Vec<u64>, ClaimError>(ClaimError::TotalExceeded)
                        &&& counters_after.claim_successes == counters_before.claim_successes
                    } else {
                        &&& r is Ok
                        &&& r->Ok_0@ == run_after(before.max_total, outcomes).spent
                        &&& counters_after.claim_successes == bumped(
                            counters_before.claim_successes,
                        )
                    }
                }
        },
    }
}

impl ClaimController {
    /// Runs a whole claim: the checks, then up to `available` adapters in
    /// order, each asked through `claim` with its place in that order, then
    /// the release of the lock, which happens on every way out once the
    /// lock is held. Returns what each adapter that claimed spent. `claim`
    /// needs to be callable only where the checks let the claim through: a
    /// refused claim asks no adapter.
    pub fn claim_all_rewards<F: Fn(usize) -> Option<u64>>(
        &mut self,
        metrics: &mut Counters,
        caller: &Identity,
        principal: &Identity,
        now: u64,
        available: usize,
        claim: F,
    ) -> (r: Result<Vec<u64>, ClaimError>)
        requires
            now + old(self)@.window_ns <= u64::MAX,
            now + old(self)@.lock_timeout_ns <= u64::MAX,
            attempt_outcome(old(self)@, caller@, principal@, now) is Ok ==> forall|i: usize|
                i < available ==> claim.requires((i,)),
        ensures
            claimed(
                old(self)@,
                final(self)@,
                *old(metrics),
                *final(metrics),
                caller@,
                principal@,
                now,
                available,
                claim,
                r,
            ),
    {
        metrics.inc_query();
        metrics.inc_claim_attempt();
        match self.begin_claim(caller, principal, now) {
            Err(e) => {
                return Err(e);
            },
            Ok(()) => {},
        }
        let asked = self.adapters_per_call(available);
        let mut run = self.start_run();
        let ghost max_total = self@.max_total;
        let ghost mut outcomes: Seq<Option<u64>> = Seq::empty();
        let mut stopped = false;
        let mut i: usize = 0;
        while i < asked && !stopped && run.wants_next()
            invariant
                i <= asked <= available,
                forall|k: usize| k < available ==> claim.requires((k,)),
                outcomes.len() == i,
                run@ == run_after(max_total, outcomes),
                run@.max_total == max_total,
                stopped == run_stopped(max_total, outcomes),
                forall|k: int|
                    0 <= k < outcomes.len() ==> claim.ensures((k as usize,), #[trigger] outcomes[k]),
                forall|k: int|
                    0 <= k < outcomes.len() ==> {
                        &&& wants_more(#[trigger] run_after(max_total, outcomes.take(k)))
                        &&& k + 1 < outcomes.len() ==> !overshoots(
                            run_after(max_total, outcomes.take(k)),
                            outcomes[k],
                        )
                    },
            decreases asked - i,
        {
            let outcome = claim(i);
            let ghost before = outcomes;
            proof {
                outcomes = outcomes.push(outcome);
                assert(outcomes.drop_last() =~= before);
                assert(outcomes.take(i as int) =~= before);
                assert forall|k: int| 0 <= k < outcomes.len() implies {
                    &&& wants_more(#[trigger] run_after(max_total, outcomes.take(k)))
                    &&& k + 1 < outcomes.len() ==> !overshoots(
                        run_after(max_total, outcomes.take(k)),
                        outcomes[k],
                    )
                } by {
                    if k < i {
                        assert(outcomes.take(k) =~= before.take(k));
                        if k + 1 == i {
                            assert(before.drop_last() =~= before.take(k));
                        }
                    }
                }
            }
            match run.record(outcome) {
                Ok(()) => {},
                Err(_) => {
                    stopped = true;
                },
            }
            i += 1;
        }
        self.release(principal);
        proof {
            assert(max_total == old(self)@.max_total);
            assert(asked == planned(old(self)@, available));
            assert(run_complete(max_total, asked as nat, outcomes));
        }
        if stopped {
            Err(ClaimError::TotalExceeded)
        } else {
            metrics.inc_claim_success();
            let spent = run.finish();
            proof {
                assert(spent@ == run_after(max_total, outcomes).spent);
            }
            Ok(spent)
        }
    }
}

/// The state after one whole claim attempt at `now`: the attempt, and the
/// release of the lock where the attempt got it.
pub open spec fn after_round(v: ClaimView, caller: Seq<u8>, principal: Seq<u8>, now: u64)
    -> ClaimView {
    if attempt_outcome(v, caller, principal, now) is Ok {
        released(after_attempt(v, caller, principal, now), principal)
    } else {
        after_attempt(v, caller, principal, now)
    }
}

/// The state after whole claim attempts at the times `times`, in order.
pub open spec fn after_rounds(v: ClaimView, caller: Seq<u8>, principal: Seq<u8>, times: Seq<u64>)
    -> ClaimView
    decreases times.len(),
{
    if times.len() == 0 {
        v
    } else {
        after_round(after_rounds(v, caller, principal, times.drop_last()), caller, principal, times.last())
    }
}

/// A refused identity leaves no trace: an attempt for an identity on the
/// denylist fails and changes neither locks nor counts, and where nothing
/// else refuses the caller the failure says that the identity is denied.
pub proof fn lemma_denied_changes_nothing(
    v: ClaimView,
    caller: Seq<u8>,
    principal: Seq<u8>,
    now: u64,
)
    requires
        v.denylist.contains(principal),
    ensures
        attempt_outcome(v, caller, principal, now) is Err,
        after_attempt(v, caller, principal, now) == v,
        (caller == principal || v.wallets.contains(caller)) && principal != anonymous_bytes()
            ==> attempt_outcome(v, caller, principal, now) == Err::<(), ClaimError>(
            ClaimError::Denied,
        ),
{
}

/// Of two attempts for one identity, one proceeds and the other is told
/// that a claim is in progress: while the lock that the first attempt got
/// is alive, a second attempt that passes authorization and quota is
/// refused, and the lock stays as it is.
pub proof fn lemma_second_attempt_in_progress(
    v: ClaimView,
    first: Seq<u8>,
    second: Seq<u8>,
    principal: Seq<u8>,
    t0: u64,
    t1: u64,
)
    requires
        attempt_outcome(v, first, principal, t0) is Ok,
        t0 + v.lock_timeout_ns <= u64::MAX,
        t1 < t0 + v.lock_timeout_ns,
        refusal(after_attempt(v, first, principal, t0), second, principal) is None,
        quota_left(after_attempt(v, first, principal, t0), principal, t1),
    ensures
        attempt_outcome(after_attempt(v, first, principal, t0), second, principal, t1) == Err::<
            (),
            ClaimError,
        >(ClaimError::InProgress),
        after_attempt(
            after_attempt(v, first, principal, t0),
            second,
            principal,
            t1,
        ).locks.contains_key(principal),
        after_attempt(after_attempt(v, first, principal, t0), second, principal, t1).locks[principal]
            == t0 + v.lock_timeout_ns,
{
}

/// Once the lock's timeout has elapsed a new attempt gets the lock: an
/// attempt at or after the expiry of the lock that passes authorization and
/// quota proceeds, and holds a lock of its own.
pub proof fn lemma_expired_lock_is_free(
    v: ClaimView,
    first: Seq<u8>,
    second: Seq<u8>,
    principal: Seq<u8>,
    t0: u64,
    t2: u64,
)
    requires
        attempt_outcome(v, first, principal, t0) is Ok,
        t0 + v.lock_timeout_ns <= u64::MAX,
        t2 + v.lock_timeout_ns <= u64::MAX,
        t2 >= t0 + v.lock_timeout_ns,
        refusal(after_attempt(v, first, principal, t0), second, principal) is None,
        quota_left(after_attempt(v, first, principal, t0), principal, t2),
    ensures
        attempt_outcome(after_attempt(v, first, principal, t0), second, principal, t2) is Ok,
        after_attempt(after_attempt(v, first, principal, t0), second, principal, t2).locks[principal]
            == t2 + v.lock_timeout_ns,
{
}

/// Exactly as many attempts succeed in one window as the limit allows.
/// Whole attempts for an identity that starts a new window at `times[0]`,
/// all of them within that window: the attempt at `times.last()` succeeds
/// where at most `daily_limit` attempts were made up to it, and is refused
/// for the limit otherwise; the count stands at the number of successes.
pub proof fn lemma_quota_per_window(
    v: ClaimView,
    caller: Seq<u8>,
    principal: Seq<u8>,
    times: Seq<u64>,
)
    requires
        refusal(v, caller, principal) is None,
        times.len() > 0,
        !v.counts.contains_key(principal) || times[0] > v.counts[principal].1,
        !v.locks.contains_key(principal),
        times[0] + v.window_ns <= u64::MAX,
        forall|i: int| 0 <= i < times.len() ==> #[trigger] times[i] <= times[0] + v.window_ns,
    ensures
        attempt_outcome(
            after_rounds(v, caller, principal, times.drop_last()),
            caller,
            principal,
            times.last(),
        ) == (if times.len() <= v.daily_limit {
            Ok::<(), ClaimError>(())
        } else {
            Err::<(), ClaimError>(ClaimError::LimitReached)
        }),
        after_rounds(v, caller, principal, times).counts.contains_key(principal),
        after_rounds(v, caller, principal, times).counts[principal] == (
            (if times.len() <= v.daily_limit {
                times.len()
            } else {
                v.daily_limit as nat
            }) as u32,
            (times[0] + v.window_ns) as u64,
        ),
        !after_rounds(v, caller, principal, times).locks.contains_key(principal),
        after_rounds(v, caller, principal, times).wallets == v.wallets,
        after_rounds(v, caller, principal, times).denylist == v.denylist,
        after_rounds(v, caller, principal, times).daily_limit == v.daily_limit,
        after_rounds(v, caller, principal, times).window_ns == v.window_ns,
    decreases times.len(),
{
    let earlier = times.drop_last();
    let before = after_rounds(v, caller, principal, earlier);
    if earlier.len() > 0 {
        assert(earlier[0] == times[0]);
        assert forall|i: int| 0 <= i < earlier.len() implies #[trigger] earlier[i] <= earlier[0]
            + v.window_ns by {
            assert(earlier[i] == times[i]);
        }
        lemma_quota_per_window(v, caller, principal, earlier);
        assert(times.last() == times[times.len() - 1]);
    } else {
        assert(times.last() == times[0]);
    }
}

/// After the window has rolled over attempts succeed again: an attempt
/// after the end of the window that passes authorization, with no claim
/// running and a limit above zero, proceeds and opens a new window.
pub proof fn lemma_window_rolls_over(v: ClaimView, caller: Seq<u8>, principal: Seq<u8>, now: u64)
    requires
        refusal(v, caller, principal) is None,
        v.counts.contains_key(principal),
        now > v.counts[principal].1,
        now + v.window_ns <= u64::MAX,
        v.daily_limit > 0,
        !locked(v, principal, now),
    ensures
        attempt_outcome(v, caller, principal, now) is Ok,
        after_attempt(v, caller, principal, now).counts[principal] == (
            1u32,
            (now + v.window_ns) as u64,
        ),
{
}

} // verus!
