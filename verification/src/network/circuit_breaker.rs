//! Circuit breaker that stops calls to a failing service and lets a trial
//! call through once a reset timeout has passed.
//!
//! The breaker keeps its state as plain values; the caller supplies the
//! outcome of each guarded call.  Times are wall-clock milliseconds.

use vstd::prelude::*;
use crate::clock::now_millis;

verus! {

/// State of a circuit breaker.
#[derive(Debug, Clone, Copy, PartialEq, Eq, Structural)]
pub enum CircuitState {
    /// Normal operation, requests pass through.
    Closed,
    /// The circuit is open, requests are blocked.
    Open,
    /// Testing whether the service is healthy again.
    HalfOpen,
}

/// Numeric code of a state: 0 for closed, 1 for open, 2 for half-open.
pub open spec fn state_code(s: CircuitState) -> u64 {
    match s {
        CircuitState::Closed => 0,
        CircuitState::Open => 1,
        CircuitState::HalfOpen => 2,
    }
}

/// State of a numeric code; unknown codes count as closed.
pub open spec fn state_of_code(code: u64) -> CircuitState {
    if code == 1 {
        CircuitState::Open
    } else if code == 2 {
        CircuitState::HalfOpen
    } else {
        CircuitState::Closed
    }
}

impl CircuitState {
    /// Numeric code of the state (0 closed, 1 open, 2 half-open).
    pub fn code(&self) -> (c: u64)
        ensures
            c == state_code(*self),
    {
        match self {
            CircuitState::Closed => 0,
            CircuitState::Open => 1,
            CircuitState::HalfOpen => 2,
        }
    }

    /// State of a numeric code; codes other than 1 and 2 give `Closed`.
    pub fn from_code(code: u64) -> (s: CircuitState)
        ensures
            s == state_of_code(code),
    {
        if code == 1 {
            CircuitState::Open
        } else if code == 2 {
            CircuitState::HalfOpen
        } else {
            CircuitState::Closed
        }
    }

    /// Display name of the state.
    pub fn name(&self) -> (s: &'static str)
        ensures
            s@ == state_name(*self),
    {
        proof {
            reveal_strlit("Closed");
            reveal_strlit("Open");
            reveal_strlit("HalfOpen");
        }
        match self {
            CircuitState::Closed => "Closed",
            CircuitState::Open => "Open",
            CircuitState::HalfOpen => "HalfOpen",
        }
    }
}

/// Display name of a state.
pub open spec fn state_name(s: CircuitState) -> Seq<char> {
    match s {
        CircuitState::Closed => seq!['C', 'l', 'o', 's', 'e', 'd'],
        CircuitState::Open => seq!['O', 'p', 'e', 'n'],
        CircuitState::HalfOpen => seq!['H', 'a', 'l', 'f', 'O', 'p', 'e', 'n'],
    }
}

/// Decoding the code of a state gives the state back.
pub proof fn lemma_state_code_roundtrip(s: CircuitState)
    ensures
        state_of_code(state_code(s)) == s,
{
}

/// A recorded change of state: from, to, and the time of the change.
#[derive(Debug, Clone, Copy, PartialEq, Eq, Structural)]
pub struct StateTransition {
    pub from: CircuitState,
    pub to: CircuitState,
    pub at_ms: i64,
}

/// Counter after one more event (counters wrap around as the machine's
/// atomic counters do).
pub open spec fn bump(x: u64) -> u64 {
    if x == u64::MAX {
        0
    } else {
        (x + 1) as u64
    }
}

/// State and consecutive-failure count after a failed call.
pub open spec fn after_failure(s: CircuitState, failures: u64, threshold: u64) -> (CircuitState, u64) {
    match s {
        CircuitState::Closed => if bump(failures) >= threshold {
            (CircuitState::Open, bump(failures))
        } else {
            (CircuitState::Closed, bump(failures))
        },
        CircuitState::HalfOpen => (CircuitState::Open, failures),
        CircuitState::Open => (CircuitState::Open, failures),
    }
}

/// State and consecutive-failure count after a successful call.
pub open spec fn after_success(s: CircuitState, failures: u64) -> (CircuitState, u64) {
    match s {
        CircuitState::Closed => (CircuitState::Closed, 0),
        CircuitState::HalfOpen => (CircuitState::Closed, 0),
        CircuitState::Open => (CircuitState::Open, failures),
    }
}

/// State and count after `n` failed calls in a row.
pub open spec fn after_failures(s: CircuitState, failures: u64, threshold: u64, n: nat) -> (
    CircuitState,
    u64,
)
    decreases n,
{
    if n == 0 {
        (s, failures)
    } else {
        let (s2, f2) = after_failure(s, failures, threshold);
        after_failures(s2, f2, threshold, (n - 1) as nat)
    }
}

/// Milliseconds from `earlier` to `now`, or zero when `now` is earlier.
pub open spec fn elapsed_ms(earlier: i64, now: i64) -> int {
    if now >= earlier {
        now - earlier
    } else {
        0
    }
}

/// A closed breaker that has seen no failure opens at the `threshold`-th
/// failed call in a row and stays closed before it.
pub proof fn lemma_opens_at_threshold(threshold: u64, n: nat)
    requires
        1 <= threshold,
        n <= threshold,
    ensures
        after_failures(CircuitState::Closed, 0, threshold, n) == (if n == threshold {
            (CircuitState::Open, threshold)
        } else {
            (CircuitState::Closed, n as u64)
        }),
    decreases n,
{
    lemma_failures_from(threshold, 0, n);
}

proof fn lemma_failures_from(threshold: u64, k: u64, n: nat)
    requires
        1 <= threshold,
        k < threshold,
        k + n <= threshold,
    ensures
        after_failures(CircuitState::Closed, k, threshold, n) == (if k + n == threshold {
            (CircuitState::Open, threshold)
        } else {
            (CircuitState::Closed, (k + n) as u64)
        }),
    decreases n,
{
    if n > 0 {
        let k2 = (k + 1) as u64;
        assert(bump(k) == k2);
        if k2 == threshold {
            assert(after_failure(CircuitState::Closed, k, threshold) == (CircuitState::Open, k2));
            assert(n == 1);
            assert(after_failures(CircuitState::Open, k2, threshold, 0) == (CircuitState::Open, k2));
        } else {
            assert(after_failure(CircuitState::Closed, k, threshold) == (CircuitState::Closed, k2));
            lemma_failures_from(threshold, k2, (n - 1) as nat);
        }
    }
}

/// Failures do not move an open breaker.
pub proof fn lemma_open_stays_open(threshold: u64, failures: u64, n: nat)
    ensures
        after_failures(CircuitState::Open, failures, threshold, n) == (CircuitState::Open, failures),
    decreases n,
{
    if n > 0 {
        lemma_open_stays_open(threshold, failures, (n - 1) as nat);
    }
}

/// Counters and state a breaker reports.
#[derive(Debug, Clone)]
pub struct CircuitBreakerMetrics {
    pub successful_calls: u64,
    pub failed_calls: u64,
    pub rejected_calls: u64,
    pub state_transitions: Vec<StateTransition>,
    pub current_state: CircuitState,
    pub current_failure_count: u64,
    pub last_failure: Option<i64>,
    pub last_success: Option<i64>,
    pub last_state_change: Option<i64>,
    /// Sum of the kept response times, in milliseconds.
    pub response_time_total_ms: u128,
    /// Number of kept response times.
    pub response_time_samples: u64,
}

/// Sum of a sequence of durations.
pub open spec fn total_ms(s: Seq<u64>) -> int
    decreases s.len(),
{
    if s.len() == 0 {
        0
    } else {
        total_ms(s.drop_last()) + s.last()
    }
}

/// Most response times a breaker keeps.
pub const RESPONSE_WINDOW: usize = 100;

/// A circuit breaker guarding calls to one service.
#[derive(Debug)]
pub struct CircuitBreaker {
    name: String,
    state: CircuitState,
    failure_threshold: u64,
    reset_timeout_ms: u64,
    request_timeout_ms: u64,
    failure_count: u64,
    successful_calls: u64,
    failed_calls: u64,
    rejected_calls: u64,
    state_transitions: Vec<StateTransition>,
    last_failure: Option<i64>,
    last_success: Option<i64>,
    last_state_change: Option<i64>,
    response_times: Vec<u64>,
    trial_in_flight: bool,
}

/// The recorded transitions form a path from `Closed` to `current`, each
/// step changing the state.
pub open spec fn valid_history(t: Seq<StateTransition>, current: CircuitState) -> bool {
    &&& forall|i: int| 0 <= i < t.len() ==> #[trigger] t[i].from != t[i].to
    &&& forall|i: int| 0 < i < t.len() ==> #[trigger] t[i].from == t[i - 1].to
    &&& (t.len() == 0 ==> current == CircuitState::Closed)
    &&& (t.len() > 0 ==> t[0].from == CircuitState::Closed && t.last().to == current)
}

impl CircuitBreaker {
    /// Well-formedness: the history leads to the current state and at most
    /// [`RESPONSE_WINDOW`] response times are kept.
    pub closed spec fn wf(&self) -> bool {
        &&& valid_history(self.state_transitions@, self.state)
        &&& self.response_times@.len() <= RESPONSE_WINDOW
        &&& (self.trial_in_flight ==> self.state == CircuitState::HalfOpen)
    }

    /// Whether the one trial call of the half-open state has been let
    /// through and its outcome is not yet recorded.
    pub closed spec fn trial_pending(&self) -> bool {
        self.trial_in_flight
    }

    pub closed spec fn name_view(&self) -> Seq<char> {
        self.name@
    }

    pub closed spec fn state(&self) -> CircuitState {
        self.state
    }

    pub closed spec fn threshold(&self) -> u64 {
        self.failure_threshold
    }

    pub closed spec fn reset_timeout(&self) -> u64 {
        self.reset_timeout_ms
    }

    pub closed spec fn request_timeout(&self) -> u64 {
        self.request_timeout_ms
    }

    pub closed spec fn failures(&self) -> u64 {
        self.failure_count
    }

    pub closed spec fn successes_total(&self) -> u64 {
        self.successful_calls
    }

    pub closed spec fn failures_total(&self) -> u64 {
        self.failed_calls
    }

    pub closed spec fn rejections_total(&self) -> u64 {
        self.rejected_calls
    }

    pub closed spec fn transitions(&self) -> Seq<StateTransition> {
        self.state_transitions@
    }

    pub closed spec fn last_failure_at(&self) -> Option<i64> {
        self.last_failure
    }

    pub closed spec fn last_success_at(&self) -> Option<i64> {
        self.last_success
    }

    pub closed spec fn last_change_at(&self) -> Option<i64> {
        self.last_state_change
    }

    pub closed spec fn response_times_ms(&self) -> Seq<u64> {
        self.response_times@
    }

    /// Transitions after moving from the current state to `to` at `now`
    /// (nothing is recorded when the state does not change).
    pub open spec fn transitions_after(&self, to: CircuitState, now: i64) -> Seq<StateTransition> {
        if self.state() == to {
            self.transitions()
        } else {
            self.transitions().push(StateTransition { from: self.state(), to, at_ms: now })
        }
    }

    /// Last state change after moving from the current state to `to` at
    /// `now`.
    pub open spec fn last_change_after(&self, to: CircuitState, now: i64) -> Option<i64> {
        if self.state() == to {
            self.last_change_at()
        } else {
            Some(now)
        }
    }

    /// A closed breaker with no history; times are in milliseconds.
    pub fn new(name: &str, failure_threshold: u64, reset_timeout_ms: u64, request_timeout_ms: u64) -> (cb: Self)
        ensures
            cb.wf(),
            cb.name_view() == name@,
            cb.state() == CircuitState::Closed,
            cb.threshold() == failure_threshold,
            cb.reset_timeout() == reset_timeout_ms,
            cb.request_timeout() == request_timeout_ms,
            cb.failures() == 0,
            cb.successes_total() == 0,
            cb.failures_total() == 0,
            cb.rejections_total() == 0,
            cb.transitions() == Seq::<StateTransition>::empty(),
            cb.last_failure_at() is None,
            cb.last_success_at() is None,
            cb.last_change_at() is None,
            cb.response_times_ms() == Seq::<u64>::empty(),
            !cb.trial_pending(),
    {
        CircuitBreaker {
            name: name.to_owned(),
            state: CircuitState::Closed,
            failure_threshold,
            reset_timeout_ms,
            request_timeout_ms,
            failure_count: 0,
            successful_calls: 0,
            failed_calls: 0,
            rejected_calls: 0,
            state_transitions: Vec::new(),
            last_failure: None,
            last_success: None,
            last_state_change: None,
            response_times: Vec::new(),
            trial_in_flight: false,
        }
    }

    /// Name of the guarded service.
    pub fn name(&self) -> (n: &str)
        ensures
            n@ == self.name_view(),
    {
        self.name.as_str()
    }

    /// Current state.
    pub fn get_state(&self) -> (s: CircuitState)
        ensures
            s == self.state(),
    {
        self.state
    }

    /// Timeout for one guarded call, in milliseconds.
    pub fn request_timeout_ms(&self) -> (t: u64)
        ensures
            t == self.request_timeout(),
    {
        self.request_timeout_ms
    }

    fn transition_state(&mut self, new_state: CircuitState, now: i64)
        requires
            old(self).wf(),
            old(self).trial_pending() ==> new_state == CircuitState::HalfOpen,
        ensures
            final(self).trial_pending() == old(self).trial_pending(),
            final(self).wf(),
            final(self).state() == new_state,
            final(self).transitions() == old(self).transitions_after(new_state, now),
            final(self).last_change_at() == old(self).last_change_after(new_state, now),
            final(self).name_view() == old(self).name_view(),
            final(self).threshold() == old(self).threshold(),
            final(self).reset_timeout() == old(self).reset_timeout(),
            final(self).request_timeout() == old(self).request_timeout(),
            final(self).failures() == old(self).failures(),
            final(self).successes_total() == old(self).successes_total(),
            final(self).failures_total() == old(self).failures_total(),
            final(self).rejections_total() == old(self).rejections_total(),
            final(self).last_failure_at() == old(self).last_failure_at(),
            final(self).last_success_at() == old(self).last_success_at(),
            final(self).response_times_ms() == old(self).response_times_ms(),
    {
        if self.state != new_state {
            let t = StateTransition { from: self.state, to: new_state, at_ms: now };
            let ghost before = self.state_transitions@;
            self.state_transitions.push(t);
            self.state = new_state;
            self.last_state_change = Some(now);
            assert(self.state_transitions@ == before.push(t));
            assert(valid_history(self.state_transitions@, self.state));
        }
    }

    /// Whether a call may go ahead at time `now`: always when closed; when
    /// open, only once `reset_timeout` has passed since the last failure
    /// (the breaker then moves to half-open and this call is its trial), or
    /// when no failure was ever recorded; when half-open, only if no trial
    /// call is under way (this call then becomes the trial).  A refused call
    /// is counted as rejected.
    pub fn can_execute_at(&mut self, now: i64) -> (allowed: bool)
        requires
            old(self).wf(),
        ensures
            final(self).wf(),
            can_execute_step(*old(self), *final(self), now, allowed),
    {
        match self.state {
            CircuitState::Closed => true,
            CircuitState::Open => {
                match self.last_failure {
                    Some(t) => {
                        let elapsed: u64 = if now >= t {
                            let diff: i128 = now as i128 - t as i128;
                            if diff > u64::MAX as i128 { u64::MAX } else { diff as u64 }
                        } else {
                            0
                        };
                        if elapsed >= self.reset_timeout_ms {
                            self.transition_state(CircuitState::HalfOpen, now);
                            self.trial_in_flight = true;
                            true
                        } else {
                            self.rejected_calls = self.rejected_calls.wrapping_add(1);
                            false
                        }
                    },
                    None => true,
                }
            },
            CircuitState::HalfOpen => {
                if self.trial_in_flight {
                    self.rejected_calls = self.rejected_calls.wrapping_add(1);
                    false
                } else {
                    self.trial_in_flight = true;
                    true
                }
            },
        }
    }

    /// [`Self::can_execute_at`] at the current time.
    pub fn can_execute(&mut self) -> (allowed: bool)
        requires
            old(self).wf(),
        ensures
            final(self).wf(),
            exists|now: i64| can_execute_step(*old(self), *final(self), now, allowed),
    {
        let now = now_millis();
        self.can_execute_at(now)
    }

    /// Records a successful call at `now`: a half-open breaker closes, and
    /// the consecutive-failure count is reset unless the breaker is open.
    pub fn on_success_at(&mut self, now: i64)
        requires
            old(self).wf(),
        ensures
            final(self).wf(),
            success_step(*old(self), *final(self), now),
    {
        self.last_success = Some(now);
        self.successful_calls = self.successful_calls.wrapping_add(1);
        self.trial_in_flight = false;
        match self.state {
            CircuitState::HalfOpen => {
                self.transition_state(CircuitState::Closed, now);
                self.failure_count = 0;
            },
            CircuitState::Closed => {
                self.failure_count = 0;
            },
            CircuitState::Open => {},
        }
    }

    /// Records a successful call at the current time: see
    /// [`Self::on_success_at`].
    pub fn on_success(&mut self)
        requires
            old(self).wf(),
        ensures
            final(self).wf(),
            exists|now: i64| success_step(*old(self), *final(self), now),
    {
        let now = now_millis();
        self.on_success_at(now)
    }

    /// Records a failed call at `now`: a closed breaker opens once its
    /// consecutive-failure count reaches the threshold, and a half-open
    /// breaker opens again.
    pub fn on_failure_at(&mut self, now: i64)
        requires
            old(self).wf(),
        ensures
            final(self).wf(),
            failure_step(*old(self), *final(self), now),
    {
        self.last_failure = Some(now);
        self.failed_calls = self.failed_calls.wrapping_add(1);
        self.trial_in_flight = false;
        match self.state {
            CircuitState::Closed => {
                let failures = self.failure_count.wrapping_add(1);
                self.failure_count = failures;
                if failures >= self.failure_threshold {
                    self.transition_state(CircuitState::Open, now);
                }
            },
            CircuitState::HalfOpen => {
                self.transition_state(CircuitState::Open, now);
            },
            CircuitState::Open => {},
        }
    }

    /// Records a failed call at the current time: see
    /// [`Self::on_failure_at`].
    pub fn on_failure(&mut self)
        requires
            old(self).wf(),
        ensures
            final(self).wf(),
            exists|now: i64| failure_step(*old(self), *final(self), now),
    {
        let now = now_millis();
        self.on_failure_at(now)
    }

    /// Records the response time of a call, keeping only the last
    /// [`RESPONSE_WINDOW`] of them.
    pub fn record_response_time(&mut self, duration_ms: u64)
        requires
            old(self).wf(),
        ensures
            final(self).wf(),
            final(self).response_times_ms() == (if old(self).response_times_ms().len() < RESPONSE_WINDOW {
                old(self).response_times_ms().push(duration_ms)
            } else {
                old(self).response_times_ms().push(duration_ms).drop_first()
            }),
            final(self).state() == old(self).state(),
            final(self).failures() == old(self).failures(),
            final(self).transitions() == old(self).transitions(),
            final(self).name_view() == old(self).name_view(),
            final(self).threshold() == old(self).threshold(),
            final(self).reset_timeout() == old(self).reset_timeout(),
            final(self).request_timeout() == old(self).request_timeout(),
            final(self).successes_total() == old(self).successes_total(),
            final(self).failures_total() == old(self).failures_total(),
            final(self).rejections_total() == old(self).rejections_total(),
            final(self).last_failure_at() == old(self).last_failure_at(),
            final(self).last_success_at() == old(self).last_success_at(),
            final(self).last_change_at() == old(self).last_change_at(),
            final(self).trial_pending() == old(self).trial_pending(),
    {
        self.response_times.push(duration_ms);
        if self.response_times.len() > RESPONSE_WINDOW {
            self.response_times.remove(0);
            assert(self.response_times@ =~= old(self).response_times@.push(duration_ms).drop_first());
        }
    }

    /// Snapshot of the breaker's counters, history and response times.
    pub fn get_metrics(&self) -> (m: CircuitBreakerMetrics)
        requires
            self.wf(),
        ensures
            m.successful_calls == self.successes_total(),
            m.failed_calls == self.failures_total(),
            m.rejected_calls == self.rejections_total(),
            m.state_transitions@ == self.transitions(),
            m.current_state == self.state(),
            m.current_failure_count == self.failures(),
            m.last_failure == self.last_failure_at(),
            m.last_success == self.last_success_at(),
            m.last_state_change == self.last_change_at(),
            m.response_time_total_ms == total_ms(self.response_times_ms()),
            m.response_time_samples == self.response_times_ms().len(),
    {
        let mut total: u128 = 0;
        let mut i: usize = 0;
        while i < self.response_times.len()
            invariant
                i <= self.response_times@.len() <= RESPONSE_WINDOW,
                total == total_ms(self.response_times@.subrange(0, i as int)),
                total <= i * 0x1_0000_0000_0000_0000,
            decreases self.response_times@.len() - i,
        {
            assert(self.response_times@.subrange(0, i + 1).drop_last() =~= self.response_times@.subrange(0, i as int));
            total = total + self.response_times[i] as u128;
            i = i + 1;
        }
        assert(self.response_times@.subrange(0, i as int) =~= self.response_times@);
        CircuitBreakerMetrics {
            successful_calls: self.successful_calls,
            failed_calls: self.failed_calls,
            rejected_calls: self.rejected_calls,
            state_transitions: self.state_transitions.clone(),
            current_state: self.state,
            current_failure_count: self.failure_count,
            last_failure: self.last_failure,
            last_success: self.last_success,
            last_state_change: self.last_state_change,
            response_time_total_ms: total,
            response_time_samples: self.response_times.len() as u64,
        }
    }
}

/// What a call of `can_execute_at(now)` does to the breaker `o`, giving `f`
/// and answering `allowed`.
pub open spec fn can_execute_step(o: CircuitBreaker, f: CircuitBreaker, now: i64, allowed: bool) -> bool {
    let timed_out = o.last_failure_at() is Some && elapsed_ms(o.last_failure_at()->0, now) >= o.reset_timeout();
    let trial = o.state() == CircuitState::Open && timed_out;
    let refused = (o.state() == CircuitState::Open && o.last_failure_at() is Some && !timed_out)
        || (o.state() == CircuitState::HalfOpen && o.trial_pending());
    &&& allowed == !refused
    &&& f.state() == (if trial { CircuitState::HalfOpen } else { o.state() })
    &&& f.trial_pending() == (trial || o.state() == CircuitState::HalfOpen)
    &&& f.transitions() == (if trial { o.transitions_after(CircuitState::HalfOpen, now) } else { o.transitions() })
    &&& f.last_change_at() == (if trial { o.last_change_after(CircuitState::HalfOpen, now) } else { o.last_change_at() })
    &&& f.rejections_total() == (if refused { bump(o.rejections_total()) } else { o.rejections_total() })
    &&& f.name_view() == o.name_view()
    &&& f.threshold() == o.threshold()
    &&& f.reset_timeout() == o.reset_timeout()
    &&& f.request_timeout() == o.request_timeout()
    &&& f.failures() == o.failures()
    &&& f.successes_total() == o.successes_total()
    &&& f.failures_total() == o.failures_total()
    &&& f.last_failure_at() == o.last_failure_at()
    &&& f.last_success_at() == o.last_success_at()
    &&& f.response_times_ms() == o.response_times_ms()
}

/// What recording a successful call at `now` does to the breaker `o`,
/// giving `f`.
pub open spec fn success_step(o: CircuitBreaker, f: CircuitBreaker, now: i64) -> bool {
    &&& (f.state(), f.failures()) == after_success(o.state(), o.failures())
    &&& !f.trial_pending()
    &&& f.transitions() == o.transitions_after(f.state(), now)
    &&& f.last_change_at() == o.last_change_after(f.state(), now)
    &&& f.last_success_at() == Some(now)
    &&& f.successes_total() == bump(o.successes_total())
    &&& f.name_view() == o.name_view()
    &&& f.threshold() == o.threshold()
    &&& f.reset_timeout() == o.reset_timeout()
    &&& f.request_timeout() == o.request_timeout()
    &&& f.failures_total() == o.failures_total()
    &&& f.rejections_total() == o.rejections_total()
    &&& f.last_failure_at() == o.last_failure_at()
    &&& f.response_times_ms() == o.response_times_ms()
}

/// What recording a failed call at `now` does to the breaker `o`, giving
/// `f`.
pub open spec fn failure_step(o: CircuitBreaker, f: CircuitBreaker, now: i64) -> bool {
    &&& (f.state(), f.failures()) == after_failure(o.state(), o.failures(), o.threshold())
    &&& !f.trial_pending()
    &&& f.transitions() == o.transitions_after(f.state(), now)
    &&& f.last_change_at() == o.last_change_after(f.state(), now)
    &&& f.last_failure_at() == Some(now)
    &&& f.failures_total() == bump(o.failures_total())
    &&& f.name_view() == o.name_view()
    &&& f.threshold() == o.threshold()
    &&& f.reset_timeout() == o.reset_timeout()
    &&& f.request_timeout() == o.request_timeout()
    &&& f.successes_total() == o.successes_total()
    &&& f.rejections_total() == o.rejections_total()
    &&& f.last_success_at() == o.last_success_at()
    &&& f.response_times_ms() == o.response_times_ms()
}

/// In the half-open state only one trial call goes through: once a call
/// has been let through, every further call is refused until its outcome
/// is recorded.
pub proof fn lemma_one_trial_when_half_open(o: CircuitBreaker, f: CircuitBreaker, g: CircuitBreaker, t1: i64, t2: i64, a1: bool, a2: bool)
    requires
        can_execute_step(o, f, t1, a1),
        can_execute_step(f, g, t2, a2),
        f.state() == CircuitState::HalfOpen,
        a1,
    ensures
        !a2,
        g.state() == CircuitState::HalfOpen,
{
}

} // verus!
