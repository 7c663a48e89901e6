//! Circuit breaker that stops calling a failing operation.
//!
//! The breaker is a state machine: a caller asks `begin_call` for permission,
//! runs the operation itself, and reports the outcome with `finish_call`.
//! Time is a millisecond counter supplied by the caller.
use vstd::prelude::*;

verus! {

/// State of the breaker.
#[derive(Debug, Clone, Copy, PartialEq, Eq, Structural)]
pub enum CircuitState {
    Closed,
    Open,
    HalfOpen,
}

/// Why a call was refused before it ran.
#[derive(Debug, Clone, Copy, PartialEq, Eq, Structural)]
pub enum BreakerRejection {
    /// The breaker is open and the recovery timeout has not elapsed.
    Open,
    /// The breaker is half-open and a trial call is already running.
    HalfOpenBusy,
}

impl BreakerRejection {
    /// The message the breaker reports for this rejection.
    pub fn reason(&self) -> (r: String)
        ensures
            r@ == self.spec_reason(),
    {
        match self {
            BreakerRejection::Open => "Circuit breaker is open, operation rejected".to_string(),
            BreakerRejection::HalfOpenBusy => "Circuit breaker is half-open and already executing".to_string(),
        }
    }

    pub open spec fn spec_reason(&self) -> Seq<char> {
        match self {
            BreakerRejection::Open => "Circuit breaker is open, operation rejected"@,
            BreakerRejection::HalfOpenBusy => "Circuit breaker is half-open and already executing"@,
        }
    }
}

/// Abstract state of a breaker.
pub struct BreakerView {
    pub failure_threshold: u64,
    pub recovery_timeout_ms: u64,
    pub failure_count: u64,
    pub last_failure_ms: Option<u64>,
    pub state: CircuitState,
    pub executing: bool,
}

/// A circuit breaker.
pub struct CircuitBreaker {
    failure_threshold: u64,
    recovery_timeout_ms: u64,
    failure_count: u64,
    last_failure_ms: Option<u64>,
    state: CircuitState,
    executing: bool,
}

/// Whether the recovery timeout has elapsed since the last failure.
pub open spec fn spec_reset_due(v: BreakerView, now_ms: u64) -> bool {
    match v.last_failure_ms {
        Some(last) => (if now_ms >= last { now_ms - last } else { 0 }) >= v.recovery_timeout_ms,
        None => false,
    }
}

/// What asking for permission does: the next state and the refusal, if any.
pub open spec fn spec_begin(v: BreakerView, now_ms: u64) -> (BreakerView, Option<BreakerRejection>) {
    match v.state {
        CircuitState::Open => {
            if spec_reset_due(v, now_ms) {
                (BreakerView { state: CircuitState::HalfOpen, executing: true, ..v }, None)
            } else {
                (v, Some(BreakerRejection::Open))
            }
        },
        CircuitState::HalfOpen => {
            if v.executing {
                (v, Some(BreakerRejection::HalfOpenBusy))
            } else {
                (BreakerView { executing: true, ..v }, None)
            }
        },
        CircuitState::Closed => (BreakerView { executing: true, ..v }, None),
    }
}

/// What reporting an outcome does.
pub open spec fn spec_finish(v: BreakerView, succeeded: bool, now_ms: u64) -> BreakerView {
    if succeeded {
        BreakerView {
            failure_count: 0,
            state: CircuitState::Closed,
            last_failure_ms: None,
            executing: false,
            ..v
        }
    } else {
        let failures = v.failure_count.wrapping_add(1);
        BreakerView {
            failure_count: failures,
            last_failure_ms: Some(now_ms),
            state: if failures >= v.failure_threshold { CircuitState::Open } else { v.state },
            executing: false,
            ..v
        }
    }
}

/// A freshly created breaker.
pub open spec fn spec_new(failure_threshold: u64, recovery_timeout_ms: u64) -> BreakerView {
    BreakerView {
        failure_threshold,
        recovery_timeout_ms,
        failure_count: 0,
        last_failure_ms: None,
        state: CircuitState::Closed,
        executing: false,
    }
}

impl View for CircuitBreaker {
    type V = BreakerView;

    closed spec fn view(&self) -> BreakerView {
        BreakerView {
            failure_threshold: self.failure_threshold,
            recovery_timeout_ms: self.recovery_timeout_ms,
            failure_count: self.failure_count,
            last_failure_ms: self.last_failure_ms,
            state: self.state,
            executing: self.executing,
        }
    }
}

impl CircuitBreaker {
    /// A closed breaker that opens after `failure_threshold` failures and lets a
    /// trial call through `recovery_timeout_ms` after the last failure.
    pub fn new(failure_threshold: u64, recovery_timeout_ms: u64) -> (r: Self)
        ensures
            r@ == spec_new(failure_threshold, recovery_timeout_ms),
    {
        CircuitBreaker {
            failure_threshold,
            recovery_timeout_ms,
            failure_count: 0,
            last_failure_ms: None,
            state: CircuitState::Closed,
            executing: false,
        }
    }

    fn should_attempt_reset(&self, now_ms: u64) -> (r: bool)
        ensures
            r == spec_reset_due(self@, now_ms),
    {
        match self.last_failure_ms {
            Some(last) => now_ms.saturating_sub(last) >= self.recovery_timeout_ms,
            None => false,
        }
    }

    /// Asks for permission to run the operation at time `now_ms`. On `Ok` the
    /// caller runs it and must report the outcome with `finish_call`.
    pub fn begin_call(&mut self, now_ms: u64) -> (r: Result<(), BreakerRejection>)
        ensures
            final(self)@ == spec_begin(old(self)@, now_ms).0,
            r is Ok <==> spec_begin(old(self)@, now_ms).1 is None,
            r matches Err(e) ==> spec_begin(old(self)@, now_ms).1 == Some(e),
    {
        match self.state {
            CircuitState::Open => {
                if self.should_attempt_reset(now_ms) {
                    self.state = CircuitState::HalfOpen;
                } else {
                    return Err(BreakerRejection::Open);
                }
            },
            CircuitState::HalfOpen => {
                if self.executing {
                    return Err(BreakerRejection::HalfOpenBusy);
                }
            },
            CircuitState::Closed => {},
        }
        self.executing = true;
        Ok(())
    }

    /// Reports the outcome of an operation that `begin_call` let through.
    pub fn finish_call(&mut self, succeeded: bool, now_ms: u64)
        ensures
            final(self)@ == spec_finish(old(self)@, succeeded, now_ms),
    {
        self.executing = false;
        if succeeded {
            self.on_success();
        } else {
            self.on_failure(now_ms);
        }
    }

    fn on_success(&mut self)
        ensures
            final(self)@ == (BreakerView {
                failure_count: 0,
                state: CircuitState::Closed,
                last_failure_ms: None,
                ..old(self)@
            }),
    {
        self.failure_count = 0;
        self.state = CircuitState::Closed;
        self.last_failure_ms = None;
    }

    fn on_failure(&mut self, now_ms: u64)
        ensures
            final(self)@ == (BreakerView {
                failure_count: old(self)@.failure_count.wrapping_add(1),
                last_failure_ms: Some(now_ms),
                state: if old(self)@.failure_count.wrapping_add(1) >= old(self)@.failure_threshold {
                    CircuitState::Open
                } else {
                    old(self)@.state
                },
                ..old(self)@
            }),
    {
        let failures = self.failure_count.wrapping_add(1);
        self.failure_count = failures;
        self.last_failure_ms = Some(now_ms);
        if failures >= self.failure_threshold {
            self.state = CircuitState::Open;
        }
    }

    /// Current state.
    pub fn get_state(&self) -> (r: CircuitState)
        ensures
            r == self@.state,
    {
        self.state
    }

    /// Failures since the last success.
    pub fn get_failure_count(&self) -> (r: u64)
        ensures
            r == self@.failure_count,
    {
        self.failure_count
    }
}

/// A successful call closes the breaker and forgets every failure, whatever
/// state it was in.
pub proof fn lemma_success_closes(v: BreakerView, now_ms: u64)
    ensures
        spec_finish(v, true, now_ms).state == CircuitState::Closed,
        spec_finish(v, true, now_ms).failure_count == 0,
        spec_finish(v, true, now_ms).last_failure_ms is None,
{
}

/// Once a failure brings the count to the threshold the breaker is open, and
/// every call before the recovery timeout is refused without changing it.
pub proof fn lemma_open_rejects_until_timeout(v: BreakerView, fail_ms: u64, now_ms: u64)
    requires
        v.failure_count < u64::MAX,
        v.failure_count + 1 >= v.failure_threshold,
        fail_ms <= now_ms,
        now_ms - fail_ms < v.recovery_timeout_ms,
    ensures
        spec_finish(v, false, fail_ms).state == CircuitState::Open,
        spec_begin(spec_finish(v, false, fail_ms), now_ms).1 == Some(BreakerRejection::Open),
        spec_begin(spec_finish(v, false, fail_ms), now_ms).0 == spec_finish(v, false, fail_ms),
{
}

/// After the recovery timeout an open breaker lets one trial call through in
/// the half-open state, refuses a second concurrent one, and a success of the
/// trial closes it again.
pub proof fn lemma_recovery(v: BreakerView, now_ms: u64, later_ms: u64)
    requires
        v.state == CircuitState::Open,
        spec_reset_due(v, now_ms),
    ensures
        spec_begin(v, now_ms).1 is None,
        spec_begin(v, now_ms).0.state == CircuitState::HalfOpen,
        spec_begin(spec_begin(v, now_ms).0, now_ms).1 == Some(BreakerRejection::HalfOpenBusy),
        spec_finish(spec_begin(v, now_ms).0, true, later_ms).state == CircuitState::Closed,
{
}

/// Starting from a new breaker with threshold `n >= 1`, `n` consecutive
/// failures open it; fewer than `n` leave it closed.
pub proof fn lemma_threshold_failures_open(n: u64, timeout_ms: u64, k: nat, now_ms: u64)
    requires
        1 <= n,
        k <= n,
    ensures
        failures_from_new(n, timeout_ms, k, now_ms).failure_threshold == n,
        failures_from_new(n, timeout_ms, k, now_ms).failure_count == k,
        failures_from_new(n, timeout_ms, k, now_ms).state == (if k == n {
            CircuitState::Open
        } else {
            CircuitState::Closed
        }),
    decreases k,
{
    if k > 0 {
        lemma_threshold_failures_open(n, timeout_ms, (k - 1) as nat, now_ms);
        let prev = failures_from_new(n, timeout_ms, (k - 1) as nat, now_ms);
        let admitted = spec_begin(prev, now_ms).0;
        assert(admitted.failure_count.wrapping_add(1) == k);
    }
}

/// The breaker after `k` failed calls, each admitted and reported at `now_ms`,
/// starting from a new breaker.
pub open spec fn failures_from_new(n: u64, timeout_ms: u64, k: nat, now_ms: u64) -> BreakerView
    decreases k,
{
    if k == 0 {
        spec_new(n, timeout_ms)
    } else {
        let prev = failures_from_new(n, timeout_ms, (k - 1) as nat, now_ms);
        spec_finish(spec_begin(prev, now_ms).0, false, now_ms)
    }
}

} // verus!
