use hive::circuit_breaker::{BreakerRejection, CircuitBreaker, CircuitState};

fn run(cb: &mut CircuitBreaker, ok: bool, now_ms: u64) -> Result<i32, String> {
    match cb.begin_call(now_ms) {
        Ok(()) => {
            cb.finish_call(ok, now_ms);
            if ok {
                Ok(42)
            } else {
                Err("error".to_string())
            }
        }
        Err(r) => Err(r.reason()),
    }
}

#[test]
fn test_circuit_breaker_closed_state() {
    let mut cb = CircuitBreaker::new(3, 100);
    let result = run(&mut cb, true, 0);
    assert!(result.is_ok());
    assert_eq!(result.unwrap(), 42);
}

#[test]
fn test_circuit_breaker_opens_after_failures() {
    let mut cb = CircuitBreaker::new(2, 100);
    let _ = run(&mut cb, false, 0);
    assert_eq!(cb.get_failure_count(), 1);
    let _ = run(&mut cb, false, 1);
    assert_eq!(cb.get_failure_count(), 2);
    let result = run(&mut cb, true, 2);
    assert!(result.is_err());
}

#[test]
fn test_circuit_breaker_recovery() {
    let mut cb = CircuitBreaker::new(1, 50);
    let _ = run(&mut cb, false, 0);
    let result = run(&mut cb, true, 100);
    assert!(result.is_ok());
    assert_eq!(cb.get_state(), CircuitState::Closed);
}

#[test]
fn open_breaker_reports_reason() {
    let mut cb = CircuitBreaker::new(1, 1000);
    let _ = run(&mut cb, false, 10);
    assert_eq!(cb.get_state(), CircuitState::Open);
    let r = cb.begin_call(500);
    assert_eq!(r, Err(BreakerRejection::Open));
    assert_eq!(BreakerRejection::Open.reason(), "Circuit breaker is open, operation rejected");
}

#[test]
fn half_open_allows_one_trial() {
    let mut cb = CircuitBreaker::new(1, 50);
    let _ = run(&mut cb, false, 0);
    assert!(cb.begin_call(60).is_ok());
    assert_eq!(cb.get_state(), CircuitState::HalfOpen);
    assert_eq!(cb.begin_call(61), Err(BreakerRejection::HalfOpenBusy));
    assert_eq!(
        BreakerRejection::HalfOpenBusy.reason(),
        "Circuit breaker is half-open and already executing"
    );
    cb.finish_call(false, 62);
    assert_eq!(cb.get_state(), CircuitState::Open);
}

#[test]
fn success_resets_failure_count() {
    let mut cb = CircuitBreaker::new(3, 100);
    let _ = run(&mut cb, false, 0);
    let _ = run(&mut cb, false, 1);
    assert_eq!(cb.get_failure_count(), 2);
    let _ = run(&mut cb, true, 2);
    assert_eq!(cb.get_failure_count(), 0);
    assert_eq!(cb.get_state(), CircuitState::Closed);
}
