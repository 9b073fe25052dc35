use amazon_rose_forest::network::circuit_breaker::{CircuitBreaker, CircuitState};

#[test]
fn breaker_opens_after_threshold_failures() {
    let mut cb = CircuitBreaker::new("svc", 3, 1_000, 500);
    assert_eq!(cb.get_state(), CircuitState::Closed);
    assert!(cb.can_execute_at(0));
    cb.on_failure_at(10);
    cb.on_failure_at(20);
    assert_eq!(cb.get_state(), CircuitState::Closed);
    cb.on_failure_at(30);
    assert_eq!(cb.get_state(), CircuitState::Open);
    assert!(!cb.can_execute_at(500));
    let m = cb.get_metrics();
    assert_eq!(m.failed_calls, 3);
    assert_eq!(m.rejected_calls, 1);
    assert_eq!(m.state_transitions.len(), 1);
    assert_eq!(m.state_transitions[0].from, CircuitState::Closed);
    assert_eq!(m.state_transitions[0].to, CircuitState::Open);
    assert_eq!(m.state_transitions[0].at_ms, 30);
}

#[test]
fn breaker_half_opens_after_reset_timeout_and_closes_on_success() {
    let mut cb = CircuitBreaker::new("svc", 1, 1_000, 500);
    cb.on_failure_at(100);
    assert_eq!(cb.get_state(), CircuitState::Open);
    assert!(!cb.can_execute_at(1_099));
    assert!(cb.can_execute_at(1_100));
    assert_eq!(cb.get_state(), CircuitState::HalfOpen);
    cb.on_success_at(1_200);
    assert_eq!(cb.get_state(), CircuitState::Closed);
    let m = cb.get_metrics();
    assert_eq!(m.successful_calls, 1);
    assert_eq!(m.current_failure_count, 0);
    assert_eq!(m.last_success, Some(1_200));
    assert_eq!(m.state_transitions.len(), 3);
}

#[test]
fn failure_while_half_open_reopens() {
    let mut cb = CircuitBreaker::new("svc", 1, 10, 500);
    cb.on_failure_at(0);
    assert!(cb.can_execute_at(10));
    assert_eq!(cb.get_state(), CircuitState::HalfOpen);
    cb.on_failure_at(11);
    assert_eq!(cb.get_state(), CircuitState::Open);
}

#[test]
fn success_resets_failure_count_when_closed() {
    let mut cb = CircuitBreaker::new("svc", 3, 10, 500);
    cb.on_failure_at(0);
    cb.on_failure_at(1);
    cb.on_success_at(2);
    cb.on_failure_at(3);
    cb.on_failure_at(4);
    assert_eq!(cb.get_state(), CircuitState::Closed);
    assert_eq!(cb.get_metrics().current_failure_count, 2);
}

#[test]
fn response_times_are_kept_in_a_window() {
    let mut cb = CircuitBreaker::new("svc", 3, 10, 500);
    for i in 0..150u64 {
        cb.record_response_time(i);
    }
    let m = cb.get_metrics();
    assert_eq!(m.response_time_samples, 100);
    assert_eq!(m.response_time_total_ms, (50u128..150).sum::<u128>());
    assert_eq!(cb.request_timeout_ms(), 500);
    assert_eq!(cb.name(), "svc");
}

#[test]
fn state_codes_roundtrip() {
    for s in [CircuitState::Closed, CircuitState::Open, CircuitState::HalfOpen] {
        assert_eq!(CircuitState::from_code(s.code()), s);
    }
    assert_eq!(CircuitState::Closed.name(), "Closed");
    assert_eq!(CircuitState::HalfOpen.name(), "HalfOpen");
}

#[test]
fn half_open_lets_one_trial_through() {
    let mut cb = CircuitBreaker::new("svc", 1, 0, 1_000);
    cb.on_failure();
    assert_eq!(cb.get_state(), CircuitState::Open);
    assert!(cb.can_execute());
    assert_eq!(cb.get_state(), CircuitState::HalfOpen);
    assert!(!cb.can_execute());
    assert!(!cb.can_execute());
    assert_eq!(cb.get_metrics().rejected_calls, 2);
    cb.on_success();
    assert_eq!(cb.get_state(), CircuitState::Closed);
    assert!(cb.can_execute());
}

#[test]
fn half_open_trial_at_times() {
    let mut cb = CircuitBreaker::new("svc", 1, 10, 500);
    cb.on_failure_at(0);
    assert!(cb.can_execute_at(10));
    assert!(!cb.can_execute_at(11));
    cb.on_failure_at(12);
    assert_eq!(cb.get_state(), CircuitState::Open);
    assert!(!cb.can_execute_at(13));
    assert!(cb.can_execute_at(22));
    assert_eq!(cb.get_state(), CircuitState::HalfOpen);
}

#[test]
fn third_failure_records_one_transition() {
    let mut cb = CircuitBreaker::new("svc", 3, 30_000, 1_000);
    cb.on_failure();
    cb.on_failure();
    assert_eq!(cb.get_state(), CircuitState::Closed);
    cb.on_failure();
    assert_eq!(cb.get_state(), CircuitState::Open);
    let m = cb.get_metrics();
    assert_eq!(m.state_transitions.len(), 1);
    assert_eq!(m.state_transitions[0].from, CircuitState::Closed);
    assert_eq!(m.state_transitions[0].to, CircuitState::Open);
    assert!(m.last_failure.is_some());
}
