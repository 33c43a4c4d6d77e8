use whixp_transport::retry::RetryPolicy;
use whixp_transport::retry::next_retry_delay;

#[test]
fn backoff_first_delay_is_initial() {
    let p = RetryPolicy::default();
    assert_eq!(p.delay_for_attempt(0), 500);
}

#[test]
fn backoff_grows_exponentially_below_cap() {
    let p = RetryPolicy::default();
    assert_eq!(p.delay_for_attempt(1), 1000);
    assert_eq!(p.delay_for_attempt(2), 2000);
    assert_eq!(p.delay_for_attempt(3), 4000);
    assert_eq!(p.delay_for_attempt(4), 8000);
}

#[test]
fn backoff_clamps_to_max_delay() {
    let p = RetryPolicy { max_attempts: 10, initial_delay_ms: 500, max_delay_ms: 1000, multiplier: 2 };
    assert_eq!(p.delay_for_attempt(0), 500);
    assert_eq!(p.delay_for_attempt(1), 1000);
    assert_eq!(p.delay_for_attempt(2), 1000);
    assert_eq!(p.delay_for_attempt(9), 1000);
}

#[test]
fn backoff_at_attempt_cap_is_max_delay() {
    let p = RetryPolicy::default();
    assert_eq!(p.delay_for_attempt(5), 60000);
    assert_eq!(p.delay_for_attempt(6), 60000);
    assert_eq!(p.delay_for_attempt(1000), 60000);
}

#[test]
fn backoff_large_attempt_below_cap_stays_clamped() {
    let p = RetryPolicy { max_attempts: 200, initial_delay_ms: 500, max_delay_ms: 60000, multiplier: 2 };
    assert_eq!(p.delay_for_attempt(100), 60000);
}

#[test]
fn should_retry_respects_cap() {
    let p = RetryPolicy::default();
    assert!(p.should_retry(0));
    assert!(p.should_retry(4));
    assert!(!p.should_retry(5));
    assert!(!p.should_retry(6));
}

#[test]
fn next_retry_delay_stops_at_cap() {
    let p = RetryPolicy::default();
    assert_eq!(next_retry_delay(&p, 0), Some(500));
    assert_eq!(next_retry_delay(&p, 2), Some(2000));
    assert_eq!(next_retry_delay(&p, 5), None);
}
