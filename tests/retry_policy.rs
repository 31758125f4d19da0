use estate_harvest::retry::{Backoff, RetryDecision, RetryPolicy, RetryRun};

fn exponential(retries: u32) -> RetryPolicy {
    RetryPolicy { backoff: Backoff::Exponential { base_ms: 500, max_delay_ms: 30000 }, max_retries: retries }
}

#[test]
fn exponential_backoff_grows_then_caps() {
    let mut run = RetryRun::new(&exponential(3));
    assert_eq!(run.record_outcome(false), RetryDecision::RetryAfter(500));
    assert_eq!(run.record_outcome(false), RetryDecision::RetryAfter(30000));
    assert_eq!(run.record_outcome(false), RetryDecision::RetryAfter(30000));
    assert_eq!(run.record_outcome(false), RetryDecision::Finish);
    assert_eq!(run.failure_count(), 3);
}

#[test]
fn exponential_backoff_small_base_is_powers() {
    let policy = RetryPolicy { backoff: Backoff::Exponential { base_ms: 2, max_delay_ms: 1000 }, max_retries: 4 };
    let mut run = RetryRun::new(&policy);
    assert_eq!(run.record_outcome(false), RetryDecision::RetryAfter(2));
    assert_eq!(run.record_outcome(false), RetryDecision::RetryAfter(4));
    assert_eq!(run.record_outcome(false), RetryDecision::RetryAfter(8));
    assert_eq!(run.record_outcome(false), RetryDecision::RetryAfter(16));
    assert_eq!(run.record_outcome(false), RetryDecision::Finish);
}

#[test]
fn fixed_interval_repeats_delay() {
    let policy = RetryPolicy { backoff: Backoff::Fixed { interval_ms: 500 }, max_retries: 6 };
    let mut run = RetryRun::new(&policy);
    for _ in 0..6 {
        assert_eq!(run.record_outcome(false), RetryDecision::RetryAfter(500));
    }
    assert_eq!(run.record_outcome(false), RetryDecision::Finish);
}

#[test]
fn success_finishes_without_retry() {
    let mut run = RetryRun::new(&exponential(2));
    assert_eq!(run.record_outcome(true), RetryDecision::Finish);
    assert_eq!(run.failure_count(), 0);
}

#[test]
fn zero_retries_gives_up_at_first_failure() {
    let mut run = RetryRun::new(&exponential(0));
    assert_eq!(run.record_outcome(false), RetryDecision::Finish);
    assert_eq!(run.failure_count(), 0);
}
