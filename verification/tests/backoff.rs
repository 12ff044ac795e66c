use phrack_issue_manager::retry::{
    classify_status, Attempts, FailureKind, RetryDecision, RetryPolicy,
};

#[test]
fn transient_failures_are_retried_with_doubling_delay() {
    let policy = RetryPolicy { max_attempts: 4, base_delay_ms: 250 };
    assert_eq!(
        policy.should_retry(0, FailureKind::TransientNetwork),
        RetryDecision::RetryAfter(250)
    );
    assert_eq!(
        policy.should_retry(1, FailureKind::TransientNetwork),
        RetryDecision::RetryAfter(500)
    );
    assert_eq!(
        policy.should_retry(2, FailureKind::TransientNetwork),
        RetryDecision::RetryAfter(1000)
    );
    assert_eq!(policy.should_retry(3, FailureKind::TransientNetwork), RetryDecision::GiveUp);
    assert_eq!(policy.should_retry(9, FailureKind::TransientNetwork), RetryDecision::GiveUp);
}

#[test]
fn missing_and_unreadable_resources_are_never_retried() {
    let policy = RetryPolicy { max_attempts: 10, base_delay_ms: 100 };
    assert_eq!(policy.should_retry(0, FailureKind::NotFound), RetryDecision::GiveUp);
    assert_eq!(policy.should_retry(0, FailureKind::MalformedResponse), RetryDecision::GiveUp);
}

#[test]
fn delay_is_held_at_the_largest_value() {
    let policy = RetryPolicy { max_attempts: u32::MAX, base_delay_ms: 3 };
    assert_eq!(policy.delay_after(0), 3);
    assert_eq!(policy.delay_after(10), 3072);
    assert_eq!(policy.delay_after(62), 3 << 62);
    assert_eq!(policy.delay_after(63), u64::MAX);
    assert_eq!(policy.delay_after(4_000_000_000), u64::MAX);
    assert_eq!(
        policy.should_retry(u32::MAX - 2, FailureKind::TransientNetwork),
        RetryDecision::RetryAfter(u64::MAX)
    );
    assert_eq!(policy.should_retry(u32::MAX, FailureKind::TransientNetwork), RetryDecision::GiveUp);
}

#[test]
fn a_policy_without_attempts_or_delay() {
    let none = RetryPolicy { max_attempts: 0, base_delay_ms: 100 };
    assert_eq!(none.should_retry(0, FailureKind::TransientNetwork), RetryDecision::GiveUp);
    let one = RetryPolicy { max_attempts: 1, base_delay_ms: 100 };
    assert_eq!(one.should_retry(0, FailureKind::TransientNetwork), RetryDecision::GiveUp);
    let eager = RetryPolicy { max_attempts: 3, base_delay_ms: 0 };
    assert_eq!(
        eager.should_retry(1, FailureKind::TransientNetwork),
        RetryDecision::RetryAfter(0)
    );
    assert_eq!(eager.delay_after(4_000_000_000), 0);
}

#[test]
fn http_statuses_are_sorted_into_failure_kinds() {
    assert_eq!(classify_status(200), None);
    assert_eq!(classify_status(299), None);
    assert_eq!(classify_status(404), Some(FailureKind::NotFound));
    assert_eq!(classify_status(500), Some(FailureKind::TransientNetwork));
    assert_eq!(classify_status(599), Some(FailureKind::TransientNetwork));
    assert_eq!(classify_status(600), Some(FailureKind::MalformedResponse));
    assert_eq!(classify_status(301), Some(FailureKind::MalformedResponse));
    assert_eq!(classify_status(199), Some(FailureKind::MalformedResponse));
    assert_eq!(classify_status(403), Some(FailureKind::MalformedResponse));
}

#[test]
fn a_request_is_tried_four_times_at_most() {
    let mut attempts = Attempts::new();
    assert_eq!(attempts.policy, RetryPolicy { max_attempts: 4, base_delay_ms: 500 });
    assert_eq!(attempts.on_failure(FailureKind::TransientNetwork), RetryDecision::RetryAfter(500));
    assert_eq!(attempts.on_failure(FailureKind::TransientNetwork), RetryDecision::RetryAfter(1000));
    assert_eq!(attempts.on_failure(FailureKind::TransientNetwork), RetryDecision::RetryAfter(2000));
    assert_eq!(attempts.on_failure(FailureKind::TransientNetwork), RetryDecision::GiveUp);
    assert_eq!(attempts.failed, 4);
    let mut other = Attempts::under(RetryPolicy { max_attempts: 9, base_delay_ms: 1 });
    assert_eq!(other.on_failure(FailureKind::TransientNetwork), RetryDecision::RetryAfter(1));
    assert_eq!(other.on_failure(FailureKind::NotFound), RetryDecision::GiveUp);
    let mut last = Attempts { policy: other.policy, failed: u32::MAX };
    assert_eq!(last.on_failure(FailureKind::TransientNetwork), RetryDecision::GiveUp);
    assert_eq!(last.failed, u32::MAX);
}
