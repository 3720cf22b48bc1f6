//! The retry and back-off policy.

use downpour::retry::{variation_at, RetryDecision, RetryPolicy, RetryState, TransientKind};
use downpour::time::{Duration, Timestamp};

/// Half a span.
fn half(span: Duration) -> Duration {
    Duration::from_nanos(span.as_nanos() / 2)
}

fn policy() -> RetryPolicy {
    RetryPolicy::default()
}


#[test]
fn the_default_budget_matches_the_spec() {
    let policy = policy();
    assert_eq!(policy.max_retries(), 5);
    assert_eq!(policy.base_delay(), Duration::from_millis(500));
    assert_eq!(policy.max_delay(), Duration::from_secs(30));
}

#[test]
fn a_transient_failure_is_retried_until_the_budget_is_spent() {
    let policy = policy();
    for attempt in 0..5 {
        let decision = policy.decide(TransientKind::ConnectionReset, attempt, None);
        assert!(
            matches!(decision, RetryDecision::RetryAfter(_)),
            "attempt {attempt} should retry, got {decision:?}"
        );
    }
    assert!(matches!(
        policy.decide(TransientKind::ConnectionReset, 5, None),
        RetryDecision::GiveUp
    ));
}

#[test]
fn back_off_grows_exponentially_and_is_capped() {
    let policy = policy();
    let mut previous = Duration::zero();
    for attempt in 0..8 {
        let RetryDecision::RetryAfter(delay) = policy.decide(TransientKind::Timeout, attempt, None)
        else {
            break;
        };
        assert!(
            delay <= policy.max_delay(),
            "attempt {attempt} exceeded the cap: {delay:?}"
        );
        assert!(
            delay >= previous || previous >= policy.max_delay(),
            "attempt {attempt} went backwards"
        );
        previous = delay;
    }
    assert!(
        previous > policy.base_delay(),
        "the delay never grew: {previous:?}"
    );
}

#[test]
fn back_off_is_jittered_so_retries_do_not_synchronise() {
    let policy = policy();
    let mut seen = std::collections::HashSet::new();
    for _ in 0..64 {
        if let RetryDecision::RetryAfter(delay) =
            policy.decide(TransientKind::ConnectionReset, 3, None)
        {
            seen.insert(delay.as_millis());
        }
    }
    assert!(
        seen.len() > 1,
        "delay for attempt 3 is deterministic ({seen:?}); no jitter applied"
    );
}


#[test]
fn retry_after_in_seconds_is_honoured_exactly() {
    let policy = policy();
    let decision = policy.decide(TransientKind::RateLimited, 0, Some("120"));
    assert_eq!(
        decision,
        RetryDecision::RetryAfter(Duration::from_secs(120))
    );
}

#[test]
fn retry_after_overrides_the_back_off_cap() {
    let policy = policy();
    let decision = policy.decide(TransientKind::ServiceUnavailable, 0, Some("600"));
    assert_eq!(
        decision,
        RetryDecision::RetryAfter(Duration::from_secs(600))
    );
}

#[test]
fn retry_after_zero_means_retry_immediately() {
    let policy = policy();
    assert_eq!(
        policy.decide(TransientKind::RateLimited, 0, Some("0")),
        RetryDecision::RetryAfter(Duration::zero())
    );
}

#[test]
fn an_http_date_retry_after_is_understood() {
    let policy = policy();
    let far_future =
        httpdate::fmt_http_date(
            std::time::SystemTime::now() + std::time::Duration::from_secs(300),
        );
    let RetryDecision::RetryAfter(delay) =
        policy.decide(TransientKind::RateLimited, 0, Some(&far_future))
    else {
        panic!("an HTTP-date Retry-After must be understood");
    };
    assert!(
        delay >= Duration::from_secs(290) && delay <= Duration::from_secs(300),
        "expected about 300 s, got {delay:?}"
    );
}

#[test]
fn an_http_date_in_the_past_means_retry_immediately() {
    let policy = policy();
    let past = httpdate::fmt_http_date(
        std::time::SystemTime::now() - std::time::Duration::from_secs(60),
    );
    assert_eq!(
        policy.decide(TransientKind::RateLimited, 0, Some(&past)),
        RetryDecision::RetryAfter(Duration::zero())
    );
}

#[test]
fn a_malformed_retry_after_falls_back_to_computed_back_off() {
    let policy = policy();
    for bad in ["", "soon", "-5", "12.5", "NaN", "Tue, 99 Xxx 9999"] {
        let decision = policy.decide(TransientKind::RateLimited, 0, Some(bad));
        assert!(
            matches!(decision, RetryDecision::RetryAfter(d) if d >= half(policy.base_delay())),
            "{bad:?} should fall back to computed back-off, got {decision:?}"
        );
    }
}

#[test]
fn an_absurd_retry_after_is_clamped_rather_than_trusted() {
    let policy = policy();
    let RetryDecision::RetryAfter(delay) =
        policy.decide(TransientKind::RateLimited, 0, Some("31536000"))
    else {
        panic!("should still be a retry decision");
    };
    assert!(delay <= policy.max_server_delay(), "not clamped: {delay:?}");
    assert!(
        delay > policy.max_delay(),
        "clamped too aggressively: {delay:?}"
    );
}


#[test]
fn a_client_error_is_not_retried() {
    let policy = policy();
    assert_eq!(
        policy.decide(TransientKind::NotRetryable, 0, None),
        RetryDecision::GiveUp
    );
}

#[test]
fn a_rate_limit_without_retry_after_still_backs_off() {
    let policy = policy();
    let RetryDecision::RetryAfter(delay) = policy.decide(TransientKind::RateLimited, 0, None)
    else {
        panic!("429 without Retry-After must still be retried");
    };
    assert!(
        delay >= half(policy.base_delay()),
        "{delay:?} is too short to be a back-off"
    );
    assert!(
        delay < policy.base_delay(),
        "{delay:?} exceeds the first-attempt window"
    );
}

#[test]
fn classification_from_a_status_matches_the_spec_table() {
    let cases = [
        (408_u16, Some(TransientKind::Timeout)),
        (429, Some(TransientKind::RateLimited)),
        (500, Some(TransientKind::ServerError)),
        (502, Some(TransientKind::ServerError)),
        (503, Some(TransientKind::ServiceUnavailable)),
        (504, Some(TransientKind::ServerError)),
        (401, None),
        (403, None),
        (410, None),
        (400, Some(TransientKind::NotRetryable)),
        (404, Some(TransientKind::NotRetryable)),
        (451, Some(TransientKind::NotRetryable)),
    ];
    for (status, expected) in cases {
        assert_eq!(
            TransientKind::from_status(status),
            expected,
            "status {status}"
        );
    }
}

#[test]
fn a_truncated_body_is_retryable_and_counts_against_the_budget() {
    let policy = policy();
    assert!(matches!(
        policy.decide(TransientKind::TruncatedBody, 0, None),
        RetryDecision::RetryAfter(_)
    ));
    assert_eq!(
        policy.decide(TransientKind::TruncatedBody, 5, None),
        RetryDecision::GiveUp
    );
}

#[test]
fn a_computed_delay_is_exact_for_a_given_variation() {
    let policy = policy();
    // The first window is 500 ms wide: its lower half is fixed, its upper half varies.
    assert_eq!(policy.backoff(0, 0), Duration::from_millis(250));
    assert_eq!(policy.backoff(0, 249), Duration::from_millis(499));
    assert_eq!(policy.backoff(3, 0), Duration::from_millis(2_000));
    assert_eq!(policy.backoff(40, 0), Duration::from_millis(15_000));
}

#[test]
fn a_decision_at_a_given_moment_is_exact() {
    let policy = policy();
    let now = Timestamp::from_secs(784_111_777);
    assert_eq!(
        policy.decide_at(
            TransientKind::RateLimited,
            0,
            Some("Sun, 06 Nov 1994 08:50:07 GMT"),
            now,
            0
        ),
        RetryDecision::RetryAfter(Duration::from_secs(30))
    );
    assert_eq!(
        policy.decide_at(
            TransientKind::RateLimited,
            0,
            Some("Sun, 06 Nov 1994 08:49:37 GMT"),
            now,
            0
        ),
        RetryDecision::RetryAfter(Duration::zero())
    );
    assert_eq!(
        policy.decide_at(TransientKind::Timeout, 1, Some("  7 "), now, 0),
        RetryDecision::RetryAfter(Duration::from_secs(7))
    );
}

#[test]
fn failures_are_counted_per_origin() {
    let mut state = RetryState::new();
    assert_eq!(state.attempts("https://a.test"), 0);
    assert_eq!(state.record_failure("https://a.test"), 1);
    assert_eq!(state.record_failure("https://a.test"), 2);
    assert_eq!(state.record_failure("https://b.test"), 1);
    assert_eq!(state.attempts("https://a.test"), 2);
    state.reset("https://a.test");
    assert_eq!(state.attempts("https://a.test"), 0);
    assert_eq!(state.attempts("https://b.test"), 1);
}

#[test]
fn only_one_kind_is_beyond_retrying() {
    assert!(!TransientKind::NotRetryable.is_retryable());
    assert!(TransientKind::RateLimited.is_retryable());
    assert!(TransientKind::TruncatedBody.is_retryable());
}

#[test]
fn the_variation_is_the_sub_second_part_of_the_clock() {
    assert_eq!(variation_at(Some(Timestamp { nanos: 7_123_456_789 })), 123_456_789);
    assert_eq!(variation_at(Some(Timestamp { nanos: 7_000_000_000 })), 0);
    assert_eq!(variation_at(Some(Timestamp { nanos: 999_999_999 })), 999_999_999);
    assert_eq!(variation_at(None), 0);
}
