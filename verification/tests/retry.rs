use clickvault::retry::{
    RetryPolicy, RetryStep, backoff_cap, backoff_delay, clock_number, has_delay, jittered,
    jittered_with, with_retry,
};
use clickvault::time::Duration;

fn fast_policy(attempts: u32) -> RetryPolicy {
    RetryPolicy {
        attempts,
        base_delay: Duration::from_millis(1),
        max_delay: Duration::from_millis(2),
    }
}

/// Runs an operation under a policy, without waiting in between.
fn run<T>(
    policy: &RetryPolicy,
    transient: bool,
    mut op: impl FnMut() -> Result<T, String>,
) -> Result<T, String> {
    let mut attempt = 0;
    loop {
        match op() {
            Ok(v) => return Ok(v),
            Err(e) => match with_retry(policy, attempt, transient) {
                RetryStep::RetryAfter(delay) => {
                    assert!(delay <= policy.max_delay);
                    attempt += 1;
                }
                RetryStep::GiveUp => return Err(e),
            },
        }
    }
}

#[test]
fn backoff_cap_grows_exponentially_and_clamps() {
    let policy = RetryPolicy {
        attempts: 10,
        base_delay: Duration::from_millis(100),
        max_delay: Duration::from_secs(1),
    };
    assert_eq!(backoff_cap(&policy, 0), Duration::from_millis(100));
    assert_eq!(backoff_cap(&policy, 1), Duration::from_millis(200));
    assert_eq!(backoff_cap(&policy, 2), Duration::from_millis(400));
    assert_eq!(backoff_cap(&policy, 3), Duration::from_millis(800));
    // Clamped to max_delay from here on, even at absurd attempt counts.
    assert_eq!(backoff_cap(&policy, 4), Duration::from_secs(1));
    assert_eq!(backoff_cap(&policy, 63), Duration::from_secs(1));
}

#[test]
fn jittered_stays_within_cap() {
    let cap = Duration::from_millis(50);
    for _ in 0..100 {
        assert!(jittered(cap) <= cap);
    }
    assert_eq!(jittered(Duration::from_millis(0)), Duration::from_millis(0));
}

#[test]
fn retries_transient_errors_until_success() {
    let mut calls = 0u32;
    let result = run(&fast_policy(3), true, || {
        calls += 1;
        if calls < 3 {
            Err("boom".to_string())
        } else {
            Ok(calls)
        }
    });
    assert_eq!(result, Ok(3));
    assert_eq!(calls, 3);
}

#[test]
fn gives_up_after_max_attempts() {
    let mut calls = 0u32;
    let result: Result<(), String> = run(&fast_policy(3), true, || {
        calls += 1;
        Err("always".to_string())
    });
    assert_eq!(result, Err("always".to_string()));
    assert_eq!(calls, 3);
}

#[test]
fn non_transient_errors_fail_immediately() {
    let mut calls = 0u32;
    let result: Result<(), String> = run(&fast_policy(5), false, || {
        calls += 1;
        Err("fatal".to_string())
    });
    assert_eq!(result, Err("fatal".to_string()));
    assert_eq!(calls, 1);
}

#[test]
fn single_attempt_policy_never_retries() {
    let mut calls = 0u32;
    let result: Result<(), String> = run(&fast_policy(1), true, || {
        calls += 1;
        Err("boom".to_string())
    });
    assert!(result.is_err());
    assert_eq!(calls, 1);
}

#[test]
fn no_attempts_mean_no_retry() {
    assert_eq!(with_retry(&fast_policy(0), 0, true), RetryStep::GiveUp);
    assert_eq!(with_retry(&fast_policy(u32::MAX), u32::MAX, true), RetryStep::GiveUp);
}

#[test]
fn the_default_policy_tries_three_times() {
    let policy = RetryPolicy::default();
    assert_eq!(policy.attempts, 3);
    assert_eq!(policy.base_delay, Duration::from_millis(200));
    assert_eq!(policy.max_delay, Duration::from_secs(5));
}

#[test]
fn the_clock_picks_the_delay() {
    let cap = Duration::from_millis(50);
    assert_eq!(jittered_with(cap, 0), Duration::from_millis(0));
    assert_eq!(jittered_with(cap, 50), Duration::from_millis(50));
    assert_eq!(jittered_with(cap, 51), Duration::from_millis(0));
    assert_eq!(jittered_with(cap, 1_234), Duration::from_millis(1_234 % 51));
    // Fractions of a millisecond do not count.
    assert_eq!(jittered_with(Duration::new(0, 999_999), 7), Duration::from_millis(0));
}

#[test]
fn the_clock_does_not_stand_still() {
    let cap = Duration::from_millis(1_000_000_000);
    let first = jittered(cap);
    let mut moved = false;
    for _ in 0..1_000_000 {
        if jittered(cap) != first {
            moved = true;
            break;
        }
    }
    assert!(moved);
}

#[test]
fn delays_stay_under_their_cap() {
    let policy = RetryPolicy {
        attempts: 10,
        base_delay: Duration::from_millis(100),
        max_delay: Duration::from_secs(1),
    };
    for attempt in 0..8 {
        assert!(has_delay(&policy, attempt));
        assert!(backoff_delay(&policy, attempt) <= backoff_cap(&policy, attempt));
    }
    let endless = RetryPolicy {
        attempts: 2,
        base_delay: Duration::from_millis(u64::MAX),
        max_delay: Duration::from_millis(u64::MAX),
    };
    assert!(!has_delay(&endless, 0));
}

#[test]
fn huge_attempt_numbers_keep_doubling_until_the_maximum() {
    let policy = RetryPolicy {
        attempts: 100,
        base_delay: Duration::from_millis(1),
        max_delay: Duration::from_millis(u64::MAX),
    };
    assert_eq!(backoff_cap(&policy, 33), Duration::from_millis(1 << 33));
    assert_eq!(backoff_cap(&policy, 64), Duration::from_millis(u64::MAX));
    assert_eq!(backoff_cap(&policy, u32::MAX), Duration::from_millis(u64::MAX));
    let zero = RetryPolicy { base_delay: Duration::from_millis(0), ..policy };
    assert_eq!(backoff_cap(&zero, u32::MAX), Duration::from_millis(0));
}

#[test]
fn a_clock_before_the_epoch_counts_as_zero() {
    assert_eq!(clock_number(Some(123_456_789)), 123_456_789);
    assert_eq!(clock_number(Some(0)), 0);
    assert_eq!(clock_number(None), 0);
}
