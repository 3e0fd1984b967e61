use fuse_engine::error::ErrorCode;
use fuse_engine::error::ErrorKind;
use fuse_engine::error::IoErrorKind;
use fuse_engine::retry::classify;
use fuse_engine::retry::ErrorClass;
use fuse_engine::retry::RangeReadAttempts;
use fuse_engine::retry::RetryDecision;
use fuse_engine::retry::RetryNotice;
use fuse_engine::retry::RetryPolicy;

fn policy() -> RetryPolicy {
    RetryPolicy { max_attempts: 4, initial_delay_ms: 100, multiplier: 3, max_delay_ms: 500 }
}

#[test]
fn network_failures_are_transient_and_the_rest_permanent() {
    for kind in [
        IoErrorKind::ConnectionRefused,
        IoErrorKind::ConnectionReset,
        IoErrorKind::ConnectionAborted,
        IoErrorKind::NotConnected,
        IoErrorKind::BrokenPipe,
        IoErrorKind::TimedOut,
        IoErrorKind::Interrupted,
    ] {
        assert_eq!(classify(kind), ErrorClass::Transient);
    }
    for kind in [
        IoErrorKind::NotFound,
        IoErrorKind::PermissionDenied,
        IoErrorKind::UnexpectedEof,
        IoErrorKind::InvalidInput,
        IoErrorKind::InvalidData,
        IoErrorKind::Other,
    ] {
        assert_eq!(classify(kind), ErrorClass::Permanent);
    }
}

#[test]
fn two_transient_failures_then_success_notify_twice() {
    let mut attempts = RangeReadAttempts::new(RetryPolicy::default());
    let mut notices = Vec::new();
    let outcomes: Vec<Result<Vec<u8>, IoErrorKind>> = vec![
        Err(IoErrorKind::TimedOut),
        Err(IoErrorKind::ConnectionReset),
        Ok(vec![3, 3, 3]),
    ];
    let mut fetched = None;
    for (i, outcome) in outcomes.into_iter().enumerate() {
        match outcome {
            Ok(bytes) => {
                fetched = Some(bytes);
                break;
            }
            Err(cause) => match attempts.on_failure(cause, 1000 * i as u64) {
                RetryDecision::Retry { notice, .. } => notices.push(notice),
                RetryDecision::GiveUp(e) => panic!("gave up with {:?}", e),
            },
        }
    }
    assert_eq!(fetched, Some(vec![3, 3, 3]));
    assert_eq!(
        notices,
        vec![
            RetryNotice { cause: IoErrorKind::TimedOut, elapsed_ms: 0 },
            RetryNotice { cause: IoErrorKind::ConnectionReset, elapsed_ms: 1000 },
        ]
    );
    assert_eq!(attempts.retries(), 2);
}

#[test]
fn permanent_failure_gives_up_at_once() {
    let mut attempts = RangeReadAttempts::new(policy());
    let decision = attempts.on_failure(IoErrorKind::NotFound, 12);
    let expected = ErrorCode::PermanentIo { cause: IoErrorKind::NotFound };
    assert_eq!(decision, RetryDecision::GiveUp(expected));
    assert_eq!(expected.kind(), ErrorKind::PermanentIo);
    assert!(!expected.is_retryable());
    assert_eq!(attempts.retries(), 0);
    let mut attempts = RangeReadAttempts::new(policy());
    attempts.on_failure(IoErrorKind::TimedOut, 1);
    assert_eq!(
        attempts.on_failure(IoErrorKind::PermissionDenied, 2),
        RetryDecision::GiveUp(ErrorCode::PermanentIo { cause: IoErrorKind::PermissionDenied })
    );
    assert_eq!(attempts.retries(), 1);
}

#[test]
fn delays_grow_by_the_multiplier_up_to_the_cap() {
    let mut attempts = RangeReadAttempts::new(policy());
    let mut delays = Vec::new();
    loop {
        match attempts.on_failure(IoErrorKind::TimedOut, 0) {
            RetryDecision::Retry { delay_ms, .. } => delays.push(delay_ms),
            RetryDecision::GiveUp(e) => {
                assert_eq!(
                    e,
                    ErrorCode::RetriesExhausted { cause: IoErrorKind::TimedOut, attempts: 4 }
                );
                assert_eq!(e.kind(), ErrorKind::TransientIo);
                break;
            }
        }
    }
    assert_eq!(delays, vec![100, 300, 500]);
    assert_eq!(attempts.retries(), 3);
}

#[test]
fn delay_saturates_instead_of_overflowing() {
    let policy = RetryPolicy {
        max_attempts: 6,
        initial_delay_ms: u64::MAX / 2,
        multiplier: 4,
        max_delay_ms: u64::MAX,
    };
    let mut attempts = RangeReadAttempts::new(policy);
    let mut delays = Vec::new();
    while let RetryDecision::Retry { delay_ms, .. } = attempts.on_failure(IoErrorKind::BrokenPipe, 0) {
        delays.push(delay_ms);
    }
    assert_eq!(delays, vec![u64::MAX / 2, u64::MAX, u64::MAX, u64::MAX, u64::MAX]);
}

#[test]
fn initial_delay_is_capped() {
    let policy = RetryPolicy { max_attempts: 3, initial_delay_ms: 900, multiplier: 0, max_delay_ms: 50 };
    let mut attempts = RangeReadAttempts::new(policy);
    assert_eq!(
        attempts.on_failure(IoErrorKind::Interrupted, 5),
        RetryDecision::Retry {
            delay_ms: 50,
            notice: RetryNotice { cause: IoErrorKind::Interrupted, elapsed_ms: 5 },
        }
    );
    assert_eq!(
        attempts.on_failure(IoErrorKind::Interrupted, 6),
        RetryDecision::Retry {
            delay_ms: 0,
            notice: RetryNotice { cause: IoErrorKind::Interrupted, elapsed_ms: 6 },
        }
    );
}

#[test]
fn a_single_attempt_is_never_retried() {
    for max_attempts in [0u32, 1] {
        let policy = RetryPolicy { max_attempts, initial_delay_ms: 1, multiplier: 2, max_delay_ms: 9 };
        let mut attempts = RangeReadAttempts::new(policy);
        assert_eq!(
            attempts.on_failure(IoErrorKind::TimedOut, 0),
            RetryDecision::GiveUp(ErrorCode::RetriesExhausted {
                cause: IoErrorKind::TimedOut,
                attempts: 1,
            })
        );
    }
}

#[test]
fn default_policy_allows_five_attempts() {
    assert_eq!(
        RetryPolicy::default(),
        RetryPolicy { max_attempts: 5, initial_delay_ms: 500, multiplier: 2, max_delay_ms: 60_000 }
    );
}
