//! What to do when one range read fails: try again later, or give up.
//!
//! A failure of the network or timeout class is worth another attempt
//! after a delay that grows from attempt to attempt, up to a bounded
//! number of attempts. Any other failure ends the read at once.

use crate::error::ErrorCode;
use crate::error::IoErrorKind;
use vstd::prelude::*;

verus! {

/// Whether a failed read is worth another attempt.
#[derive(Clone, Copy, Debug, PartialEq, Eq, Structural)]
pub enum ErrorClass {
    /// The same read may succeed when tried again.
    Transient,
    /// No retry can mend it.
    Permanent,
}

/// Network and timeout failures are transient; every other failure,
/// among them not-found and permission failures, is permanent.
pub open spec fn spec_classify(kind: IoErrorKind) -> ErrorClass {
    match kind {
        IoErrorKind::ConnectionRefused => ErrorClass::Transient,
        IoErrorKind::ConnectionReset => ErrorClass::Transient,
        IoErrorKind::ConnectionAborted => ErrorClass::Transient,
        IoErrorKind::NotConnected => ErrorClass::Transient,
        IoErrorKind::BrokenPipe => ErrorClass::Transient,
        IoErrorKind::TimedOut => ErrorClass::Transient,
        IoErrorKind::Interrupted => ErrorClass::Transient,
        _ => ErrorClass::Permanent,
    }
}

/// The class of a failure.
#[verifier::when_used_as_spec(spec_classify)]
pub fn classify(kind: IoErrorKind) -> (class: ErrorClass)
    ensures
        class == spec_classify(kind),
{
    match kind {
        IoErrorKind::ConnectionRefused => ErrorClass::Transient,
        IoErrorKind::ConnectionReset => ErrorClass::Transient,
        IoErrorKind::ConnectionAborted => ErrorClass::Transient,
        IoErrorKind::NotConnected => ErrorClass::Transient,
        IoErrorKind::BrokenPipe => ErrorClass::Transient,
        IoErrorKind::TimedOut => ErrorClass::Transient,
        IoErrorKind::Interrupted => ErrorClass::Transient,
        _ => ErrorClass::Permanent,
    }
}

/// How often a read is attempted and how long it waits in between.
#[derive(Clone, Copy, Debug, PartialEq, Eq, Structural)]
pub struct RetryPolicy {
    /// The most attempts made for one read, the first one included.
    pub max_attempts: u32,
    /// The wait before the second attempt, in milliseconds.
    pub initial_delay_ms: u64,
    /// The factor by which the wait grows from one retry to the next.
    pub multiplier: u64,
    /// The longest wait, in milliseconds.
    pub max_delay_ms: u64,
}

impl RetryPolicy {
    /// The wait before retry number `retry`, counted from zero: the
    /// initial wait times the multiplier once for each earlier retry,
    /// capped at the longest wait.
    pub open spec fn delay(self, retry: nat) -> nat
        decreases retry,
    {
        let uncapped = if retry == 0 {
            self.initial_delay_ms as nat
        } else {
            self.delay((retry - 1) as nat) * (self.multiplier as nat)
        };
        if uncapped <= self.max_delay_ms {
            uncapped
        } else {
            self.max_delay_ms as nat
        }
    }
}

impl Default for RetryPolicy {
    /// Up to five attempts, waiting half a second at first and twice as
    /// long each time after, a minute at most.
    fn default() -> (policy: RetryPolicy)
        ensures
            policy == (RetryPolicy {
                max_attempts: 5,
                initial_delay_ms: 500,
                multiplier: 2,
                max_delay_ms: 60_000,
            }),
    {
        RetryPolicy { max_attempts: 5, initial_delay_ms: 500, multiplier: 2, max_delay_ms: 60_000 }
    }
}

/// What the observer of a read is told on each retry.
#[derive(Clone, Copy, Debug, PartialEq, Eq, Structural)]
pub struct RetryNotice {
    /// The failure that is being retried.
    pub cause: IoErrorKind,
    /// The time since the read was first attempted, in milliseconds.
    pub elapsed_ms: u64,
}

/// What follows a failed attempt.
#[derive(Clone, Copy, Debug, PartialEq, Eq, Structural)]
pub enum RetryDecision {
    /// Tell the observer, wait `delay_ms` milliseconds, attempt again.
    Retry { delay_ms: u64, notice: RetryNotice },
    /// The read has failed with this error.
    GiveUp(ErrorCode),
}

/// Mathematical model of the attempts made for one read: the policy, and
/// the number of failures that were answered by a retry.
pub struct AttemptsView {
    pub policy: RetryPolicy,
    pub retries: nat,
}

impl AttemptsView {
    /// What a failure of kind `cause`, seen `elapsed_ms` after the first
    /// attempt began, is answered with.
    pub open spec fn decide(self, cause: IoErrorKind, elapsed_ms: u64) -> RetryDecision {
        if spec_classify(cause) == ErrorClass::Permanent {
            RetryDecision::GiveUp(ErrorCode::PermanentIo { cause })
        } else if self.retries + 1 >= self.policy.max_attempts {
            RetryDecision::GiveUp(
                ErrorCode::RetriesExhausted { cause, attempts: (self.retries + 1) as u32 },
            )
        } else {
            RetryDecision::Retry {
                delay_ms: self.policy.delay(self.retries) as u64,
                notice: RetryNotice { cause, elapsed_ms },
            }
        }
    }

    /// The attempts after that failure: one more retry where the answer
    /// was to retry, unchanged otherwise.
    pub open spec fn after(self, cause: IoErrorKind, elapsed_ms: u64) -> AttemptsView {
        match self.decide(cause, elapsed_ms) {
            RetryDecision::Retry { .. } => AttemptsView { retries: self.retries + 1, ..self },
            RetryDecision::GiveUp(_) => self,
        }
    }

    /// Retries stay below the attempts allowed.
    pub open spec fn wf(self) -> bool {
        self.retries == 0 || self.retries < self.policy.max_attempts
    }
}

/// The attempts made for one range read.
#[derive(Clone, Copy, Debug)]
pub struct RangeReadAttempts {
    policy: RetryPolicy,
    retries: u32,
    next_delay_ms: u64,
}

impl View for RangeReadAttempts {
    type V = AttemptsView;

    closed spec fn view(&self) -> AttemptsView {
        AttemptsView { policy: self.policy, retries: self.retries as nat }
    }
}

impl RangeReadAttempts {
    /// What every value satisfies from its creation on.
    pub closed spec fn wf(&self) -> bool {
        &&& self@.wf()
        &&& self.next_delay_ms == self.policy.delay(self.retries as nat)
    }

    /// A read that has not failed yet.
    pub fn new(policy: RetryPolicy) -> (attempts: RangeReadAttempts)
        ensures
            attempts.wf(),
            attempts@ == (AttemptsView { policy, retries: 0 }),
    {
        let next_delay_ms = if policy.initial_delay_ms <= policy.max_delay_ms {
            policy.initial_delay_ms
        } else {
            policy.max_delay_ms
        };
        RangeReadAttempts { policy, retries: 0, next_delay_ms }
    }

    /// Decides what follows a failed attempt.
    ///
    /// `elapsed_ms` is the time since the first attempt began; it is
    /// handed on to the observer and decides nothing.
    pub fn on_failure(&mut self, cause: IoErrorKind, elapsed_ms: u64) -> (decision: RetryDecision)
        requires
            old(self).wf(),
        ensures
            final(self).wf(),
            decision == old(self)@.decide(cause, elapsed_ms),
            final(self)@ == old(self)@.after(cause, elapsed_ms),
    {
        match classify(cause) {
            ErrorClass::Permanent => RetryDecision::GiveUp(ErrorCode::PermanentIo { cause }),
            ErrorClass::Transient => {
                if self.retries >= self.policy.max_attempts || self.retries + 1
                    >= self.policy.max_attempts {
                    RetryDecision::GiveUp(
                        ErrorCode::RetriesExhausted { cause, attempts: self.retries + 1 },
                    )
                } else {
                    let delay_ms = self.next_delay_ms;
                    self.retries = self.retries + 1;
                    self.next_delay_ms = match delay_ms.checked_mul(self.policy.multiplier) {
                        Some(grown) => if grown <= self.policy.max_delay_ms {
                            grown
                        } else {
                            self.policy.max_delay_ms
                        },
                        None => self.policy.max_delay_ms,
                    };
                    RetryDecision::Retry { delay_ms, notice: RetryNotice { cause, elapsed_ms } }
                }
            },
        }
    }

    /// The number of failures that were answered by a retry.
    pub fn retries(&self) -> (n: u32)
        ensures
            n == self@.retries,
    {
        self.retries
    }
}

/// How one attempt of a read ended.
pub enum Attempt {
    Fetched(Seq<u8>),
    Failed { cause: IoErrorKind, elapsed_ms: u64 },
}

/// How a read ended, and what its observer was told on the way.
pub struct ReadOutcome {
    /// One notice per retry, in order.
    pub notices: Seq<RetryNotice>,
    /// The bytes or the error that the read ended with; `None` where the
    /// attempts ran out before the read ended.
    pub result: Option<Result<Seq<u8>, ErrorCode>>,
}

impl AttemptsView {
    /// The read that makes `attempts` one after the other for as long as
    /// the answer to a failure is to retry.
    pub open spec fn play(self, attempts: Seq<Attempt>) -> ReadOutcome
        decreases attempts.len(),
    {
        if attempts.len() == 0 {
            ReadOutcome { notices: Seq::empty(), result: None }
        } else {
            match attempts[0] {
                Attempt::Fetched(bytes) => ReadOutcome {
                    notices: Seq::empty(),
                    result: Some(Ok(bytes)),
                },
                Attempt::Failed { cause, elapsed_ms } => match self.decide(cause, elapsed_ms) {
                    RetryDecision::GiveUp(e) => ReadOutcome {
                        notices: Seq::empty(),
                        result: Some(Err(e)),
                    },
                    RetryDecision::Retry { notice, .. } => {
                        let rest = self.after(cause, elapsed_ms).play(attempts.drop_first());
                        ReadOutcome { notices: seq![notice] + rest.notices, result: rest.result }
                    },
                },
            }
        }
    }

    /// A read whose attempts fail transiently and then succeed within the
    /// attempts allowed ends with the bytes of the successful attempt, and
    /// its observer is told of each failure once, in order.
    pub proof fn lemma_transient_failures_then_success(
        self,
        failures: Seq<(IoErrorKind, u64)>,
        bytes: Seq<u8>,
    )
        requires
            forall|i: int|
                0 <= i < failures.len() ==> spec_classify((#[trigger] failures[i]).0)
                    == ErrorClass::Transient,
            self.retries + failures.len() < self.policy.max_attempts,
        ensures
            ({
                let attempts = failures.map_values(
                    |f: (IoErrorKind, u64)| Attempt::Failed { cause: f.0, elapsed_ms: f.1 },
                ).push(Attempt::Fetched(bytes));
                let outcome = self.play(attempts);
                &&& outcome.result == Some(Ok::<Seq<u8>, ErrorCode>(bytes))
                &&& outcome.notices == failures.map_values(
                    |f: (IoErrorKind, u64)| RetryNotice { cause: f.0, elapsed_ms: f.1 },
                )
            }),
        decreases failures.len(),
    {
        let to_attempt = |f: (IoErrorKind, u64)| Attempt::Failed { cause: f.0, elapsed_ms: f.1 };
        let attempts = failures.map_values(to_attempt).push(Attempt::Fetched(bytes));
        if failures.len() == 0 {
        } else {
            let (cause, elapsed_ms) = failures[0];
            let next = self.after(cause, elapsed_ms);
            let rest = failures.drop_first();
            assert(attempts.drop_first() =~= rest.map_values(to_attempt).push(
                Attempt::Fetched(bytes),
            ));
            next.lemma_transient_failures_then_success(rest, bytes);
        }
    }

    /// A permanent failure ends the read at once, whatever came before,
    /// and the observer is told of no retry for it.
    pub proof fn lemma_permanent_failure_ends_read(
        self,
        cause: IoErrorKind,
        elapsed_ms: u64,
        later: Seq<Attempt>,
    )
        requires
            spec_classify(cause) == ErrorClass::Permanent,
        ensures
            self.play(seq![Attempt::Failed { cause, elapsed_ms }] + later) == (ReadOutcome {
                notices: Seq::empty(),
                result: Some(Err(ErrorCode::PermanentIo { cause })),
            }),
    {
    }
}

} // verus!
