//! The decision whether a failed request is worth another attempt.

use vstd::prelude::*;

verus! {

/// Why a request to the archive failed.
#[derive(Clone, Copy, Debug, PartialEq, Eq, Structural)]
pub enum FailureKind {
    /// A timeout, a reset connection or a server-side error.
    TransientNetwork,
    /// The archive says that the resource does not exist.
    NotFound,
    /// The answer could not be read as a listing or as an article.
    MalformedResponse,
}

/// What to do after a failed attempt.
#[derive(Clone, Copy, Debug, PartialEq, Eq, Structural)]
pub enum RetryDecision {
    /// Try again after this many milliseconds.
    RetryAfter(u64),
    GiveUp,
}

/// Exponential backoff with a cap on the number of attempts.
#[derive(Clone, Copy, Debug, PartialEq, Eq, Structural)]
pub struct RetryPolicy {
    /// The number of attempts made at most, the first one included.
    pub max_attempts: u32,
    /// The delay before the second attempt, in milliseconds.
    pub base_delay_ms: u64,
}

/// Two to the power of `n`.
pub open spec fn pow2(n: nat) -> nat
    decreases n,
{
    if n == 0 {
        1
    } else {
        2 * pow2((n - 1) as nat)
    }
}

/// The delay after the attempt with index `attempt` failed: the base delay
/// doubled once per earlier attempt, held at the largest 64-bit value.
pub open spec fn backoff(base: u64, attempt: u32) -> u64 {
    if base * pow2(attempt as nat) >= u64::MAX {
        u64::MAX
    } else {
        (base * pow2(attempt as nat)) as u64
    }
}

proof fn lemma_pow2_grows(a: nat, b: nat)
    requires
        a <= b,
    ensures
        1 <= pow2(a) <= pow2(b),
    decreases b,
{
    if b > 0 {
        if a < b {
            lemma_pow2_grows(a, (b - 1) as nat);
        } else {
            lemma_pow2_grows((a - 1) as nat, (b - 1) as nat);
        }
    }
}

proof fn lemma_scaled_grows(base: nat, x: nat, y: nat)
    requires
        x <= y,
    ensures
        base * x <= base * y,
{
    assert(base * x <= base * y) by (nonlinear_arith)
        requires
            x <= y,
    ;
}

proof fn lemma_double(base: nat, k: nat)
    ensures
        base * pow2(k + 1) == 2 * (base * pow2(k)),
{
    assert(pow2(k + 1) == 2 * pow2(k));
    assert(base * (2 * pow2(k)) == 2 * (base * pow2(k))) by (nonlinear_arith);
}

/// How an answer with this HTTP status counts: a status from 200 to 299 is no
/// failure, 404 says that the resource does not exist, a status from 500 to 599
/// is a passing fault of the server, and any other answer cannot be used.
pub open spec fn status_failure(status: u16) -> Option<FailureKind> {
    if 200 <= status <= 299 {
        None
    } else if status == 404 {
        Some(FailureKind::NotFound)
    } else if 500 <= status <= 599 {
        Some(FailureKind::TransientNetwork)
    } else {
        Some(FailureKind::MalformedResponse)
    }
}

/// Tells how an answer with this HTTP status counts.
pub fn classify_status(status: u16) -> (failure: Option<FailureKind>)
    ensures
        failure == status_failure(status),
{
    if 200 <= status && status <= 299 {
        None
    } else if status == 404 {
        Some(FailureKind::NotFound)
    } else if 500 <= status && status <= 599 {
        Some(FailureKind::TransientNetwork)
    } else {
        Some(FailureKind::MalformedResponse)
    }
}

impl RetryPolicy {
    /// The decision after the attempt with index `attempt_index` (the first
    /// attempt has index 0) failed with `kind`: only a transient failure is
    /// tried again, and only while attempts are left.
    pub open spec fn decision(self, attempt_index: u32, kind: FailureKind) -> RetryDecision {
        if kind == FailureKind::TransientNetwork && attempt_index + 1 < self.max_attempts {
            RetryDecision::RetryAfter(backoff(self.base_delay_ms, attempt_index))
        } else {
            RetryDecision::GiveUp
        }
    }

    /// The delay before the attempt that follows attempt `attempt`.
    pub fn delay_after(&self, attempt: u32) -> (delay: u64)
        ensures
            delay == backoff(self.base_delay_ms, attempt),
    {
        let base: u64 = self.base_delay_ms;
        if base == 0 {
            assert(0 * pow2(attempt as nat) == 0) by (nonlinear_arith);
            return 0;
        }
        let mut delay: u64 = base;
        let mut k: u32 = 0;
        assert(base * pow2(0) == base) by (nonlinear_arith)
            requires
                pow2(0) == 1,
        ;
        while k < attempt && delay < u64::MAX
            invariant
                k <= attempt,
                base == self.base_delay_ms,
                delay == backoff(base, k),
            decreases attempt - k,
        {
            proof {
                lemma_double(base as nat, k as nat);
            }
            if delay > u64::MAX / 2 {
                delay = u64::MAX;
            } else {
                delay = delay * 2;
            }
            k = k + 1;
        }
        proof {
            if k < attempt {
                lemma_pow2_grows(k as nat, attempt as nat);
                lemma_scaled_grows(base as nat, pow2(k as nat), pow2(attempt as nat));
            }
        }
        delay
    }

    /// Decides what to do after the attempt with index `attempt_index` (the
    /// first attempt has index 0) failed with `kind`.
    pub fn should_retry(&self, attempt_index: u32, kind: FailureKind) -> (decision: RetryDecision)
        ensures
            decision == self.decision(attempt_index, kind),
            kind != FailureKind::TransientNetwork ==> decision == RetryDecision::GiveUp,
            attempt_index + 1 >= self.max_attempts ==> decision == RetryDecision::GiveUp,
    {
        match kind {
            FailureKind::TransientNetwork => {
                if attempt_index < u32::MAX && attempt_index + 1 < self.max_attempts {
                    RetryDecision::RetryAfter(self.delay_after(attempt_index))
                } else {
                    RetryDecision::GiveUp
                }
            },
            _ => RetryDecision::GiveUp,
        }
    }
}

/// The attempts made at one request so far, under a policy.
#[derive(Clone, Copy, Debug, PartialEq, Eq, Structural)]
pub struct Attempts {
    pub policy: RetryPolicy,
    /// The number of attempts that have failed.
    pub failed: u32,
}

impl Attempts {
    /// The state before the first attempt: four attempts at most, half a
    /// second before the second one.
    pub fn new() -> (attempts: Attempts)
        ensures
            attempts == (Attempts {
                policy: RetryPolicy { max_attempts: 4, base_delay_ms: 500 },
                failed: 0,
            }),
    {
        Attempts { policy: RetryPolicy { max_attempts: 4, base_delay_ms: 500 }, failed: 0 }
    }

    /// The state before the first attempt under `policy`.
    pub fn under(policy: RetryPolicy) -> (attempts: Attempts)
        ensures
            attempts == (Attempts { policy, failed: 0 }),
    {
        Attempts { policy, failed: 0 }
    }

    /// Takes note that the attempt just made failed with `kind` and decides
    /// what to do: the decision is the policy's for the index of that
    /// attempt, and one more failed attempt is counted (the count stays at its
    /// largest value once it is reached, where the policy gives up anyway).
    pub fn on_failure(&mut self, kind: FailureKind) -> (decision: RetryDecision)
        ensures
            decision == old(self).policy.decision(old(self).failed, kind),
            final(self).policy == old(self).policy,
            final(self).failed == if old(self).failed < u32::MAX {
                (old(self).failed + 1) as u32
            } else {
                old(self).failed
            },
    {
        let decision = self.policy.should_retry(self.failed, kind);
        if self.failed < u32::MAX {
            self.failed = self.failed + 1;
        }
        decision
    }
}

/// The delay never shrinks from one attempt to the next.
pub proof fn lemma_backoff_grows(base: u64, earlier: u32, later: u32)
    requires
        earlier <= later,
    ensures
        backoff(base, earlier) <= backoff(base, later),
{
    lemma_pow2_grows(earlier as nat, later as nat);
    lemma_scaled_grows(base as nat, pow2(earlier as nat), pow2(later as nat));
}

/// A policy makes at most `max_attempts` attempts: the failure of the last
/// one allowed, and of any later one, ends in giving up, whatever its kind.
pub proof fn lemma_attempts_are_capped(policy: RetryPolicy, attempt_index: u32, kind: FailureKind)
    requires
        attempt_index + 1 >= policy.max_attempts,
    ensures
        policy.decision(attempt_index, kind) == RetryDecision::GiveUp,
{
}

} // verus!
