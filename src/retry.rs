//! Bounded retries with an increasing (or fixed) delay between attempts.
//!
//! The delay schedules come from tokio-retry's strategies; the decision of
//! whether to retry after an outcome, and how long to wait first, is made here.
//! The caller owns the clock: it performs the attempt, reports the outcome and
//! sleeps for the delay it is handed.

use std::time::Duration;
use tokio_retry::strategy::{ExponentialBackoff, FixedInterval};
use vstd::prelude::*;

verus! {

/// `base^n`, saturating at `u64::MAX` after each multiplication.
pub open spec fn saturating_power(base: nat, n: nat) -> nat
    decreases n,
{
    if n == 0 {
        1
    } else {
        let p = saturating_power(base, (n - 1) as nat) * base;
        if p > u64::MAX {
            u64::MAX as nat
        } else {
            p
        }
    }
}

/// The delay in milliseconds before retry `k` (counting from 0) of an
/// exponential back-off from `base_ms`, capped at `max_delay_ms`.
pub open spec fn exponential_delay(base_ms: nat, max_delay_ms: nat, k: nat) -> nat {
    let d = saturating_power(base_ms, k + 1);
    if d > max_delay_ms {
        max_delay_ms
    } else {
        d
    }
}

/// Relies on tokio_retry's `ExponentialBackoff::from_millis(base).max_delay(max)`:
/// its `k`-th delay is `base^(k+1)` ms (saturating), or `max` where that is larger.
#[verifier::external_body]
fn exponential_schedule(base_ms: u64, max_delay_ms: u64, retries: usize) -> (r: Vec<u64>)
    ensures
        r@.len() == retries,
        forall|k: int|
            0 <= k < retries ==> #[trigger] r@[k] as nat == exponential_delay(
                base_ms as nat,
                max_delay_ms as nat,
                k as nat,
            ),
{
    ExponentialBackoff::from_millis(base_ms)
        .max_delay(Duration::from_millis(max_delay_ms))
        .take(retries)
        .map(|d| d.as_millis() as u64)
        .collect()
}

/// Relies on tokio_retry's `FixedInterval::from_millis(ms)`: every delay is `ms`.
#[verifier::external_body]
fn fixed_schedule(interval_ms: u64, retries: usize) -> (r: Vec<u64>)
    ensures
        r@.len() == retries,
        forall|k: int| 0 <= k < retries ==> #[trigger] r@[k] == interval_ms,
{
    FixedInterval::from_millis(interval_ms).take(retries).map(|d| d.as_millis() as u64).collect()
}

/// How the delay grows from one retry to the next.
#[derive(Clone, Copy, Debug, PartialEq, Eq, Structural)]
pub enum Backoff {
    /// `base_ms`, `base_ms^2`, `base_ms^3`, ... milliseconds, never above `max_delay_ms`.
    Exponential { base_ms: u64, max_delay_ms: u64 },
    /// The same delay before every retry.
    Fixed { interval_ms: u64 },
}

/// A retry policy: a back-off schedule and the number of retries after the
/// first attempt (so at most `max_retries + 1` attempts).
#[derive(Clone, Copy, Debug, PartialEq, Eq, Structural)]
pub struct RetryPolicy {
    pub backoff: Backoff,
    pub max_retries: u32,
}

impl RetryPolicy {
    /// The delay before retry `k` (counting from 0) under this policy.
    pub open spec fn delay(&self, k: nat) -> nat {
        match self.backoff {
            Backoff::Exponential { base_ms, max_delay_ms } => exponential_delay(
                base_ms as nat,
                max_delay_ms as nat,
                k,
            ),
            Backoff::Fixed { interval_ms } => interval_ms as nat,
        }
    }

    /// The largest number of attempts the policy allows.
    pub open spec fn max_attempts(&self) -> nat {
        (self.max_retries + 1) as nat
    }
}

/// What to do after an attempt.
#[derive(Clone, Copy, Debug, PartialEq, Eq, Structural)]
pub enum RetryDecision {
    /// Stop: the attempt succeeded, or it failed and no retry is left. The
    /// outcome of the last attempt is the outcome of the whole operation.
    Finish,
    /// Wait this many milliseconds, then attempt again.
    RetryAfter(u64),
}

/// The progress of one retried operation.
pub struct RetryRun {
    schedule: Vec<u64>,
    failures: usize,
}

impl RetryRun {
    /// The delays still available, in order, for the whole run.
    pub closed spec fn schedule(&self) -> Seq<u64> {
        self.schedule@
    }

    /// The number of failed attempts so far.
    pub closed spec fn failures(&self) -> nat {
        self.failures as nat
    }

    pub closed spec fn wf(&self) -> bool {
        self.failures <= self.schedule@.len()
    }

    /// A run that has made no attempt yet.
    pub fn new(policy: &RetryPolicy) -> (r: RetryRun)
        ensures
            r.wf(),
            r.failures() == 0,
            r.schedule().len() == policy.max_retries,
            forall|k: int|
                0 <= k < policy.max_retries ==> #[trigger] r.schedule()[k] as nat == policy.delay(
                    k as nat,
                ),
    {
        let schedule = match policy.backoff {
            Backoff::Exponential { base_ms, max_delay_ms } => exponential_schedule(
                base_ms,
                max_delay_ms,
                policy.max_retries as usize,
            ),
            Backoff::Fixed { interval_ms } => fixed_schedule(
                interval_ms,
                policy.max_retries as usize,
            ),
        };
        RetryRun { schedule, failures: 0 }
    }

    /// Failed attempts so far.
    pub fn failure_count(&self) -> (r: usize)
        ensures
            r == self.failures(),
    {
        self.failures
    }

    /// Takes the outcome of the latest attempt and says what comes next. A
    /// success always finishes, whatever it returned; a failure is retried
    /// after the next delay of the schedule while one is left.
    pub fn record_outcome(&mut self, succeeded: bool) -> (r: RetryDecision)
        requires
            old(self).wf(),
        ensures
            final(self).wf(),
            final(self).schedule() == old(self).schedule(),
            succeeded ==> r == RetryDecision::Finish && final(self).failures() == old(
                self,
            ).failures(),
            !succeeded && old(self).failures() < old(self).schedule().len() ==> r
                == RetryDecision::RetryAfter(old(self).schedule()[old(self).failures() as int])
                && final(self).failures() == old(self).failures() + 1,
            !succeeded && old(self).failures() >= old(self).schedule().len() ==> r
                == RetryDecision::Finish && final(self).failures() == old(self).failures(),
    {
        if succeeded || self.failures >= self.schedule.len() {
            RetryDecision::Finish
        } else {
            let d = self.schedule[self.failures];
            self.failures = self.failures + 1;
            RetryDecision::RetryAfter(d)
        }
    }
}

} // verus!
