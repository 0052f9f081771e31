//! The retry-backoff request executor, as a state machine over attempts.
//!
//! One outbound call runs as a loop: send the request; on transport success
//! let the result handler decide whether the response completes the call;
//! on any non-success count a failed attempt.  After the `k`-th failed
//! attempt the caller sleeps `k` times the configured backoff step
//! (additive backoff, no jitter), and once the attempt count reaches the
//! retry bound the loop stops with whatever value the handler last
//! produced.  The transport send and the sleep are outside work; the
//! decisions live here and are verified.

use vstd::prelude::*;

verus! {

/// The uniform retry policy of every provider call.
#[derive(Clone, Copy, PartialEq, Eq, Structural, Debug)]
pub struct RetryPolicy {
    /// Backoff step in milliseconds; the `k`-th failed attempt is followed
    /// by a sleep of `k` steps.
    pub backoff_millis: u64,
    /// Maximum number of attempts.
    pub retries: u8,
}

impl RetryPolicy {
    /// The sleeps the policy can ask for stay within the machine's range.
    pub open spec fn wf(&self) -> bool {
        (self.retries as int + 1) * (self.backoff_millis as int) <= u64::MAX as int
    }
}

/// What the caller must do after recording an attempt.
#[derive(Clone, Copy, PartialEq, Eq, Structural, Debug)]
pub enum RetryDecision {
    /// The handler is done: stop at once and keep its value.
    Done,
    /// Sleep this long, then send again.
    Retry { sleep_millis: u64 },
    /// Attempts are exhausted: sleep this long once more, then stop with
    /// the last value (typically none).
    GiveUp { sleep_millis: u64 },
}

/// The state of one executed call: its policy and the failed attempts so
/// far.
pub struct RetryRun {
    pub policy: RetryPolicy,
    pub attempts: u8,
}

/// Milliseconds slept after the `k`-th failed attempt.
pub open spec fn spec_nth_sleep(policy: RetryPolicy, k: int) -> int {
    k * (policy.backoff_millis as int)
}

/// Total milliseconds slept by a run whose first `n` attempts all failed.
pub open spec fn spec_cumulative_sleep(policy: RetryPolicy, n: int) -> int
    decreases n,
{
    if n <= 0 {
        0
    } else {
        spec_cumulative_sleep(policy, n - 1) + spec_nth_sleep(policy, n)
    }
}

/// Additive backoff in closed form: twice the total sleep of a perpetually
/// failing run of `n` attempts is `backoff * n * (n + 1)` milliseconds.
pub proof fn lemma_cumulative_sleep_closed_form(policy: RetryPolicy, n: int)
    requires
        n >= 0,
    ensures
        2 * spec_cumulative_sleep(policy, n) == (policy.backoff_millis as int) * n * (n + 1),
    decreases n,
{
    if n > 0 {
        lemma_cumulative_sleep_closed_form(policy, n - 1);
        let b = policy.backoff_millis as int;
        assert(2 * spec_cumulative_sleep(policy, n - 1) == b * (n - 1) * (n - 1 + 1));
        assert(b * (n - 1) * (n - 1 + 1) == b * (n - 1) * n) by (nonlinear_arith);
        assert(spec_cumulative_sleep(policy, n) == spec_cumulative_sleep(policy, n - 1) + n * b);
        assert(2 * spec_cumulative_sleep(policy, n) == b * (n - 1) * n + 2 * (n * b));
        assert(b * (n - 1) * n + 2 * (n * b) == b * n * (n + 1)) by (nonlinear_arith);
        assert(2 * spec_cumulative_sleep(policy, n) == b * n * (n + 1));
    } else {
        assert((policy.backoff_millis as int) * n * (n + 1) == 0) by (nonlinear_arith)
            requires
                n == 0,
        ;
    }
}

impl RetryRun {
    /// The run's invariant: a usable policy, and no more failed attempts
    /// than the policy admits (one attempt is always admitted).
    pub open spec fn wf(&self) -> bool {
        self.policy.wf() && self.attempts as int <= vstd::math::max(
            self.policy.retries as int,
            1,
        )
    }

    /// Whether another attempt may still be sent: none has been yet, or the
    /// retry bound is not reached.
    pub open spec fn can_attempt(&self) -> bool {
        self.attempts == 0 || (self.attempts as int) < (self.policy.retries as int)
    }

    /// Begin a run: no attempts yet.
    pub fn start(policy: RetryPolicy) -> (r: RetryRun)
        requires
            policy.wf(),
        ensures
            r.policy == policy,
            r.attempts == 0,
            r.wf(),
            r.can_attempt(),
    {
        RetryRun { policy, attempts: 0 }
    }

    /// Record the outcome of one sent request: `done` when the transport
    /// succeeded and the result handler accepted the response.  A done
    /// attempt stops the run at once.  A failed attempt is counted and is
    /// followed by a sleep of the attempt count times the backoff step; the
    /// run gives up when the count reaches the retry bound.
    pub fn record_attempt(&mut self, done: bool) -> (d: RetryDecision)
        requires
            old(self).wf(),
            old(self).can_attempt(),
        ensures
            final(self).wf(),
            final(self).policy == old(self).policy,
            done ==> d == RetryDecision::Done && *final(self) == *old(self),
            !done ==> {
                let k = old(self).attempts as int + 1;
                &&& final(self).attempts as int == k
                &&& (k < old(self).policy.retries as int ==> d == (RetryDecision::Retry {
                    sleep_millis: spec_nth_sleep(old(self).policy, k) as u64,
                }) && final(self).can_attempt())
                &&& (k >= old(self).policy.retries as int ==> d == (RetryDecision::GiveUp {
                    sleep_millis: spec_nth_sleep(old(self).policy, k) as u64,
                }))
            },
    {
        if done {
            return RetryDecision::Done;
        }
        let k = self.attempts + 1;
        self.attempts = k;
        proof {
            assert((k as int) * (self.policy.backoff_millis as int) <= (self.policy.retries
                as int + 1) * (self.policy.backoff_millis as int)) by (nonlinear_arith)
                requires
                    k as int <= self.policy.retries as int + 1,
                    self.policy.backoff_millis >= 0,
            ;
        }
        let sleep_millis = (k as u64) * self.policy.backoff_millis;
        if k >= self.policy.retries {
            RetryDecision::GiveUp { sleep_millis }
        } else {
            RetryDecision::Retry { sleep_millis }
        }
    }
}

} // verus!
