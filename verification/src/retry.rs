//! Retry policy around one logical outbound call.
//!
//! Each transient failure — a rate-limit response or a recognized "not yet
//! ready" body — sleeps for the next backoff delay and retries, up to a
//! fixed ceiling of attempts; exhausting the ceiling yields the typed
//! retry-limit failure and issues no further attempt. Any other failure
//! ends the call at once.

use vstd::prelude::*;

use crate::backoff::{lemma_backoff_monotonic, ExponentialBackoff};

verus! {

/// Progress of one logical outbound call through its retries.
pub struct RetryState {
    pub backoff: ExponentialBackoff,
    /// Requests already answered.
    pub attempt: u64,
    /// Ceiling on the number of requests.
    pub max_attempts: u64,
}

/// What the caller must do after one response.
#[derive(Clone, Copy, PartialEq, Eq, Structural, Debug)]
pub enum RetryStep {
    /// Sleep this many milliseconds, then issue the next request.
    Retry { delay_ms: u64 },
    /// The ceiling is exhausted: fail with the retry-limit error.
    GiveUp,
    /// The response was final (success or a non-retryable error).
    Done,
}

impl RetryState {
    pub open spec fn wf(self) -> bool {
        &&& self.backoff.base >= 1
        &&& self.backoff.factor >= 1
        &&& self.backoff.max_delay is Some
        &&& self.attempt <= self.max_attempts
    }

    /// Fresh policy: delays start at `base * factor` milliseconds and grow
    /// by a factor of `base`, capped at `max_delay`; at most
    /// `max_attempts` requests are issued.
    pub fn new(base: u32, factor: u32, max_delay: u64, max_attempts: u64) -> (r: Self)
        requires
            base >= 1,
            factor >= 1,
        ensures
            r.wf(),
            r.attempt == 0,
            r.max_attempts == max_attempts,
            r.backoff == (ExponentialBackoff {
                current: base as u64,
                base: base as u64,
                factor: factor as u64,
                max_delay: Some(max_delay),
            }),
    {
        RetryState {
            backoff: ExponentialBackoff::new(base).factor(factor).max_delay(max_delay),
            attempt: 0,
            max_attempts,
        }
    }
}

/// State and step after one response: final responses end the call;
/// transient ones retry with the next backoff delay until the attempt
/// ceiling is reached, after which the call gives up.
pub open spec fn spec_retry_step(s: RetryState, transient: bool) -> (RetryState, RetryStep) {
    if !transient {
        (RetryState { attempt: (s.attempt + 1) as u64, ..s }, RetryStep::Done)
    } else if s.attempt + 1 < s.max_attempts {
        (
            RetryState {
                attempt: (s.attempt + 1) as u64,
                backoff: ExponentialBackoff {
                    current: if s.backoff.spec_capped() {
                        s.backoff.current
                    } else if s.backoff.current * s.backoff.base <= u64::MAX {
                        (s.backoff.current * s.backoff.base) as u64
                    } else {
                        u64::MAX
                    },
                    ..s.backoff
                },
                ..s
            },
            RetryStep::Retry { delay_ms: s.backoff.spec_peek() as u64 },
        )
    } else {
        (RetryState { attempt: (s.attempt + 1) as u64, ..s }, RetryStep::GiveUp)
    }
}

impl RetryState {
    /// Account for one response.
    pub fn on_response(&mut self, transient: bool) -> (r: RetryStep)
        requires
            old(self).wf(),
            old(self).attempt < old(self).max_attempts,
        ensures
            final(self).wf(),
            (*final(self), r) == spec_retry_step(*old(self), transient),
            final(self).attempt == old(self).attempt + 1,
            r is GiveUp <==> transient && old(self).attempt + 1 == old(self).max_attempts,
            r is Done <==> !transient,
    {
        self.attempt += 1;
        if !transient {
            RetryStep::Done
        } else if self.attempt < self.max_attempts {
            let delay_ms = self.backoff.next();
            RetryStep::Retry { delay_ms }
        } else {
            RetryStep::GiveUp
        }
    }
}

/// The steps a run of all-transient responses produces.
pub open spec fn run_transient(s: RetryState, n: nat) -> Seq<RetryStep>
    decreases n,
{
    if n == 0 {
        Seq::empty()
    } else {
        let (s1, step) = spec_retry_step(s, true);
        seq![step] + run_transient(s1, (n - 1) as nat)
    }
}

pub open spec fn step_delay(st: RetryStep) -> int {
    match st {
        RetryStep::Retry { delay_ms } => delay_ms as int,
        _ => -1,
    }
}

/// One transient step never shrinks the backoff's running value.
proof fn lemma_step_grows(s: RetryState)
    requires
        s.wf(),
    ensures
        spec_retry_step(s, true).0.backoff.current >= s.backoff.current,
        spec_retry_step(s, true).0.backoff.base == s.backoff.base,
        spec_retry_step(s, true).0.backoff.factor == s.backoff.factor,
        spec_retry_step(s, true).0.backoff.max_delay == s.backoff.max_delay,
{
    if s.attempt + 1 < s.max_attempts && !s.backoff.spec_capped() && s.backoff.current
        * s.backoff.base <= u64::MAX {
        assert(s.backoff.current * s.backoff.base >= s.backoff.current) by (nonlinear_arith)
            requires
                s.backoff.base >= 1,
        ;
    }
}

/// Consecutive transient failures: every step before the ceiling retries,
/// the step that reaches the ceiling gives up — no further attempt is
/// issued — and the retry delays never decrease and never exceed the
/// configured maximum.
pub proof fn lemma_retry_limit(s: RetryState, n: nat)
    requires
        s.wf(),
        s.attempt + n == s.max_attempts,
    ensures
        run_transient(s, n).len() == n,
        forall|i: int| 0 <= i < n - 1 ==> run_transient(s, n)[i] is Retry,
        n >= 1 ==> run_transient(s, n)[n - 1] is GiveUp,
        forall|i: int|
            0 <= i < n && run_transient(s, n)[i] is Retry ==> s.backoff.spec_peek() <= step_delay(
                #[trigger] run_transient(s, n)[i],
            ) <= s.backoff.max_delay->Some_0,
        forall|i: int, j: int|
            0 <= i < j < n && run_transient(s, n)[i] is Retry && run_transient(s, n)[j] is Retry
                ==> step_delay(#[trigger] run_transient(s, n)[i]) <= step_delay(
                #[trigger] run_transient(s, n)[j],
            ),
    decreases n,
{
    lemma_backoff_monotonic(s.backoff, s.backoff);
    if n >= 1 {
        let (s1, step) = spec_retry_step(s, true);
        lemma_retry_limit(s1, (n - 1) as nat);
        let run = run_transient(s, n);
        let rest = run_transient(s1, (n - 1) as nat);
        assert(run == seq![step] + rest);
        lemma_step_grows(s);
        if n >= 2 {
            assert(step == RetryStep::Retry { delay_ms: s.backoff.spec_peek() as u64 });
            lemma_backoff_monotonic(s.backoff, s1.backoff);
        }
        assert forall|i: int|
            0 <= i < n && run[i] is Retry implies s.backoff.spec_peek() <= step_delay(
            #[trigger] run[i],
        ) <= s.backoff.max_delay->Some_0 by {
            if i == 0 {
            } else {
                assert(run[i] == rest[i - 1]);
                assert(s1.backoff.spec_peek() <= step_delay(rest[i - 1]));
                lemma_backoff_monotonic(s.backoff, s1.backoff);
            }
        }
        assert forall|i: int, j: int|
            0 <= i < j < n && run[i] is Retry && run[j] is Retry implies step_delay(
            #[trigger] run[i],
        ) <= step_delay(#[trigger] run[j]) by {
            assert(run[j] == rest[j - 1]);
            if i == 0 {
                assert(s1.backoff.spec_peek() <= step_delay(rest[j - 1]));
                lemma_backoff_monotonic(s.backoff, s1.backoff);
            } else {
                assert(run[i] == rest[i - 1]);
            }
        }
    }
}

} // verus!
