//! Exponential backoff schedule for retrying outbound calls.
//!
//! All durations are in milliseconds. The schedule starts at
//! `base * factor` and multiplies by `base` after every step; once the
//! configured maximum is reached, every further delay equals the maximum.

use vstd::prelude::*;

verus! {

/// Iterator-like source of retry delays, in milliseconds.
pub struct ExponentialBackoff {
    pub current: u64,
    pub base: u64,
    pub factor: u64,
    pub max_delay: Option<u64>,
}

impl ExponentialBackoff {
    /// The delay the next call to `next` returns: the running product,
    /// capped at the configured maximum.
    pub open spec fn spec_peek(self) -> int {
        let raw = self.current * self.factor;
        match self.max_delay {
            Some(max) => if raw > max {
                max as int
            } else {
                raw
            },
            None => raw,
        }
    }

    /// True when the running product already exceeds the maximum, so the
    /// schedule is saturated and stops advancing.
    pub open spec fn spec_capped(self) -> bool {
        match self.max_delay {
            Some(max) => self.current * self.factor > max,
            None => false,
        }
    }

    pub open spec fn spec_base(self) -> u64 {
        self.base
    }

    pub open spec fn spec_factor(self) -> u64 {
        self.factor
    }

    pub open spec fn spec_max_delay(self) -> Option<u64> {
        self.max_delay
    }

    pub open spec fn spec_current(self) -> u64 {
        self.current
    }

    pub fn new(base: u32) -> (r: Self)
        ensures
            r.current == base as u64,
            r.base == base as u64,
            r.factor == 1u64,
            r.max_delay is None,
    {
        ExponentialBackoff { current: base as u64, base: base as u64, factor: 1, max_delay: None }
    }

    pub fn factor(self, factor: u32) -> (r: Self)
        ensures
            r == (Self { factor: factor as u64, ..self }),
    {
        Self { factor: factor as u64, ..self }
    }

    pub fn max_delay(self, max_delay: u64) -> (r: Self)
        ensures
            r == (Self { max_delay: Some(max_delay), ..self }),
    {
        Self { max_delay: Some(max_delay), ..self }
    }

    /// Produce the next delay of the schedule.
    ///
    /// Equals the mathematical product `current * factor` capped at the
    /// maximum; the running value advances by a factor of `base` only while
    /// the cap has not been reached (saturating well below overflow, which
    /// a configured maximum makes invisible to callers).
    pub fn next(&mut self) -> (d: u64)
        requires
            old(self).max_delay is Some || old(self).current * old(self).factor
                <= u64::MAX,
        ensures
            d == old(self).spec_peek(),
            final(self).base == old(self).base,
            final(self).factor == old(self).factor,
            final(self).max_delay == old(self).max_delay,
            old(self).spec_capped() ==> final(self).current == old(self).current,
            !old(self).spec_capped() ==> final(self).current
                == if old(self).current * old(self).base <= u64::MAX {
                    (old(self).current * old(self).base) as u64
                } else {
                    u64::MAX
                },
            old(self).base >= 1 ==> final(self).current >= old(self).current,
    {
        proof {
            if self.base >= 1 && !self.spec_capped() && self.current * self.base <= u64::MAX {
                assert(self.current * self.base >= self.current) by (nonlinear_arith)
                    requires
                        self.base >= 1,
                ;
            }
        }
        let raw = self.current.checked_mul(self.factor);
        match (raw, self.max_delay) {
            (Some(d), Some(max)) => {
                if d > max {
                    max
                } else {
                    self.current = match self.current.checked_mul(self.base) {
                        Some(c) => c,
                        None => u64::MAX,
                    };
                    d
                }
            },
            (None, Some(max)) => {
                proof {
                    assert(self.current * self.factor > u64::MAX >= max);
                }
                max
            },
            (Some(d), None) => {
                self.current = match self.current.checked_mul(self.base) {
                    Some(c) => c,
                    None => u64::MAX,
                };
                d
            },
            (None, None) => {
                proof {
                    assert(false);
                }
                0
            },
        }
    }
}

/// Successive delays of a capped schedule never decrease and never exceed
/// the configured maximum, whatever interleaving of steps produced the
/// current state, as long as the growth parameters are at least one.
pub proof fn lemma_backoff_monotonic(b1: ExponentialBackoff, b2: ExponentialBackoff)
    requires
        b1.spec_base() >= 1,
        b1.spec_factor() >= 1,
        b2.spec_base() == b1.spec_base(),
        b2.spec_factor() == b1.spec_factor(),
        b2.spec_max_delay() == b1.spec_max_delay(),
        b1.spec_max_delay() is Some,
        b2.spec_current() >= b1.spec_current(),
    ensures
        b1.spec_peek() <= b2.spec_peek() <= b1.spec_max_delay()->Some_0,
{
    let max = b1.spec_max_delay()->Some_0;
    vstd::arithmetic::mul::lemma_mul_inequality(
        b1.spec_current() as int,
        b2.spec_current() as int,
        b1.spec_factor() as int,
    );
}

} // verus!
