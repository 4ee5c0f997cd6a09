//! Spans of time in whole nanoseconds.

use vstd::arithmetic::power2;
use vstd::prelude::*;

use crate::float::double;
use crate::float::double::F64;
use crate::float::grid;
use crate::float::magnitude;

verus! {

/// Nanoseconds in a second.
pub const NANOS_PER_SEC: u128 = 1_000_000_000;

/// Nanoseconds in a millisecond.
pub const NANOS_PER_MILLI: u128 = 1_000_000;

/// The longest span: the largest 64-bit count of seconds and a nanosecond short of one more.
pub const MAX_NANOS: u128 = 18_446_744_073_709_551_615_999_999_999;

/// The pattern of `2^64`, the first count of seconds that no span holds.
pub const SECONDS_LIMIT: u64 = 0x43F0_0000_0000_0000;

/// A span of time, or a position on the timeline.
#[derive(Clone, Copy, Debug, PartialEq, Eq, PartialOrd, Ord, Hash, Structural)]
pub struct Duration {
    pub nanos: u128,
}

/// `a + b`, held at the longest span.
pub open spec fn later(a: Duration, b: Duration) -> Duration {
    Duration {
        nanos: if a.nanos + b.nanos <= MAX_NANOS {
            (a.nanos + b.nanos) as u128
        } else {
            MAX_NANOS
        },
    }
}

/// `a - b`, held at zero.
pub open spec fn earlier(a: Duration, b: Duration) -> Duration {
    Duration {
        nanos: if a.nanos >= b.nanos {
            (a.nanos - b.nanos) as u128
        } else {
            0
        },
    }
}

/// The span in seconds, in double precision: the whole seconds and the fraction are each
/// rounded, and so is their sum.
pub open spec fn seconds(d: Duration) -> F64 {
    double::sum(
        double::whole((d.nanos / NANOS_PER_SEC) as nat),
        double::quotient(
            double::whole((d.nanos % NANOS_PER_SEC) as nat),
            double::whole(NANOS_PER_SEC as nat),
        ),
    )
}

/// The span of `s` seconds to the nearest nanosecond, ties to even, unless `s` is negative,
/// undefined or too large.
pub open spec fn span(s: F64) -> Option<Duration> {
    if s.nan() || (s.negative() && s.magnitude() != 0) || s.magnitude() >= SECONDS_LIMIT {
        None
    } else {
        Some(
            Duration {
                nanos: magnitude::half_even(
                    s.unsigned().units() as nat * NANOS_PER_SEC as nat,
                    power2::pow2(1074),
                ) as u128,
            },
        )
    }
}

impl Duration {
    /// The empty span.
    pub fn zero() -> (r: Duration)
        ensures
            r.nanos == 0,
    {
        Duration { nanos: 0 }
    }

    /// A span of whole seconds.
    pub fn from_secs(secs: u64) -> (r: Duration)
        ensures
            r.nanos == secs * NANOS_PER_SEC,
    {
        Duration { nanos: (secs as u128) * NANOS_PER_SEC }
    }

    /// A span of whole milliseconds.
    pub fn from_millis(millis: u64) -> (r: Duration)
        ensures
            r.nanos == millis * NANOS_PER_MILLI,
    {
        Duration { nanos: (millis as u128) * NANOS_PER_MILLI }
    }

    /// A span of whole nanoseconds.
    pub fn from_nanos(nanos: u64) -> (r: Duration)
        ensures
            r.nanos == nanos,
    {
        Duration { nanos: nanos as u128 }
    }

    /// Whether the span is empty.
    pub fn is_zero(self) -> (r: bool)
        ensures
            r == (self.nanos == 0),
    {
        self.nanos == 0
    }

    /// The sum, or `None` past the longest span.
    pub fn checked_add(self, other: Duration) -> (r: Option<Duration>)
        ensures
            r == if self.nanos + other.nanos <= MAX_NANOS {
                Some(later(self, other))
            } else {
                None
            },
    {
        if self.nanos <= MAX_NANOS && other.nanos <= MAX_NANOS - self.nanos {
            Some(Duration { nanos: self.nanos + other.nanos })
        } else {
            None
        }
    }

    /// The difference, or `None` where it would be negative.
    pub fn checked_sub(self, other: Duration) -> (r: Option<Duration>)
        ensures
            r == if self.nanos >= other.nanos {
                Some(earlier(self, other))
            } else {
                None
            },
    {
        if self.nanos >= other.nanos {
            Some(Duration { nanos: self.nanos - other.nanos })
        } else {
            None
        }
    }

    /// The sum, held at the longest span.
    pub fn saturating_add(self, other: Duration) -> (r: Duration)
        ensures
            r == later(self, other),
    {
        match self.checked_add(other) {
            Some(d) => d,
            None => Duration { nanos: MAX_NANOS },
        }
    }

    /// The difference, held at zero.
    pub fn saturating_sub(self, other: Duration) -> (r: Duration)
        ensures
            r == earlier(self, other),
    {
        if self.nanos >= other.nanos {
            Duration { nanos: self.nanos - other.nanos }
        } else {
            Duration { nanos: 0 }
        }
    }

    /// Whole milliseconds.
    pub fn as_millis(self) -> (r: u128)
        ensures
            r == self.nanos / NANOS_PER_MILLI,
    {
        self.nanos / NANOS_PER_MILLI
    }

    /// Seconds in double precision.
    pub fn as_secs_f64(self) -> (r: F64)
        ensures
            r == seconds(self),
    {
        let whole = F64::from_whole(self.nanos / NANOS_PER_SEC);
        let fraction = F64::from_whole(self.nanos % NANOS_PER_SEC).over(
            F64::from_whole(NANOS_PER_SEC),
        );
        whole.plus(fraction)
    }

    /// The span of `s` seconds to the nearest nanosecond, or `None` when `s` is negative,
    /// undefined or too large.
    pub fn try_from_secs_f64(s: F64) -> (r: Option<Duration>)
        ensures
            r == span(s),
    {
        let m = s.abs();
        if s.is_nan() || (s.below(F64 { bits: 0 })) || m.bits >= SECONDS_LIMIT {
            return None;
        }
        let k = m.bits;
        proof {
            grid::lemma_grid_increases(52, k as nat, SECONDS_LIMIT as nat);
            magnitude::lemma_pow2_values();
            power2::lemma_pow2_adds(52, 1086);
            power2::lemma_pow2_adds(64, 1074);
            assert(SECONDS_LIMIT as nat / 0x10_0000_0000_0000 == 1087);
            assert(SECONDS_LIMIT as nat % 0x10_0000_0000_0000 == 0);
        }
        Some(
            Duration {
                nanos: magnitude::scaled_whole(magnitude::double_format(), k, 1_000_000_000),
            },
        )
    }
}

} // verus!
