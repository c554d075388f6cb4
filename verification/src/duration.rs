//! Spans of time in nanoseconds.

use vstd::prelude::*;

verus! {

pub const NANOS_PER_MICRO: u128 = 1_000;

pub const NANOS_PER_MILLI: u128 = 1_000_000;

pub const NANOS_PER_SECOND: u128 = 1_000_000_000;

/// A span of time.
#[derive(Clone, Copy, Debug, PartialEq, Eq, Structural)]
pub struct Duration {
    pub nanos: u128,
}

impl Duration {
    pub fn zero() -> (duration: Duration)
        ensures
            duration.nanos == 0,
    {
        Duration { nanos: 0 }
    }

    pub fn from_millis(millis: u64) -> (duration: Duration)
        ensures
            duration.nanos == millis * NANOS_PER_MILLI,
    {
        Duration { nanos: millis as u128 * NANOS_PER_MILLI }
    }

    pub fn from_secs(secs: u64) -> (duration: Duration)
        ensures
            duration.nanos == secs * NANOS_PER_SECOND,
    {
        Duration { nanos: secs as u128 * NANOS_PER_SECOND }
    }

    pub fn is_zero(&self) -> (zero: bool)
        ensures
            zero == (self.nanos == 0),
    {
        self.nanos == 0
    }

    /// Whole microseconds.
    pub fn as_micros(&self) -> (micros: u128)
        ensures
            micros == self.nanos / NANOS_PER_MICRO,
    {
        self.nanos / NANOS_PER_MICRO
    }

    pub fn plus(&self, other: Duration) -> (sum: Duration)
        requires
            self.nanos + other.nanos <= u128::MAX,
        ensures
            sum.nanos == self.nanos + other.nanos,
    {
        Duration { nanos: self.nanos + other.nanos }
    }

    /// The difference, or zero where `other` is longer.
    pub fn saturating_sub(&self, other: Duration) -> (difference: Duration)
        ensures
            difference.nanos == if other.nanos <= self.nanos {
                self.nanos - other.nanos
            } else {
                0
            },
    {
        if other.nanos <= self.nanos {
            Duration { nanos: self.nanos - other.nanos }
        } else {
            Duration { nanos: 0 }
        }
    }

    /// The duration held within `[low, high]`.
    pub fn clamp(&self, low: Duration, high: Duration) -> (clamped: Duration)
        requires
            low.nanos <= high.nanos,
        ensures
            clamped == clamped_to(*self, low, high),
    {
        if self.nanos < low.nanos {
            low
        } else if high.nanos < self.nanos {
            high
        } else {
            *self
        }
    }
}

pub open spec fn clamped_to(value: Duration, low: Duration, high: Duration) -> Duration {
    if value.nanos < low.nanos {
        low
    } else if high.nanos < value.nanos {
        high
    } else {
        value
    }
}

/// A clamped duration is the one in the range that is nearest.
pub proof fn law_clamped_durations_are_nearest(
    value: Duration,
    low: Duration,
    high: Duration,
    other: Duration,
)
    requires
        low.nanos <= other.nanos <= high.nanos,
    ensures
        low.nanos <= clamped_to(value, low, high).nanos <= high.nanos,
        value.nanos <= other.nanos ==> value.nanos <= clamped_to(value, low, high).nanos
            <= other.nanos,
        other.nanos <= value.nanos ==> other.nanos <= clamped_to(value, low, high).nanos
            <= value.nanos,
{
}

/// Each unit of time is a thousand of the one below it.
pub proof fn law_units_of_time()
    ensures
        NANOS_PER_MICRO == 1_000,
        NANOS_PER_MILLI == 1_000 * NANOS_PER_MICRO,
        NANOS_PER_SECOND == 1_000 * NANOS_PER_MILLI,
{
}

} // verus!
