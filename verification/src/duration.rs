//! Spans of time.

use vstd::prelude::*;

verus! {

/// A span of time, to the nanosecond.
#[derive(Clone, Copy, Debug, PartialEq, Eq, Structural)]
pub struct Duration {
    pub nanos: u128,
}

impl Duration {
    pub fn from_nanos(nanos: u64) -> (r: Self)
        ensures
            r.nanos == nanos,
    {
        Duration { nanos: nanos as u128 }
    }

    pub fn from_micros(micros: u64) -> (r: Self)
        ensures
            r.nanos == micros * 1000,
    {
        Duration { nanos: micros as u128 * 1000 }
    }

    pub fn from_millis(millis: u64) -> (r: Self)
        ensures
            r.nanos == millis * 1000000,
    {
        Duration { nanos: millis as u128 * 1000000 }
    }

    /// Whole microseconds.
    pub fn as_micros(self) -> (r: u128)
        ensures
            r == self.nanos / 1000,
    {
        self.nanos / 1000
    }

    pub fn is_zero(self) -> (r: bool)
        ensures
            r == (self.nanos == 0),
    {
        self.nanos == 0
    }

    /// The time from `earlier` to this point, both taken from a common start; none where `earlier`
    /// is later.
    pub fn saturating_since(self, earlier: Duration) -> (r: Duration)
        ensures
            r.nanos == since(self, earlier),
    {
        if self.nanos > earlier.nanos {
            Duration { nanos: self.nanos - earlier.nanos }
        } else {
            Duration { nanos: 0 }
        }
    }
}

/// Nanoseconds from `earlier` to `later`; 0 where `earlier` is later.
pub open spec fn since(later: Duration, earlier: Duration) -> int {
    if later.nanos > earlier.nanos {
        later.nanos - earlier.nanos
    } else {
        0
    }
}

} // verus!
