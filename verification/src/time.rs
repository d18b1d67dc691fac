//! Points in time and spans of time, counted in nanoseconds.

use vstd::prelude::*;

verus! {

/// A span of time.
#[derive(Copy, Clone, Debug, PartialEq, Eq, Structural)]
pub struct Duration {
    pub nanos: u128,
}

/// A point in time, counted from a moment that all points of one program share.
#[derive(Copy, Clone, Debug, PartialEq, Eq, Structural)]
pub struct Instant {
    pub nanos: u128,
}

impl Instant {
    /// The time from this point to `later`: none, where that has passed already.
    pub open spec fn until(self, later: Instant) -> Duration {
        Duration {
            nanos: (if later.nanos >= self.nanos {
                later.nanos - self.nanos
            } else {
                0
            }) as u128,
        }
    }

    /// The time that has passed since `earlier`: none, where that is still to come.
    pub fn duration_since(self, earlier: Instant) -> (span: Duration)
        ensures
            span == earlier.until(self),
    {
        if self.nanos >= earlier.nanos {
            Duration { nanos: self.nanos - earlier.nanos }
        } else {
            Duration { nanos: 0 }
        }
    }
}

} // verus!
