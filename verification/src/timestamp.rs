use vstd::prelude::*;

verus! {

/// A point in time: seconds since the start of 1970 in UTC, and the
/// nanoseconds into that second.
#[derive(Clone, Copy, Debug, PartialEq, Eq)]
pub struct Timestamp {
    pub seconds: i64,
    pub nanos: u32,
}

/// A length of time: whole seconds, which may be negative, and the
/// nanoseconds to add to them.
#[derive(Clone, Copy, Debug, PartialEq, Eq)]
pub struct Duration {
    pub seconds: i64,
    pub nanos: u32,
}

impl Duration {
    /// No time at all.
    pub fn zero() -> (r: Duration)
        ensures
            r == (Duration { seconds: 0, nanos: 0 }),
    {
        Duration { seconds: 0, nanos: 0 }
    }

    /// A number of seconds.
    pub fn seconds(seconds: i64) -> (r: Duration)
        ensures
            r == (Duration { seconds, nanos: 0 }),
    {
        Duration { seconds, nanos: 0 }
    }

    /// Whether the time is longer than no time.
    pub open spec fn positive(&self) -> bool {
        self.seconds > 0 || (self.seconds == 0 && self.nanos > 0)
    }

    /// Whether the time is longer than no time.
    pub fn is_positive(&self) -> (r: bool)
        ensures
            r == self.positive(),
    {
        self.seconds > 0 || (self.seconds == 0 && self.nanos > 0)
    }
}

} // verus!
