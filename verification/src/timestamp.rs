//! Points in time and spans of time, with microsecond precision.

use vstd::prelude::*;

verus! {

/// Number of microseconds in one second.
pub const USECS_PER_SEC: u64 = 1_000_000;

/// A point in time, or the length of a span of time, in microseconds.
#[derive(Clone, Copy, Debug, PartialEq, Eq, Structural, Hash)]
pub struct Timestamp {
    pub usecs: u64,
}

impl Timestamp {
    /// The earliest timestamp there is.
    pub fn min() -> (r: Timestamp)
        ensures
            r.usecs == 0,
    {
        Timestamp { usecs: 0 }
    }

    /// The latest timestamp there is.
    pub fn max() -> (r: Timestamp)
        ensures
            r.usecs == u64::MAX,
    {
        Timestamp { usecs: u64::MAX }
    }

    pub fn from_usecs(usecs: u64) -> (r: Timestamp)
        ensures
            r.usecs == usecs,
    {
        Timestamp { usecs }
    }

    /// The timestamp `secs` whole seconds after zero.
    pub fn from_secs(secs: u64) -> (r: Timestamp)
        requires
            secs * USECS_PER_SEC <= u64::MAX,
        ensures
            r.usecs == secs * USECS_PER_SEC,
    {
        Timestamp { usecs: secs * USECS_PER_SEC }
    }

    pub fn as_usecs(&self) -> (r: u64)
        ensures
            r == self.usecs,
    {
        self.usecs
    }

    /// Whole seconds, rounded down.
    pub open spec fn secs(&self) -> u64 {
        self.usecs / USECS_PER_SEC
    }

    /// Whole seconds, rounded down.
    pub fn as_secs(&self) -> (r: u64)
        ensures
            r == self.secs(),
            r <= u64::MAX / USECS_PER_SEC,
    {
        self.usecs / USECS_PER_SEC
    }

    /// The time that passed between `earlier` and `self`.
    pub fn since(&self, earlier: Timestamp) -> (r: Timestamp)
        requires
            earlier.usecs <= self.usecs,
        ensures
            r.usecs == self.usecs - earlier.usecs,
    {
        Timestamp { usecs: self.usecs - earlier.usecs }
    }

    /// The time that passed between `earlier` and `self`; none where `self`
    /// is the earlier one.
    pub open spec fn span_since(&self, earlier: Timestamp) -> u64 {
        if self.usecs >= earlier.usecs {
            (self.usecs - earlier.usecs) as u64
        } else {
            0
        }
    }

    /// The time that passed between `earlier` and `self`; none where `self`
    /// is the earlier one.
    pub fn since_or_zero(&self, earlier: Timestamp) -> (r: Timestamp)
        ensures
            r.usecs == self.span_since(earlier),
    {
        if self.usecs >= earlier.usecs {
            Timestamp { usecs: self.usecs - earlier.usecs }
        } else {
            Timestamp { usecs: 0 }
        }
    }

    /// The later of two timestamps.
    pub fn later_of(a: Timestamp, b: Timestamp) -> (r: Timestamp)
        ensures
            r.usecs == if a.usecs >= b.usecs { a.usecs } else { b.usecs },
    {
        if a.usecs >= b.usecs { a } else { b }
    }

    /// The earlier of two timestamps.
    pub fn earlier_of(a: Timestamp, b: Timestamp) -> (r: Timestamp)
        ensures
            r.usecs == if a.usecs <= b.usecs { a.usecs } else { b.usecs },
    {
        if a.usecs <= b.usecs { a } else { b }
    }
}

} // verus!
