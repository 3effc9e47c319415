//! Monotonic time: [`Instant`] and [`Duration`], both counted in microseconds.
use vstd::prelude::*;

verus! {

/// A span of time in microseconds.
#[derive(Clone, Copy, Debug, PartialEq, Eq, Structural, PartialOrd, Ord, Hash, Default)]
pub struct Duration {
    pub us: u64,
}

/// A point in time: microseconds since an arbitrary origin.
#[derive(Clone, Copy, Debug, PartialEq, Eq, Structural, PartialOrd, Ord, Hash, Default)]
pub struct Instant {
    pub us: u64,
}

impl Duration {
    /// `ms` milliseconds.
    pub fn ms(ms: u64) -> (d: Duration)
        requires
            ms * 1000 <= u64::MAX,
        ensures
            d.us == ms * 1000,
    {
        Duration { us: ms * 1000 }
    }

    /// `s` seconds.
    pub fn secs(s: u64) -> (d: Duration)
        requires
            s * 1_000_000 <= u64::MAX,
        ensures
            d.us == s * 1_000_000,
    {
        Duration { us: s * 1_000_000 }
    }

    /// Whole milliseconds (rounded down).
    pub fn as_millis(self) -> (r: u64)
        ensures
            r == self.us / 1000,
    {
        self.us / 1000
    }

    /// Microseconds.
    pub fn as_micros(self) -> (r: u64)
        ensures
            r == self.us,
    {
        self.us
    }
}

impl Instant {
    /// The instant `ms` milliseconds after the origin.
    pub fn from_millis(ms: u64) -> (t: Instant)
        requires
            ms * 1000 <= u64::MAX,
        ensures
            t.us == ms * 1000,
    {
        Instant { us: ms * 1000 }
    }

    /// Whole milliseconds since the origin.
    pub fn as_millis(self) -> (r: u64)
        ensures
            r == self.us / 1000,
    {
        self.us / 1000
    }

    /// The time from `earlier` to `self`, zero when `earlier` is later.
    pub fn saturating_duration_since(self, earlier: Instant) -> (d: Duration)
        ensures
            d.us == (if self.us >= earlier.us { self.us - earlier.us } else { 0 }),
    {
        if self.us >= earlier.us {
            Duration { us: self.us - earlier.us }
        } else {
            Duration { us: 0 }
        }
    }

    /// `self + d`, saturating at the largest instant.
    pub fn add(self, d: Duration) -> (t: Instant)
        ensures
            t.us == (if self.us + d.us <= u64::MAX { self.us + d.us } else { u64::MAX as int }),
    {
        Instant { us: self.us.saturating_add(d.us) }
    }

    /// The earlier of two instants.
    pub fn earliest(self, other: Instant) -> (t: Instant)
        ensures
            t.us == (if self.us <= other.us { self.us } else { other.us }),
    {
        if self.us <= other.us { self } else { other }
    }
}

} // verus!
