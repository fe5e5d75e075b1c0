//! Spans of time.
use vstd::prelude::*;

verus! {

/// A span of time in nanoseconds.
#[derive(Clone, Copy, PartialEq, Eq, Structural, Debug, PartialOrd, Ord, Hash)]
pub struct Duration {
    pub nanos: u64,
}

impl DeepView for Duration {
    type V = Duration;

    open spec fn deep_view(&self) -> Duration {
        *self
    }
}

/// The span of `n` seconds.
pub open spec fn seconds(n: int) -> Duration {
    Duration { nanos: (n * 1_000_000_000) as u64 }
}

impl Duration {
    /// The span of `nanos` nanoseconds.
    pub fn from_nanos(nanos: u64) -> (r: Duration)
        ensures
            r.nanos == nanos,
    {
        Duration { nanos }
    }

    /// The span of `us` microseconds.
    pub fn from_micros(us: u64) -> (r: Duration)
        requires
            us * 1_000 <= u64::MAX,
        ensures
            r.nanos == us * 1_000,
    {
        Duration { nanos: us * 1_000 }
    }

    /// The whole microseconds of the span.
    pub fn as_micros(&self) -> (r: u64)
        ensures
            r == self.nanos / 1_000,
    {
        self.nanos / 1_000
    }

    /// The span of `ms` milliseconds.
    pub fn from_millis(ms: u64) -> (r: Duration)
        requires
            ms * 1_000_000 <= u64::MAX,
        ensures
            r.nanos == ms * 1_000_000,
    {
        Duration { nanos: ms * 1_000_000 }
    }

    /// The span of `s` seconds.
    pub fn from_secs(s: u64) -> (r: Duration)
        requires
            s * 1_000_000_000 <= u64::MAX,
        ensures
            r.nanos == s * 1_000_000_000,
            r == seconds(s as int),
    {
        Duration { nanos: s * 1_000_000_000 }
    }

    /// The whole seconds of the span.
    pub fn as_secs(&self) -> (r: u64)
        ensures
            r == self.nanos / 1_000_000_000,
    {
        self.nanos / 1_000_000_000
    }

    /// Whether the span is empty.
    pub fn is_zero(&self) -> (r: bool)
        ensures
            r == (self.nanos == 0),
    {
        self.nanos == 0
    }
}

} // verus!
