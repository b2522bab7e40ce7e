use vstd::prelude::*;

verus! {

/// Largest number of whole seconds whose nanosecond count still fits in a `u64`.
pub const MAX_SECONDS: u64 = 18_446_744_073;

/// A point in time, counted in nanoseconds since the Unix epoch.
#[derive(Clone, Copy, Debug, PartialEq, Eq, Structural)]
pub struct Timestamp {
    pub nanos: u64,
}

impl Timestamp {
    /// Whole seconds since the epoch (nanoseconds truncated).
    pub open spec fn secs(self) -> int {
        self.nanos as int / 1_000_000_000
    }

    pub fn from_nanos(nanos: u64) -> (t: Timestamp)
        ensures
            t.nanos == nanos,
    {
        Timestamp { nanos }
    }

    /// Builds a timestamp from whole seconds; the nanosecond count must fit in a `u64`.
    pub fn from_seconds(seconds: u64) -> (t: Timestamp)
        requires
            seconds <= MAX_SECONDS,
        ensures
            t.nanos == seconds * 1_000_000_000,
            t.secs() == seconds,
    {
        Timestamp { nanos: seconds * 1_000_000_000 }
    }

    pub fn nanos(&self) -> (n: u64)
        ensures
            n == self.nanos,
    {
        self.nanos
    }

    pub fn seconds(&self) -> (s: u64)
        ensures
            s == self.secs(),
            s <= MAX_SECONDS,
    {
        self.nanos / 1_000_000_000
    }
}

} // verus!
