//! Points in time and lengths of time, both in nanoseconds.

use vstd::prelude::*;

verus! {

/// A length of time in nanoseconds.
pub type Nanos = u64;

/// Nanoseconds in one microsecond.
pub const NANOS_PER_MICRO: u64 = 1_000;

/// Nanoseconds in one millisecond.
pub const NANOS_PER_MILLI: u64 = 1_000_000;

/// Nanoseconds in one second.
pub const NANOS_PER_SEC: u64 = 1_000_000_000;

/// A point in time: nanoseconds since an arbitrary reference point shared by
/// all timestamps of a process. Points before the reference are negative.
#[derive(Debug, Clone, Copy, PartialEq, Eq, Structural, PartialOrd, Ord)]
pub struct Timestamp {
    pub nanos: i64,
}

/// The time that passes from `earlier` to `later`, zero when `later` comes first.
pub open spec fn span(earlier: Timestamp, later: Timestamp) -> int {
    if later.nanos < earlier.nanos {
        0
    } else {
        later.nanos - earlier.nanos
    }
}

impl Timestamp {
    /// The saturating length of time since an earlier timestamp.
    pub fn duration_since(&self, earlier: Timestamp) -> (d: Nanos)
        ensures
            d == span(earlier, *self),
    {
        if self.nanos < earlier.nanos {
            0
        } else {
            (self.nanos as i128 - earlier.nanos as i128) as u64
        }
    }

    /// The length of time since this timestamp, as seen at `now`.
    pub fn elapsed(&self, now: Timestamp) -> (d: Nanos)
        ensures
            d == span(*self, now),
    {
        now.duration_since(*self)
    }

    /// The point that lies `micros` microseconds after `now`.
    pub fn from_duration_micros(now: Timestamp, micros: u64) -> (t: Timestamp)
        requires
            now.nanos + micros * NANOS_PER_MICRO <= i64::MAX,
        ensures
            t.nanos == now.nanos + micros * NANOS_PER_MICRO,
    {
        Timestamp { nanos: (now.nanos as i128 + micros as i128 * NANOS_PER_MICRO as i128) as i64 }
    }
}

impl core::ops::Add<u64> for Timestamp {
    type Output = Timestamp;

    fn add(self, nanos: u64) -> (t: Timestamp) {
        Timestamp { nanos: (self.nanos as i128 + nanos as i128) as i64 }
    }
}

impl vstd::std_specs::ops::AddSpecImpl<u64> for Timestamp {
    open spec fn obeys_add_spec() -> bool {
        true
    }

    open spec fn add_req(self, nanos: u64) -> bool {
        self.nanos + nanos <= i64::MAX
    }

    open spec fn add_spec(self, nanos: u64) -> Timestamp {
        Timestamp { nanos: (self.nanos + nanos) as i64 }
    }
}

impl core::ops::Sub<u64> for Timestamp {
    type Output = Timestamp;

    fn sub(self, nanos: u64) -> (t: Timestamp) {
        Timestamp { nanos: (self.nanos as i128 - nanos as i128) as i64 }
    }
}

impl vstd::std_specs::ops::SubSpecImpl<u64> for Timestamp {
    open spec fn obeys_sub_spec() -> bool {
        true
    }

    open spec fn sub_req(self, nanos: u64) -> bool {
        self.nanos - nanos >= i64::MIN
    }

    open spec fn sub_spec(self, nanos: u64) -> Timestamp {
        Timestamp { nanos: (self.nanos - nanos) as i64 }
    }
}

/// Going forward and back by the same length of time ends where it began, and
/// the span covered is that length.
pub proof fn add_then_sub(t: Timestamp, nanos: u64)
    requires
        t.nanos + nanos <= i64::MAX,
    ensures
        ({
            let later = Timestamp { nanos: (t.nanos + nanos) as i64 };
            &&& later.nanos - nanos == t.nanos
            &&& span(t, later) == nanos
        }),
{
}

/// The time between two points leads from the first to the second. There is none
/// back in time.
pub proof fn span_leads_from_one_to_the_other(earlier: Timestamp, later: Timestamp)
    ensures
        earlier.nanos <= later.nanos ==> earlier.nanos + span(earlier, later) == later.nanos,
        later.nanos <= earlier.nanos ==> span(earlier, later) == 0,
{
}

} // verus!
