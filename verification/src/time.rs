//! Points in time and the spans between them.

use vstd::prelude::*;

verus! {

/// A point in time, in nanoseconds since a moment that all instants share.
#[derive(Clone, Copy, Debug, PartialEq, Eq, Structural)]
pub struct Instant {
    pub nanos: u128,
}

/// A span of time in nanoseconds.
#[derive(Clone, Copy, Debug, PartialEq, Eq, Structural)]
pub struct Duration {
    pub nanos: u128,
}

impl Instant {
    /// The time from `earlier` to `self`, zero where `earlier` is the later one.
    pub open spec fn duration_since_spec(self, earlier: Instant) -> Duration {
        if self.nanos < earlier.nanos {
            Duration { nanos: 0 }
        } else {
            Duration { nanos: (self.nanos - earlier.nanos) as u128 }
        }
    }

    /// The time from `earlier` to `self`, zero where `earlier` is the later one.
    pub fn duration_since(&self, earlier: Instant) -> (r: Duration)
        ensures
            r == self.duration_since_spec(earlier),
    {
        Duration { nanos: self.nanos.saturating_sub(earlier.nanos) }
    }
}

impl Duration {
    /// A span of whole seconds.
    pub fn from_secs(secs: u64) -> (r: Duration)
        ensures
            r.nanos == secs * 1_000_000_000,
    {
        Duration { nanos: secs as u128 * 1_000_000_000 }
    }

    /// A span of whole milliseconds.
    pub fn from_millis(millis: u64) -> (r: Duration)
        ensures
            r.nanos == millis * 1_000_000,
    {
        Duration { nanos: millis as u128 * 1_000_000 }
    }

    /// A span of whole microseconds.
    pub fn from_micros(micros: u64) -> (r: Duration)
        ensures
            r.nanos == micros * 1_000,
    {
        Duration { nanos: micros as u128 * 1_000 }
    }

    /// The span in nanoseconds.
    pub fn as_nanos(&self) -> (r: u128)
        ensures
            r == self.nanos,
    {
        self.nanos
    }
}

/// What passes between two points in time leads from the one to the other, and
/// nothing passes where the first is not the earlier one.
pub proof fn lemma_what_passes(earlier: Instant, later: Instant)
    ensures
        earlier.nanos <= later.nanos ==> earlier.nanos + later.duration_since_spec(
            earlier,
        ).nanos == later.nanos,
        earlier.nanos >= later.nanos ==> later.duration_since_spec(earlier).nanos == 0,
{
}

} // verus!
