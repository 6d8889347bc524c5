//! Wall-clock instants as plain values.
//!
//! The orchestrator's rules (idle sweeps, key deadlines, lease expiry) are
//! all comparisons of millisecond timestamps, so an instant is held as the
//! signed number of milliseconds since the Unix epoch.

use vstd::prelude::*;

verus! {

/// An instant: milliseconds since the Unix epoch.
#[derive(Clone, Copy, Debug, PartialEq, Eq, Structural)]
pub struct TimeMs {
    pub ms: i64,
}

impl TimeMs {
    /// Whether this instant is strictly before `other`.
    pub fn before(&self, other: &TimeMs) -> (r: bool)
        ensures
            r == (self.ms < other.ms),
    {
        self.ms < other.ms
    }

    /// Whether this instant is at or before `other`.
    pub fn before_eq(&self, other: &TimeMs) -> (r: bool)
        ensures
            r == (self.ms <= other.ms),
    {
        self.ms <= other.ms
    }

    /// Milliseconds elapsed from `earlier` to this instant.
    pub fn millis_since(&self, earlier: &TimeMs) -> (d: i64)
        requires
            i64::MIN <= self.ms - earlier.ms <= i64::MAX,
        ensures
            d == self.ms - earlier.ms,
    {
        self.ms - earlier.ms
    }

    /// The instant `millis` later than this one.
    pub fn plus_millis(&self, millis: i64) -> (t: TimeMs)
        requires
            i64::MIN <= self.ms + millis <= i64::MAX,
        ensures
            t.ms == self.ms + millis,
    {
        TimeMs { ms: self.ms + millis }
    }

    /// The instant `seconds` later than this one.
    pub fn plus_seconds(&self, seconds: i64) -> (t: TimeMs)
        requires
            i64::MIN <= seconds * 1000 <= i64::MAX,
            i64::MIN <= self.ms + seconds * 1000 <= i64::MAX,
        ensures
            t.ms == self.ms + seconds * 1000,
    {
        TimeMs { ms: self.ms + seconds * 1000 }
    }
}

/// The wall clock now.
///
/// Relies on chrono's `Utc::now` and `DateTime::timestamp_millis`: the value
/// depends on the machine's clock, so nothing is promised of it. On a
/// machine whose clock is set before the Unix epoch, `Utc::now` itself
/// panics; like an entropy failure, that environmental condition cannot be
/// excluded by a precondition.
#[verifier::external_body]
pub fn now_ms() -> TimeMs {
    TimeMs { ms: chrono::Utc::now().timestamp_millis() }
}

} // verus!
