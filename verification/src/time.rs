//! Spans and instants as exact nanosecond counts.

use std::time::Instant;
use vstd::prelude::*;

verus! {

/// Nanoseconds in one second.
pub const NANOS_PER_SEC: u128 = 1_000_000_000;

/// Nanoseconds in one millisecond.
pub const NANOS_PER_MILLI: u128 = 1_000_000;

/// A span of time.
#[derive(Clone, Copy, Debug, PartialEq, Eq, PartialOrd, Ord, Hash, Structural)]
pub struct Duration {
    /// Length of the span in nanoseconds.
    pub nanos: u128,
}

impl Duration {
    /// A span of whole seconds.
    pub open spec fn of_secs(secs: u64) -> Duration {
        Duration { nanos: (secs * NANOS_PER_SEC) as u128 }
    }

    /// A span of whole milliseconds.
    pub open spec fn of_millis(millis: u64) -> Duration {
        Duration { nanos: (millis * NANOS_PER_MILLI) as u128 }
    }

    /// The empty span.
    pub fn zero() -> (span: Self)
        ensures
            span == (Duration { nanos: 0 }),
    {
        Duration { nanos: 0 }
    }

    /// A span of whole seconds.
    pub fn from_secs(secs: u64) -> (span: Self)
        ensures
            span == Duration::of_secs(secs),
            span.nanos == secs * NANOS_PER_SEC,
    {
        Duration { nanos: secs as u128 * NANOS_PER_SEC }
    }

    /// A span of whole milliseconds.
    pub fn from_millis(millis: u64) -> (span: Self)
        ensures
            span == Duration::of_millis(millis),
            span.nanos == millis * NANOS_PER_MILLI,
    {
        Duration { nanos: millis as u128 * NANOS_PER_MILLI }
    }

    /// A span of nanoseconds.
    pub fn from_nanos(nanos: u128) -> (span: Self)
        ensures
            span == (Duration { nanos }),
    {
        Duration { nanos }
    }

    /// The span in nanoseconds.
    pub fn as_nanos(self) -> (nanos: u128)
        ensures
            nanos == self.nanos,
    {
        self.nanos
    }

    /// The whole milliseconds in the span.
    pub fn as_millis(self) -> (millis: u128)
        ensures
            millis == self.nanos / NANOS_PER_MILLI,
    {
        self.nanos / NANOS_PER_MILLI
    }

    /// The whole seconds in the span, at most what 64 bits hold.
    pub open spec fn whole_secs(self) -> u64 {
        if self.nanos / NANOS_PER_SEC <= u64::MAX {
            (self.nanos / NANOS_PER_SEC) as u64
        } else {
            u64::MAX
        }
    }

    /// The whole seconds in the span, at most what 64 bits hold.
    pub fn as_secs(self) -> (secs: u64)
        ensures
            secs == self.whole_secs(),
    {
        let secs: u128 = self.nanos / NANOS_PER_SEC;
        if secs <= u64::MAX as u128 {
            secs as u64
        } else {
            u64::MAX
        }
    }

    /// The shorter of two spans.
    pub fn at_most(self, ceiling: Duration) -> (span: Duration)
        ensures
            span == (if self.nanos <= ceiling.nanos {
                self
            } else {
                ceiling
            }),
    {
        if self.nanos <= ceiling.nanos {
            self
        } else {
            ceiling
        }
    }
}

/// A point on the wall clock, counted from the Unix epoch.
#[derive(Clone, Copy, Debug, PartialEq, Eq, PartialOrd, Ord, Hash, Structural)]
pub struct Timestamp {
    /// Nanoseconds since the Unix epoch.
    pub nanos: u128,
}

impl Timestamp {
    /// The span from `earlier` to this point, unless `earlier` is in fact later.
    pub open spec fn spec_since(self, earlier: Timestamp) -> Option<Duration> {
        if earlier.nanos <= self.nanos {
            Some(Duration { nanos: (self.nanos - earlier.nanos) as u128 })
        } else {
            None
        }
    }

    /// The span from `earlier` to this point, unless `earlier` is in fact later.
    pub fn since(self, earlier: Timestamp) -> (span: Option<Duration>)
        ensures
            span == self.spec_since(earlier),
    {
        if earlier.nanos <= self.nanos {
            Some(Duration { nanos: self.nanos - earlier.nanos })
        } else {
            None
        }
    }

    /// The point a whole number of seconds after the epoch.
    pub fn from_secs(secs: u64) -> (point: Self)
        ensures
            point.nanos == secs * NANOS_PER_SEC,
    {
        Timestamp { nanos: secs as u128 * NANOS_PER_SEC }
    }

    /// Whole milliseconds since the epoch, at most what 64 bits hold.
    pub fn as_millis(self) -> (millis: u64)
        ensures
            millis == (if self.nanos / NANOS_PER_MILLI <= u64::MAX {
                self.nanos / NANOS_PER_MILLI
            } else {
                u64::MAX as u128
            }),
    {
        let millis: u128 = self.nanos / NANOS_PER_MILLI;
        if millis <= u64::MAX as u128 {
            millis as u64
        } else {
            u64::MAX
        }
    }
}

/// Reads the wall clock with `std::time::SystemTime::now` and `duration_since` the Unix epoch.
/// Nothing is promised of the reading; a clock set before the epoch reads as `None`.
#[verifier::external_body]
pub(crate) fn wall_clock() -> (now: Option<Timestamp>) {
    let since_epoch = std::time::SystemTime::now().duration_since(std::time::UNIX_EPOCH);
    since_epoch.ok().map(|span| Timestamp { nanos: span.as_nanos() })
}

/// A reading of the steady clock. Nothing is known of it but what [`elapsed`] measures from it.
#[verifier::external_type_specification]
#[verifier::external_body]
pub struct ExInstant(Instant);

/// Reads the steady clock with `std::time::Instant::now`. Nothing is promised of the reading.
#[verifier::external_body]
pub(crate) fn steady_clock() -> (now: Instant) {
    Instant::now()
}

/// Measures with `std::time::Instant::elapsed` how long ago a reading of the steady clock was
/// taken. Nothing is promised of the span.
#[verifier::external_body]
pub(crate) fn elapsed(since: &Instant) -> (span: Duration) {
    Duration { nanos: since.elapsed().as_nanos() }
}

/// Spans of seconds and of milliseconds measure alike: a thousand milliseconds are a second, and
/// the whole seconds of a span of seconds are those seconds.
pub proof fn law_spans_measure_alike(secs: u64, millis: u64, span: Duration)
    ensures
        millis == 1000 * secs ==> Duration::of_millis(millis) == Duration::of_secs(secs),
        Duration::of_secs(secs).whole_secs() == secs,
        Duration::of_secs(secs).nanos == secs * 1_000_000_000,
        Duration::of_millis(millis).nanos == millis * 1_000_000,
        span.whole_secs() < u64::MAX ==> span.whole_secs() * 1_000_000_000 <= span.nanos < (
        span.whole_secs() + 1) * 1_000_000_000,
{
    assert((secs * NANOS_PER_SEC) as u128 == secs * NANOS_PER_SEC);
    assert((millis * NANOS_PER_MILLI) as u128 == millis * NANOS_PER_MILLI);
}

/// The span from one moment to another, added to the first, is the second; there is none backwards.
pub proof fn law_a_span_leads_from_one_moment_to_the_other(earlier: Timestamp, later: Timestamp)
    ensures
        later.spec_since(earlier) is Some <==> earlier.nanos <= later.nanos,
        later.spec_since(earlier) matches Some(span) ==> earlier.nanos + span.nanos == later.nanos,
{
}

} // verus!
