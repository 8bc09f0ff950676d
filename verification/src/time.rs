//! Spans of time, counted in whole nanoseconds.

use vstd::prelude::*;

verus! {

/// Nanoseconds in one second.
pub const NANOS_PER_SEC: u128 = 1_000_000_000;

/// Nanoseconds in one millisecond.
pub const NANOS_PER_MILLI: u128 = 1_000_000;

/// Nanoseconds in one microsecond.
pub const NANOS_PER_MICRO: u128 = 1_000;

/// Nanoseconds in one hundredth of a second.
pub const NANOS_PER_CENTI: u128 = 10_000_000;

/// A non-negative span of time, or an offset from the beginning of a run.
///
/// The span is held as a count of nanoseconds, so every value that a log can
/// express (whole seconds and hundredths of a second, each a `u64`) is held
/// exactly.
#[derive(Clone, Copy, Debug, PartialEq, Eq, Structural)]
pub struct TimeSpan {
    pub nanos: u128,
}

impl View for TimeSpan {
    type V = nat;

    /// The span in nanoseconds.
    open spec fn view(&self) -> nat {
        self.nanos as nat
    }
}

impl TimeSpan {
    /// The empty span.
    pub fn zero() -> (span: TimeSpan)
        ensures
            span@ == 0,
    {
        TimeSpan { nanos: 0 }
    }

    /// The span of `secs` seconds and `nanos` further nanoseconds.
    pub fn new(secs: u64, nanos: u32) -> (span: TimeSpan)
        ensures
            span@ == secs * NANOS_PER_SEC + nanos,
    {
        let whole: u128 = secs as u128 * NANOS_PER_SEC;
        TimeSpan { nanos: whole + nanos as u128 }
    }

    /// The span of `millis` milliseconds.
    pub fn from_millis(millis: u64) -> (span: TimeSpan)
        ensures
            span@ == millis * NANOS_PER_MILLI,
    {
        TimeSpan { nanos: millis as u128 * NANOS_PER_MILLI }
    }

    /// The span of `secs` seconds and `centis` further hundredths of a
    /// second, as a log line gives them: ten milliseconds for each hundredth
    /// are added to the whole seconds.
    pub fn from_secs_and_centis(secs: u64, centis: u64) -> (span: TimeSpan)
        ensures
            span@ == secs * NANOS_PER_SEC + centis * NANOS_PER_CENTI,
    {
        let whole: u128 = secs as u128 * NANOS_PER_SEC;
        let part: u128 = centis as u128 * NANOS_PER_CENTI;
        TimeSpan { nanos: whole + part }
    }

    /// The number of whole microseconds in the span; what is left of a
    /// microsecond is cut off, not rounded.
    pub fn as_micros(&self) -> (micros: u128)
        ensures
            micros == self@ / (NANOS_PER_MICRO as nat),
    {
        self.nanos / NANOS_PER_MICRO
    }

    /// The sum of two spans, or `None` where the sum is more than a
    /// `TimeSpan` can hold.
    pub fn checked_add(self, rhs: TimeSpan) -> (sum: Option<TimeSpan>)
        ensures
            self@ + rhs@ <= u128::MAX ==> sum == Some((TimeSpan { nanos: (self@ + rhs@) as u128 })),
            self@ + rhs@ > u128::MAX ==> sum is None,
    {
        match self.nanos.checked_add(rhs.nanos) {
            Some(nanos) => Some(TimeSpan { nanos }),
            None => None,
        }
    }
}

} // verus!
