//! The record of one test that ran from a start to a finish.

use vstd::prelude::*;
use crate::time::TimeSpan;

verus! {

/// One reconstructed interval: a test, when it started, how long it took, and
/// the lane it was given.
#[derive(Clone, Debug, PartialEq, Eq)]
pub struct Trace {
    /// The name of the test.
    pub name: String,
    /// When the test started, counted from the beginning of the run.
    pub start: TimeSpan,
    /// How long the test took.
    pub duration: TimeSpan,
    /// The lane of the test: a number that no other test holds while this one
    /// runs. It tells overlapping tests apart; it is no thread of the runner.
    pub thread_number: u32,
}

/// A `Trace` as plain values: the name as a sequence of characters and both
/// times as nanoseconds.
pub struct TraceView {
    pub name: Seq<char>,
    pub start: nat,
    pub duration: nat,
    pub lane: u32,
}

impl View for Trace {
    type V = TraceView;

    open spec fn view(&self) -> TraceView {
        TraceView {
            name: self.name@,
            start: self.start@,
            duration: self.duration@,
            lane: self.thread_number,
        }
    }
}

impl DeepView for Trace {
    type V = TraceView;

    open spec fn deep_view(&self) -> TraceView {
        self@
    }
}

} // verus!
