//! The reconstruction of a run, line by line.

use vstd::prelude::*;
use vstd::hash_map::StringHashMap;
use std::collections::VecDeque;
use crate::parser::classify;
use crate::time::TimeSpan;
use crate::timeline::{
    finish_test, initial, lanes_consistent, lemma_step_keeps_lanes_consistent, start_test, step,
    Pending, Timeline,
};
use crate::token::{line_token, LineToken, TokenView};
use crate::trace::Trace;

verus! {

/// What is kept of a test that has started and not finished yet.
#[derive(Clone, Copy)]
struct PendingEntry {
    start: TimeSpan,
    lane: u32,
}

/// An entry as plain values.
spec fn entry_view(entry: PendingEntry) -> Pending {
    Pending { start: entry.start@, lane: entry.lane }
}

/// The reconstruction of a run: it takes the lines of a log one by one and
/// holds the tests that have finished so far.
pub struct Reconstructor {
    pending: StringHashMap<PendingEntry>,
    free_lanes: VecDeque<u32>,
    next_lane: u32,
    clock: TimeSpan,
    traces: Vec<Trace>,
}

impl View for Reconstructor {
    type V = Timeline;

    closed spec fn view(&self) -> Timeline {
        Timeline {
            pending: self.pending@.map_values(|entry: PendingEntry| entry_view(entry)),
            free_lanes: self.free_lanes@,
            next_lane: self.next_lane as nat,
            clock: self.clock@,
            traces: self.traces.deep_view(),
        }
    }
}

impl Reconstructor {
    /// Whether the reconstruction is in order: the lanes are consistent.
    pub closed spec fn wf(&self) -> bool {
        lanes_consistent(self@)
    }

    /// In a reconstruction that is in order the lanes are consistent.
    pub proof fn lemma_lanes_consistent(&self)
        requires
            self.wf(),
        ensures
            lanes_consistent(self@),
    {
    }

    /// A reconstruction that has seen no line.
    pub fn new() -> (fresh: Reconstructor)
        ensures
            fresh.wf(),
            fresh@ == initial(),
    {
        let fresh = Reconstructor {
            pending: StringHashMap::new(),
            free_lanes: VecDeque::new(),
            next_lane: 0,
            clock: TimeSpan::zero(),
            traces: Vec::new(),
        };
        assert(fresh@.pending =~= Map::empty());
        assert(fresh@.traces =~= Seq::empty());
        fresh
    }

    /// Takes note that the test `test_name` has started: the test is given the
    /// lane that was given back first, or a new lane where none is free, and
    /// starts at the clock. A start for a test that is running already takes
    /// the place of the earlier one.
    pub fn on_start(&mut self, test_name: String)
        requires
            old(self).wf(),
        ensures
            final(self).wf(),
            final(self)@ == start_test(old(self)@, test_name@),
    {
        let lane: u32 = match self.free_lanes.pop_front() {
            Some(lane) => lane,
            None => {
                if self.next_lane == u32::MAX {
                    return;
                }
                let lane: u32 = self.next_lane;
                self.next_lane = lane + 1;
                lane
            },
        };
        let ghost name = test_name@;
        self.pending.insert(test_name, PendingEntry { start: self.clock, lane });
        proof {
            lemma_step_keeps_lanes_consistent(old(self)@, TokenView::Start { name });
            assert(self@.pending =~= start_test(old(self)@, name).pending);
            assert(self@.free_lanes =~= start_test(old(self)@, name).free_lanes);
            assert(self@ =~= start_test(old(self)@, name));
        }
    }

    /// Takes note that the test `test_name` has finished after `duration`.
    /// Where the test is running, its record joins the finished tests, the
    /// clock is set to its end, and its lane is free again. A finish for a
    /// test that is not running changes nothing.
    pub fn on_finish(&mut self, test_name: String, duration: TimeSpan)
        requires
            old(self).wf(),
        ensures
            final(self).wf(),
            final(self)@ == finish_test(old(self)@, test_name@, duration@),
    {
        let entry: PendingEntry = match self.pending.get(test_name.as_str()) {
            Some(entry) => *entry,
            None => {
                return;
            },
        };
        let end: TimeSpan = match entry.start.checked_add(duration) {
            Some(end) => end,
            None => {
                return;
            },
        };
        self.pending.remove(test_name.as_str());
        self.traces.push(
            Trace { name: test_name, start: entry.start, duration, thread_number: entry.lane },
        );
        self.clock = end;
        self.free_lanes.push_back(entry.lane);
        proof {
            lemma_step_keeps_lanes_consistent(
                old(self)@,
                TokenView::Finish { name: test_name@, duration: duration@ },
            );
            assert(self@.pending =~= finish_test(old(self)@, test_name@, duration@).pending);
            assert(self@.traces =~= finish_test(old(self)@, test_name@, duration@).traces);
            assert(self@ =~= finish_test(old(self)@, test_name@, duration@));
        }
    }

    /// Takes note of what one line says.
    pub fn feed(&mut self, token: LineToken)
        requires
            old(self).wf(),
        ensures
            final(self).wf(),
            final(self)@ == step(old(self)@, token@),
    {
        match token {
            LineToken::Start { test_name } => self.on_start(test_name),
            LineToken::Finish { test_name, duration } => self.on_finish(test_name, duration),
            LineToken::Unrecognized => {},
        }
    }

    /// Reads one line of the log and takes note of what it says. A line that
    /// neither announces a test nor reports the end of one changes nothing.
    pub fn feed_line(&mut self, line: &str)
        requires
            old(self).wf(),
        ensures
            final(self).wf(),
            final(self)@ == step(old(self)@, line_token(line@)),
    {
        self.feed(classify(line))
    }

    /// The tests that have finished, in the order of their finishing. Tests
    /// that are still running are left out.
    pub fn into_traces(self) -> (traces: Vec<Trace>)
        ensures
            traces.deep_view() == self@.traces,
    {
        self.traces
    }

    /// The clock: the end of the test that finished last, or the beginning
    /// of the run where none has finished.
    pub fn clock(&self) -> (clock: TimeSpan)
        ensures
            clock@ == self@.clock,
    {
        self.clock
    }

    /// The number of lanes that were made so far.
    pub fn lanes_made(&self) -> (count: u32)
        ensures
            count == self@.next_lane,
    {
        self.next_lane
    }

    /// The number of lanes that are free.
    pub fn lanes_free(&self) -> (count: usize)
        ensures
            count == self@.free_lanes.len(),
    {
        self.free_lanes.len()
    }

    /// The number of tests that have finished.
    pub fn finished(&self) -> (count: usize)
        ensures
            count == self@.traces.len(),
    {
        self.traces.len()
    }

    /// When the running test `name` started and which lane it holds; `None`
    /// where no test of that name is running.
    pub fn running(&self, name: &str) -> (found: Option<(TimeSpan, u32)>)
        ensures
            match found {
                Some((start, lane)) => self@.pending.dom().contains(name@) && self@.pending[name@]
                    == (Pending { start: start@, lane }),
                None => !self@.pending.dom().contains(name@),
            },
    {
        match self.pending.get(name) {
            Some(entry) => Some((entry.start, entry.lane)),
            None => None,
        }
    }
}

} // verus!
