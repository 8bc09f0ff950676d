//! The reconstruction of a run as a mathematical object: the state that the
//! log has led to so far, and what each line does to it.
//!
//! The log names no threads and gives no times of day. A test is given a
//! lane when it starts and gives it back when it finishes; a lane that was
//! given back is given out again, the one given back first going first, before
//! a new one is made. Time moves only when a test finishes: it is then set to
//! the start of that test plus the time the test took, and every test that
//! starts afterwards starts at that time.
//!
//! A finish for a test that is not running is dropped without a trace and
//! changes nothing.

use vstd::prelude::*;
use crate::token::TokenView;
use crate::trace::TraceView;

verus! {

/// A test that has started and not finished yet.
pub struct Pending {
    /// The clock when the test started.
    pub start: nat,
    /// The lane that the test holds.
    pub lane: u32,
}

/// The state of a reconstruction.
#[verifier::ext_equal]
pub struct Timeline {
    /// The running tests, by name.
    pub pending: Map<Seq<char>, Pending>,
    /// The lanes that were given back, the one given back first in front.
    pub free_lanes: Seq<u32>,
    /// The least lane that was never given out.
    pub next_lane: nat,
    /// The clock, in nanoseconds from the beginning of the run.
    pub clock: nat,
    /// The tests that have finished, in the order of their finishing.
    pub traces: Seq<TraceView>,
}

/// The state before the first line.
pub open spec fn initial() -> Timeline {
    Timeline {
        pending: Map::empty(),
        free_lanes: Seq::empty(),
        next_lane: 0,
        clock: 0,
        traces: Seq::empty(),
    }
}

/// The state after a test `name` has started in `s`. The test takes the lane
/// at the front of the free lanes, or the next new lane where none is free,
/// and starts at the clock of `s`. A test of that name that was running is
/// forgotten, and its lane with it. Where no lane is free and the lanes that a
/// `u32` can count are used up, the start is passed over.
pub open spec fn start_test(s: Timeline, name: Seq<char>) -> Timeline {
    if s.free_lanes.len() > 0 {
        Timeline {
            pending: s.pending.insert(name, Pending { start: s.clock, lane: s.free_lanes[0] }),
            free_lanes: s.free_lanes.drop_first(),
            ..s
        }
    } else if s.next_lane < u32::MAX {
        Timeline {
            pending: s.pending.insert(name, Pending { start: s.clock, lane: s.next_lane as u32 }),
            next_lane: s.next_lane + 1,
            ..s
        }
    } else {
        s
    }
}

/// Whether a finish of the test `name` after `duration` has an effect in `s`:
/// the test is running, and the time of its end can be held in 128 bits.
pub open spec fn finish_counts(s: Timeline, name: Seq<char>, duration: nat) -> bool {
    s.pending.dom().contains(name) && s.pending[name].start + duration <= u128::MAX
}

/// The state after the test `name` has finished in `s`, having taken
/// `duration`. Where the test is running, its record joins the finished
/// tests, the clock is set to the end of the test, and its lane goes to the
/// back of the free lanes. Otherwise nothing changes.
pub open spec fn finish_test(s: Timeline, name: Seq<char>, duration: nat) -> Timeline {
    if finish_counts(s, name, duration) {
        let test = s.pending[name];
        Timeline {
            pending: s.pending.remove(name),
            free_lanes: s.free_lanes.push(test.lane),
            clock: test.start + duration,
            traces: s.traces.push(
                TraceView { name, start: test.start, duration, lane: test.lane },
            ),
            ..s
        }
    } else {
        s
    }
}

/// The state after one line that says `token`.
pub open spec fn step(s: Timeline, token: TokenView) -> Timeline {
    match token {
        TokenView::Start { name } => start_test(s, name),
        TokenView::Finish { name, duration } => finish_test(s, name, duration),
        TokenView::Unrecognized => s,
    }
}

/// The state after the lines that say `tokens`, taken in their order.
pub open spec fn replay(s: Timeline, tokens: Seq<TokenView>) -> Timeline
    decreases tokens.len(),
{
    if tokens.len() == 0 {
        s
    } else {
        step(replay(s, tokens.drop_last()), tokens.last())
    }
}

/// What holds of the lanes in every state that a log can lead to: every lane
/// in use or free was given out before; no lane is free twice; no two running
/// tests share a lane; and no lane is both free and in use.
pub open spec fn lanes_consistent(s: Timeline) -> bool {
    &&& s.next_lane <= u32::MAX
    &&& forall|i: int| 0 <= i < s.free_lanes.len() ==> #[trigger] s.free_lanes[i] < s.next_lane
    &&& forall|i: int, j: int|
        0 <= i < j < s.free_lanes.len() ==> #[trigger] s.free_lanes[i] != #[trigger] s.free_lanes[j]
    &&& forall|n: Seq<char>| #[trigger]
        s.pending.dom().contains(n) ==> s.pending[n].lane < s.next_lane
    &&& forall|n: Seq<char>, m: Seq<char>|
        #[trigger] s.pending.dom().contains(n) && #[trigger] s.pending.dom().contains(m) && n != m
            ==> s.pending[n].lane != s.pending[m].lane
    &&& forall|n: Seq<char>, i: int|
        #[trigger] s.pending.dom().contains(n) && 0 <= i < s.free_lanes.len()
            ==> s.pending[n].lane != #[trigger] s.free_lanes[i]
}

/// The lanes are consistent before the first line.
pub proof fn lemma_initial_lanes_consistent()
    ensures
        lanes_consistent(initial()),
{
}

/// No line breaks the consistency of the lanes: tests that run at the same
/// time never share a lane, and a lane in use is never free.
pub proof fn lemma_step_keeps_lanes_consistent(s: Timeline, token: TokenView)
    requires
        lanes_consistent(s),
    ensures
        lanes_consistent(step(s, token)),
{
    let t = step(s, token);
    match token {
        TokenView::Start { name } => {
            if s.free_lanes.len() > 0 {
                assert(forall|i: int|
                    0 <= i < t.free_lanes.len() ==> t.free_lanes[i] == s.free_lanes[i + 1]);
                assert(s.free_lanes[0] < s.next_lane);
            }
        },
        TokenView::Finish { name, duration } => {},
        TokenView::Unrecognized => {},
    }
}

/// The lanes are consistent after any log.
pub proof fn lemma_replay_keeps_lanes_consistent(tokens: Seq<TokenView>)
    ensures
        lanes_consistent(replay(initial(), tokens)),
    decreases tokens.len(),
{
    if tokens.len() > 0 {
        lemma_replay_keeps_lanes_consistent(tokens.drop_last());
        lemma_step_keeps_lanes_consistent(replay(initial(), tokens.drop_last()), tokens.last());
    }
}

/// Whether every finished test ran on a lane that was made: no record names
/// a lane that the reconstruction never gave out.
pub open spec fn records_on_made_lanes(s: Timeline) -> bool {
    forall|i: int| 0 <= i < s.traces.len() ==> (#[trigger] s.traces[i]).lane < s.next_lane
}

/// No line puts a record on a lane that was never made.
pub proof fn lemma_step_keeps_records_on_made_lanes(s: Timeline, token: TokenView)
    requires
        lanes_consistent(s),
        records_on_made_lanes(s),
    ensures
        records_on_made_lanes(step(s, token)),
{
}

/// After any log every record is on a lane below the number of lanes made.
pub proof fn lemma_replay_keeps_records_on_made_lanes(tokens: Seq<TokenView>)
    ensures
        records_on_made_lanes(replay(initial(), tokens)),
    decreases tokens.len(),
{
    if tokens.len() > 0 {
        lemma_replay_keeps_records_on_made_lanes(tokens.drop_last());
        lemma_replay_keeps_lanes_consistent(tokens.drop_last());
        lemma_step_keeps_records_on_made_lanes(
            replay(initial(), tokens.drop_last()),
            tokens.last(),
        );
    }
}

/// A log that is one line longer leads to the state of the shorter log, and
/// from there one step on.
pub proof fn lemma_replay_push(s: Timeline, tokens: Seq<TokenView>, token: TokenView)
    ensures
        replay(s, tokens.push(token)) == step(replay(s, tokens), token),
{
    assert(tokens.push(token).drop_last() =~= tokens);
}

/// A log of two parts leads to where its second part leads from the state
/// that the first part led to.
pub proof fn lemma_replay_concat(s: Timeline, first: Seq<TokenView>, second: Seq<TokenView>)
    ensures
        replay(s, first + second) == replay(replay(s, first), second),
    decreases second.len(),
{
    if second.len() == 0 {
        assert(first + second =~= first);
    } else {
        lemma_replay_concat(s, first, second.drop_last());
        assert((first + second).drop_last() =~= first + second.drop_last());
    }
}

/// A finish for a test that is not running changes nothing: no record is
/// made, and the free lanes, the clock and the running tests stay as they
/// are.
pub proof fn lemma_orphan_finish_changes_nothing(s: Timeline, name: Seq<char>, duration: nat)
    requires
        !s.pending.dom().contains(name),
    ensures
        step(s, TokenView::Finish { name, duration }) == s,
{
}

/// A line never touches the records of the tests that finished before it: it
/// adds one record at the end, or none.
pub proof fn lemma_step_keeps_records(s: Timeline, token: TokenView)
    ensures
        step(s, token).traces == s.traces || (step(s, token).traces.len() == s.traces.len() + 1
            && step(s, token).traces.drop_last() == s.traces),
{
    let after = step(s, token);
    if after.traces != s.traces {
        assert(after.traces.drop_last() =~= s.traces);
    }
}

/// A test that starts while a lane is free takes the lane that was given
/// back first, and no new lane is made.
pub proof fn lemma_start_takes_first_free_lane(s: Timeline, name: Seq<char>)
    requires
        s.free_lanes.len() > 0,
    ensures
        start_test(s, name).pending[name] == (Pending { start: s.clock, lane: s.free_lanes[0] }),
        start_test(s, name).next_lane == s.next_lane,
        start_test(s, name).free_lanes == s.free_lanes.drop_first(),
{
}

/// A test alone: one start and one finish of the same test give one record,
/// which starts at the beginning of the run, on lane 0, and lasts what the
/// finish says.
pub proof fn lemma_lone_test(name: Seq<char>, duration: nat)
    requires
        duration <= u128::MAX,
    ensures
        replay(
            initial(),
            seq![TokenView::Start { name }, TokenView::Finish { name, duration }],
        ).traces == seq![TraceView { name, start: 0, duration, lane: 0 }],
{
    let tokens = seq![TokenView::Start { name }, TokenView::Finish { name, duration }];
    let started = step(initial(), tokens[0]);
    assert(tokens =~= Seq::empty().push(tokens[0]).push(tokens[1]));
    lemma_replay_push(initial(), Seq::empty(), tokens[0]);
    lemma_replay_push(initial(), Seq::empty().push(tokens[0]), tokens[1]);
    assert(started.pending.dom().contains(name));
    assert(step(started, tokens[1]).traces =~= seq![
        TraceView { name, start: 0, duration, lane: 0 },
    ]);
}

/// Two tests one after the other: the second starts when the first has
/// finished, at the end of the first, and takes the lane of the first.
pub proof fn lemma_tests_in_turn_share_a_lane(
    first: Seq<char>,
    first_took: nat,
    second: Seq<char>,
    second_took: nat,
)
    requires
        first_took + second_took <= u128::MAX,
    ensures
        replay(
            initial(),
            seq![
                TokenView::Start { name: first },
                TokenView::Finish { name: first, duration: first_took },
                TokenView::Start { name: second },
                TokenView::Finish { name: second, duration: second_took },
            ],
        ).traces == seq![
            TraceView { name: first, start: 0, duration: first_took, lane: 0 },
            TraceView { name: second, start: first_took, duration: second_took, lane: 0 },
        ],
{
    let tokens = seq![
        TokenView::Start { name: first },
        TokenView::Finish { name: first, duration: first_took },
        TokenView::Start { name: second },
        TokenView::Finish { name: second, duration: second_took },
    ];
    let none = Seq::<TokenView>::empty();
    assert(tokens =~= none.push(tokens[0]).push(tokens[1]).push(tokens[2]).push(tokens[3]));
    lemma_replay_push(initial(), none, tokens[0]);
    lemma_replay_push(initial(), none.push(tokens[0]), tokens[1]);
    lemma_replay_push(initial(), none.push(tokens[0]).push(tokens[1]), tokens[2]);
    lemma_replay_push(initial(), none.push(tokens[0]).push(tokens[1]).push(tokens[2]), tokens[3]);
    let one = step(initial(), tokens[0]);
    assert(one.pending.dom().contains(first));
    let two = step(one, tokens[1]);
    assert(two.free_lanes =~= seq![0u32]);
    assert(two.clock == first_took);
    let three = step(two, tokens[2]);
    assert(three.pending.dom().contains(second));
    assert(three.pending[second] == Pending { start: first_took, lane: 0 });
    let four = step(three, tokens[3]);
    assert(four.traces =~= seq![
        TraceView { name: first, start: 0, duration: first_took, lane: 0 },
        TraceView { name: second, start: first_took, duration: second_took, lane: 0 },
    ]);
}

/// Two tests at the same time: where both start before either finishes, the
/// first is on lane 0 and the second on lane 1, and both start at the
/// beginning of the run.
pub proof fn lemma_tests_at_once_take_two_lanes(
    first: Seq<char>,
    first_took: nat,
    second: Seq<char>,
    second_took: nat,
)
    requires
        first != second,
        first_took <= u128::MAX,
        second_took <= u128::MAX,
    ensures
        replay(
            initial(),
            seq![
                TokenView::Start { name: first },
                TokenView::Start { name: second },
                TokenView::Finish { name: first, duration: first_took },
                TokenView::Finish { name: second, duration: second_took },
            ],
        ).traces == seq![
            TraceView { name: first, start: 0, duration: first_took, lane: 0 },
            TraceView { name: second, start: 0, duration: second_took, lane: 1 },
        ],
{
    let tokens = seq![
        TokenView::Start { name: first },
        TokenView::Start { name: second },
        TokenView::Finish { name: first, duration: first_took },
        TokenView::Finish { name: second, duration: second_took },
    ];
    let none = Seq::<TokenView>::empty();
    assert(tokens =~= none.push(tokens[0]).push(tokens[1]).push(tokens[2]).push(tokens[3]));
    lemma_replay_push(initial(), none, tokens[0]);
    lemma_replay_push(initial(), none.push(tokens[0]), tokens[1]);
    lemma_replay_push(initial(), none.push(tokens[0]).push(tokens[1]), tokens[2]);
    lemma_replay_push(initial(), none.push(tokens[0]).push(tokens[1]).push(tokens[2]), tokens[3]);
    let one = step(initial(), tokens[0]);
    let two = step(one, tokens[1]);
    assert(two.pending.dom().contains(first));
    assert(two.pending.dom().contains(second));
    assert(two.pending[first] == Pending { start: 0, lane: 0 });
    assert(two.pending[second] == Pending { start: 0, lane: 1 });
    let three = step(two, tokens[2]);
    assert(three.pending.dom().contains(second));
    let four = step(three, tokens[3]);
    assert(four.traces =~= seq![
        TraceView { name: first, start: 0, duration: first_took, lane: 0 },
        TraceView { name: second, start: 0, duration: second_took, lane: 1 },
    ]);
}

/// A lane that was given back is used again: where a first test finishes
/// while a second still runs, a third test that starts then takes the lane of
/// the first, not a new one, and starts at the end of the first.
pub proof fn lemma_freed_lane_is_reused(
    first: Seq<char>,
    first_took: nat,
    second: Seq<char>,
    third: Seq<char>,
)
    requires
        first != second,
        third != second,
        first_took <= u128::MAX,
    ensures
        ({
            let s = replay(
                initial(),
                seq![
                    TokenView::Start { name: first },
                    TokenView::Start { name: second },
                    TokenView::Finish { name: first, duration: first_took },
                    TokenView::Start { name: third },
                ],
            );
            &&& s.pending.dom().contains(second)
            &&& s.pending[second] == (Pending { start: 0, lane: 1 })
            &&& s.pending.dom().contains(third)
            &&& s.pending[third] == (Pending { start: first_took, lane: 0 })
            &&& s.next_lane == 2
            &&& s.free_lanes.len() == 0
        }),
{
    let tokens = seq![
        TokenView::Start { name: first },
        TokenView::Start { name: second },
        TokenView::Finish { name: first, duration: first_took },
        TokenView::Start { name: third },
    ];
    let none = Seq::<TokenView>::empty();
    assert(tokens =~= none.push(tokens[0]).push(tokens[1]).push(tokens[2]).push(tokens[3]));
    lemma_replay_push(initial(), none, tokens[0]);
    lemma_replay_push(initial(), none.push(tokens[0]), tokens[1]);
    lemma_replay_push(initial(), none.push(tokens[0]).push(tokens[1]), tokens[2]);
    lemma_replay_push(initial(), none.push(tokens[0]).push(tokens[1]).push(tokens[2]), tokens[3]);
    let one = step(initial(), tokens[0]);
    let two = step(one, tokens[1]);
    assert(two.pending.dom().contains(first));
    assert(two.pending[first] == Pending { start: 0, lane: 0 });
    let three = step(two, tokens[2]);
    assert(three.free_lanes =~= seq![0u32]);
    let four = step(three, tokens[3]);
    assert(four.free_lanes =~= Seq::<u32>::empty());
}


/// The lines of a log that say something, in their order.
pub open spec fn recognized(tokens: Seq<TokenView>) -> Seq<TokenView>
    decreases tokens.len(),
{
    if tokens.len() == 0 {
        tokens
    } else if tokens.last() is Unrecognized {
        recognized(tokens.drop_last())
    } else {
        recognized(tokens.drop_last()).push(tokens.last())
    }
}

/// Lines of neither shape may stand anywhere in a log: the log leads to the
/// state that it leads to without them.
pub proof fn lemma_unrecognized_lines_change_nothing(s: Timeline, tokens: Seq<TokenView>)
    ensures
        replay(s, tokens) == replay(s, recognized(tokens)),
    decreases tokens.len(),
{
    if tokens.len() > 0 {
        lemma_unrecognized_lines_change_nothing(s, tokens.drop_last());
        if !(tokens.last() is Unrecognized) {
            lemma_replay_push(s, recognized(tokens.drop_last()), tokens.last());
        }
    }
}

/// The log of the first `count` of the tests `names` where they run in turn:
/// each starts, and finishes after its time in `times`, before the next one
/// starts.
pub open spec fn tests_in_turn(names: Seq<Seq<char>>, times: Seq<nat>, count: nat) -> Seq<
    TokenView,
>
    decreases count,
{
    if count == 0 {
        Seq::empty()
    } else {
        tests_in_turn(names, times, (count - 1) as nat).push(
            TokenView::Start { name: names[count - 1] },
        ).push(TokenView::Finish { name: names[count - 1], duration: times[count - 1] })
    }
}

/// The sum of the first `count` of `times`.
pub open spec fn time_before(times: Seq<nat>, count: nat) -> nat
    decreases count,
{
    if count == 0 {
        0
    } else {
        time_before(times, (count - 1) as nat) + times[count - 1]
    }
}

/// The records of the first `count` of the tests `names` where they run in
/// turn: all on lane 0, each starting at the end of the one before it.
pub open spec fn records_in_turn(names: Seq<Seq<char>>, times: Seq<nat>, count: nat) -> Seq<
    TraceView,
> {
    Seq::new(
        count,
        |i: int|
            TraceView {
                name: names[i],
                start: time_before(times, i as nat),
                duration: times[i],
                lane: 0,
            },
    )
}

/// The state after the first `count` of the tests `names` have run in turn:
/// nothing runs, the one lane is free, and the clock is at the end of the
/// last test.
pub proof fn lemma_state_after_tests_in_turn(names: Seq<Seq<char>>, times: Seq<nat>, count: nat)
    requires
        time_before(times, count) <= u128::MAX,
    ensures
        replay(initial(), tests_in_turn(names, times, count)) == (Timeline {
            pending: Map::empty(),
            free_lanes: if count == 0 {
                Seq::empty()
            } else {
                seq![0u32]
            },
            next_lane: if count == 0 {
                0
            } else {
                1
            },
            clock: time_before(times, count),
            traces: records_in_turn(names, times, count),
        }),
    decreases count,
{
    let after = replay(initial(), tests_in_turn(names, times, count));
    if count == 0 {
        assert(after.traces =~= records_in_turn(names, times, count));
    } else {
        let fewer = (count - 1) as nat;
        let name = names[count - 1];
        let start = TokenView::Start { name };
        let finish = TokenView::Finish { name, duration: times[count - 1] };
        let before = tests_in_turn(names, times, fewer);
        lemma_state_after_tests_in_turn(names, times, fewer);
        lemma_replay_push(initial(), before, start);
        lemma_replay_push(initial(), before.push(start), finish);
        let idle = replay(initial(), before);
        let running = step(idle, start);
        assert(running.pending.dom().contains(name));
        assert(running.pending[name] == Pending { start: time_before(times, fewer), lane: 0 });
        assert(running.free_lanes =~= Seq::<u32>::empty());
        assert(after == step(running, finish));
        assert(after.pending =~= Map::empty());
        assert(after.free_lanes =~= seq![0u32]);
        assert(after.traces =~= records_in_turn(names, times, count));
    }
}

/// Tests in turn share lane 0: where each test of a log finishes before the
/// next one starts, with lines of neither shape anywhere between, the log
/// gives one record for each test, in their order, all on lane 0, and each
/// starts at the end of the one before it.
pub proof fn lemma_tests_in_turn_all_share_lane_zero(
    names: Seq<Seq<char>>,
    times: Seq<nat>,
    tokens: Seq<TokenView>,
)
    requires
        recognized(tokens) == tests_in_turn(names, times, names.len()),
        time_before(times, names.len()) <= u128::MAX,
    ensures
        replay(initial(), tokens).traces == records_in_turn(names, times, names.len()),
{
    lemma_unrecognized_lines_change_nothing(initial(), tokens);
    lemma_state_after_tests_in_turn(names, times, names.len());
}


/// When the test of a record ended.
pub open spec fn end_of(record: TraceView) -> nat {
    record.start + record.duration
}

/// Whether two records share some span of time.
pub open spec fn overlap(first: TraceView, second: TraceView) -> bool {
    first.start < end_of(second) && second.start < end_of(first)
}

/// Whether the line leaves the clock where it is or moves it on: it is no
/// finish that counts, or the test that it finishes ends at the clock or
/// later.
pub open spec fn keeps_time(s: Timeline, token: TokenView) -> bool {
    token matches TokenView::Finish { name, duration } ==> finish_counts(s, name, duration)
        ==> s.clock <= s.pending[name].start + duration
}

/// Whether no line of the log moves the clock back.
pub open spec fn time_never_goes_back(tokens: Seq<TokenView>) -> bool
    decreases tokens.len(),
{
    tokens.len() > 0 ==> time_never_goes_back(tokens.drop_last()) && keeps_time(
        replay(initial(), tokens.drop_last()),
        tokens.last(),
    )
}

/// What holds of lanes and times while the clock never goes back: every
/// finished test ended at the clock or before; a running test started when
/// the tests that were on its lane before it had ended; and of two finished
/// tests on one lane, the one that finished first had ended when the other
/// started.
pub open spec fn lanes_in_time(s: Timeline) -> bool {
    &&& forall|i: int| 0 <= i < s.traces.len() ==> end_of(#[trigger] s.traces[i]) <= s.clock
    &&& forall|n: Seq<char>, i: int|
        #[trigger] s.pending.dom().contains(n) && 0 <= i < s.traces.len() && (
        #[trigger] s.traces[i]).lane == s.pending[n].lane ==> end_of(s.traces[i])
            <= s.pending[n].start
    &&& forall|i: int, j: int|
        0 <= i < j < s.traces.len() && (#[trigger] s.traces[i]).lane == (
        #[trigger] s.traces[j]).lane ==> end_of(s.traces[i]) <= s.traces[j].start
}

/// A line that does not move the clock back keeps lanes and times in order.
pub proof fn lemma_step_keeps_lanes_in_time(s: Timeline, token: TokenView)
    requires
        lanes_consistent(s),
        lanes_in_time(s),
        keeps_time(s, token),
    ensures
        lanes_in_time(step(s, token)),
{
    let after = step(s, token);
    match token {
        TokenView::Start { name } => {
            assert forall|n: Seq<char>, i: int|
                #[trigger] after.pending.dom().contains(n) && 0 <= i < after.traces.len() && (
                #[trigger] after.traces[i]).lane == after.pending[n].lane implies end_of(
                after.traces[i],
            ) <= after.pending[n].start by {
                if n != name {
                    assert(s.pending.dom().contains(n));
                }
            }
        },
        TokenView::Finish { name, duration } => {
            if finish_counts(s, name, duration) {
                let last = s.traces.len() as int;
                assert forall|i: int| 0 <= i < after.traces.len() implies end_of(
                    #[trigger] after.traces[i],
                ) <= after.clock by {
                    if i < last {
                        assert(after.traces[i] == s.traces[i]);
                    }
                }
                assert forall|n: Seq<char>, i: int|
                    #[trigger] after.pending.dom().contains(n) && 0 <= i < after.traces.len() && (
                    #[trigger] after.traces[i]).lane == after.pending[n].lane implies end_of(
                    after.traces[i],
                ) <= after.pending[n].start by {
                    assert(s.pending.dom().contains(n));
                    assert(s.pending.dom().contains(name));
                    if i < last {
                        assert(after.traces[i] == s.traces[i]);
                    }
                }
                assert forall|i: int, j: int|
                    0 <= i < j < after.traces.len() && (#[trigger] after.traces[i]).lane == (
                    #[trigger] after.traces[j]).lane implies end_of(after.traces[i])
                    <= after.traces[j].start by {
                    assert(after.traces[i] == s.traces[i]);
                    if j < last {
                        assert(after.traces[j] == s.traces[j]);
                    } else {
                        assert(s.pending.dom().contains(name));
                    }
                }
            }
        },
        TokenView::Unrecognized => {},
    }
}

/// After a log that never moves the clock back, lanes and times are in
/// order.
pub proof fn lemma_replay_keeps_lanes_in_time(tokens: Seq<TokenView>)
    requires
        time_never_goes_back(tokens),
    ensures
        lanes_in_time(replay(initial(), tokens)),
    decreases tokens.len(),
{
    if tokens.len() > 0 {
        lemma_replay_keeps_lanes_in_time(tokens.drop_last());
        lemma_replay_keeps_lanes_consistent(tokens.drop_last());
        lemma_step_keeps_lanes_in_time(replay(initial(), tokens.drop_last()), tokens.last());
    }
}

/// Records that overlap are on different lanes: in a log that never moves the
/// clock back, two finished tests that share some span of time do not share
/// a lane.
pub proof fn lemma_overlapping_records_differ_in_lane(tokens: Seq<TokenView>, i: int, j: int)
    requires
        time_never_goes_back(tokens),
        0 <= i < replay(initial(), tokens).traces.len(),
        0 <= j < replay(initial(), tokens).traces.len(),
        i != j,
        overlap(replay(initial(), tokens).traces[i], replay(initial(), tokens).traces[j]),
    ensures
        replay(initial(), tokens).traces[i].lane != replay(initial(), tokens).traces[j].lane,
{
    lemma_replay_keeps_lanes_in_time(tokens);
    let traces = replay(initial(), tokens).traces;
    if traces[i].lane == traces[j].lane {
        if i < j {
            assert(end_of(traces[i]) <= traces[j].start);
        } else {
            assert(end_of(traces[j]) <= traces[i].start);
        }
    }
}


/// Whether the line starts no test that is running already.
pub open spec fn starts_afresh(s: Timeline, token: TokenView) -> bool {
    token matches TokenView::Start { name } ==> !s.pending.dom().contains(name)
}

/// Whether no line of the log starts a test that is running already.
pub open spec fn never_restarts(tokens: Seq<TokenView>) -> bool
    decreases tokens.len(),
{
    tokens.len() > 0 ==> never_restarts(tokens.drop_last()) && starts_afresh(
        replay(initial(), tokens.drop_last()),
        tokens.last(),
    )
}

/// The largest number of tests that were running at once at any point of the
/// log.
pub open spec fn most_running(tokens: Seq<TokenView>) -> nat
    decreases tokens.len(),
{
    if tokens.len() == 0 {
        0
    } else {
        let before = most_running(tokens.drop_last());
        let now = replay(initial(), tokens).pending.dom().len();
        if before < now {
            now
        } else {
            before
        }
    }
}

/// Whether no lane is lost: every lane that was made is held by a running
/// test or is free.
pub open spec fn lanes_all_kept(s: Timeline) -> bool {
    &&& s.pending.dom().finite()
    &&& s.next_lane == s.pending.dom().len() + s.free_lanes.len()
}

/// A line that starts no running test again loses no lane.
pub proof fn lemma_step_keeps_all_lanes(s: Timeline, token: TokenView)
    requires
        lanes_all_kept(s),
        starts_afresh(s, token),
    ensures
        lanes_all_kept(step(s, token)),
{
    let after = step(s, token);
    match token {
        TokenView::Start { name } => {
            assert(after == s || after.pending.dom() =~= s.pending.dom().insert(name));
        },
        TokenView::Finish { name, duration } => {
            assert(after == s || after.pending.dom() =~= s.pending.dom().remove(name));
        },
        TokenView::Unrecognized => {},
    }
}

/// In a log that starts no running test again, no more lanes are made than
/// tests were running at once.
pub proof fn lemma_lanes_made_for_tests_at_once(tokens: Seq<TokenView>)
    requires
        never_restarts(tokens),
    ensures
        lanes_all_kept(replay(initial(), tokens)),
        replay(initial(), tokens).next_lane <= most_running(tokens),
    decreases tokens.len(),
{
    if tokens.len() > 0 {
        let before = replay(initial(), tokens.drop_last());
        lemma_lanes_made_for_tests_at_once(tokens.drop_last());
        lemma_step_keeps_all_lanes(before, tokens.last());
    }
}

/// Every record is on a lane below the largest number of tests that were
/// running at once, in a log that starts no running test again.
pub proof fn lemma_record_lanes_below_most_running(tokens: Seq<TokenView>, i: int)
    requires
        never_restarts(tokens),
        0 <= i < replay(initial(), tokens).traces.len(),
    ensures
        replay(initial(), tokens).traces[i].lane < most_running(tokens),
{
    lemma_lanes_made_for_tests_at_once(tokens);
    lemma_replay_keeps_records_on_made_lanes(tokens);
}


} // verus!
