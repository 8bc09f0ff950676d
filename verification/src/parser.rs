//! The two line grammars of a test runner's log.
//!
//! A line that announces a test looks like
//!
//! ```text
//!     Start 30: name_of_test
//! ```
//!
//! and a line that reports its end like one of
//!
//! ```text
//! 1/1 Test #1: test_stuff .......................***Failed    0.81 sec
//! 1/1 Test #1: test_stuff .......................   Passed    0.74 sec
//! 1/1 Test #1: test_stuff ......................***Not Run   0.00 sec
//! ```
//!
//! Both grammars are read from the left, each part taking the longest run of
//! characters it can; nothing is asked of what follows the last part.

use vstd::prelude::*;
use vstd::string::*;
use vstd::pervasive::unreached;
use crate::scan::{
    chars_of, decimal_u64, decimal_value, lemma_run_end, lemma_two_digits, read_decimal, run_end,
    scan, CharClass,
};
use crate::time::{TimeSpan, NANOS_PER_CENTI, NANOS_PER_MILLI, NANOS_PER_SEC};
use crate::reconstruct::Reconstructor;
use crate::timeline::{initial, lemma_lone_test, replay};
use crate::token::{line_token, line_tokens, LineToken, TokenView};
use crate::trace::{Trace, TraceView};

verus! {

/// The word that opens the announcement of a test.
pub open spec fn start_word() -> Seq<char> {
    seq!['S', 't', 'a', 'r', 't']
}

/// The unit that closes the report of a test's end.
pub open spec fn sec_word() -> Seq<char> {
    seq!['s', 'e', 'c']
}

/// Whether `word` stands in `s` at index `at`.
pub open spec fn word_at(s: Seq<char>, at: int, word: Seq<char>) -> bool {
    0 <= at && at + word.len() <= s.len() && s.subrange(at, at + word.len()) == word
}

/// What the start grammar finds in a line: the rest of the line behind the
/// test's name, and the name. The line holds, in this order: blanks, if any;
/// the word `Start`; blanks; digits (the test's number, which is not kept); a
/// colon; blanks; the name, which runs up to the next blank.
pub open spec fn start_line(s: Seq<char>) -> Option<(Seq<char>, Seq<char>)> {
    let word = run_end(s, 0, CharClass::Blank);
    let gap = word + 5;
    let number = run_end(s, gap, CharClass::Blank);
    let colon = run_end(s, number, CharClass::Digit);
    let name = run_end(s, colon + 1, CharClass::Blank);
    let rest = run_end(s, name, CharClass::Word);
    if word_at(s, word, start_word()) && gap < number && number < colon && colon < s.len()
        && s[colon] == ':' && colon + 1 < name && name < rest {
        Some((s.subrange(rest, s.len() as int), s.subrange(name, rest)))
    } else {
        None
    }
}

/// The length of time that a report of `secs` whole seconds and `centis`
/// hundredths of a second gives, in nanoseconds.
pub open spec fn reported_nanos(secs: nat, centis: nat) -> nat {
    secs * (NANOS_PER_SEC as nat) + centis * (NANOS_PER_CENTI as nat)
}

/// What the finish grammar finds in a line: the rest of the line behind the
/// unit, the test's name, and the time it took in nanoseconds. The line holds,
/// in this order: anything up to the first colon; that colon; blanks; the
/// name, which runs up to the next blank; anything up to the next digit; the
/// digits of the whole seconds; a period; the two digits of the hundredths,
/// no more and no fewer; blanks; the word `sec`. The whole seconds have to fit
/// a `u64`.
pub open spec fn finish_line(s: Seq<char>) -> Option<(Seq<char>, (Seq<char>, nat))> {
    let colon = run_end(s, 0, CharClass::NonColon);
    let name = run_end(s, colon + 1, CharClass::Blank);
    let filler = run_end(s, name, CharClass::Word);
    let secs = run_end(s, filler, CharClass::NonDigit);
    let period = run_end(s, secs, CharClass::Digit);
    let gap = run_end(s, period + 1, CharClass::Digit);
    let unit = run_end(s, gap, CharClass::Blank);
    if colon < s.len() && colon + 1 < name && name < filler && secs < period && period < s.len()
        && s[period] == '.' && gap == period + 3 && gap < unit && word_at(s, unit, sec_word()) {
        match decimal_u64(s.subrange(secs, period)) {
            Some(whole) => Some(
                (
                    s.subrange(unit + 3, s.len() as int),
                    (
                        s.subrange(name, filler),
                        reported_nanos(whole as nat, decimal_value(s.subrange(period + 1, gap))),
                    ),
                ),
            ),
            None => None,
        }
    } else {
        None
    }
}

/// Where the start grammar finds the test's name in a line.
fn find_start(chars: &Vec<char>) -> (found: Option<(usize, usize)>)
    ensures
        match found {
            Some((name, rest)) => name < rest <= chars.len() && start_line(chars@) == Some(
                (chars@.subrange(rest as int, chars.len() as int), chars@.subrange(name as int, rest as int)),
            ),
            None => start_line(chars@) is None,
        },
{
    let len: usize = chars.len();
    let word: usize = scan(chars, 0, CharClass::Blank);
    if len - word < 5 {
        return None;
    }
    if !(chars[word] == 'S' && chars[word + 1] == 't' && chars[word + 2] == 'a' && chars[word + 3]
        == 'r' && chars[word + 4] == 't') {
        assert(chars@.subrange(word as int, word + 5)[0] == chars@[word as int]);
        assert(chars@.subrange(word as int, word + 5)[1] == chars@[word + 1]);
        assert(chars@.subrange(word as int, word + 5)[2] == chars@[word + 2]);
        assert(chars@.subrange(word as int, word + 5)[3] == chars@[word + 3]);
        assert(chars@.subrange(word as int, word + 5)[4] == chars@[word + 4]);
        return None;
    }
    assert(chars@.subrange(word as int, word + 5) =~= start_word());
    let gap: usize = word + 5;
    let number: usize = scan(chars, gap, CharClass::Blank);
    if number == gap {
        return None;
    }
    let colon: usize = scan(chars, number, CharClass::Digit);
    if colon == number || colon >= len || chars[colon] != ':' {
        return None;
    }
    let name: usize = scan(chars, colon + 1, CharClass::Blank);
    if name == colon + 1 {
        return None;
    }
    let rest: usize = scan(chars, name, CharClass::Word);
    if rest == name {
        return None;
    }
    Some((name, rest))
}

/// Reads a line that announces a test. Gives the name of the test, and before
/// it the rest of the line behind the name; `None` for any other line.
pub fn parse_test_start<'a>(line: &'a str) -> (found: Option<(&'a str, String)>)
    ensures
        match found {
            Some((rest, name)) => start_line(line@) == Some((rest@, name@)),
            None => start_line(line@) is None,
        },
{
    let chars = chars_of(line);
    match find_start(&chars) {
        Some((name, rest)) => {
            let test_name = line.substring_char(name, rest).to_owned();
            Some((line.substring_char(rest, chars.len()), test_name))
        },
        None => None,
    }
}

/// Where the finish grammar finds the test's name in a line, the time that
/// the line reports, and where the rest of the line begins.
fn find_finish(chars: &Vec<char>) -> (found: Option<(usize, usize, TimeSpan, usize)>)
    ensures
        match found {
            Some((name, filler, duration, rest)) => name < filler <= rest <= chars.len()
                && finish_line(chars@) == Some(
                (
                    chars@.subrange(rest as int, chars.len() as int),
                    (chars@.subrange(name as int, filler as int), duration@),
                ),
            ),
            None => finish_line(chars@) is None,
        },
{
    let len: usize = chars.len();
    let colon: usize = scan(chars, 0, CharClass::NonColon);
    if colon >= len {
        return None;
    }
    let name: usize = scan(chars, colon + 1, CharClass::Blank);
    if name == colon + 1 {
        return None;
    }
    let filler: usize = scan(chars, name, CharClass::Word);
    if filler == name {
        return None;
    }
    let secs: usize = scan(chars, filler, CharClass::NonDigit);
    let period: usize = scan(chars, secs, CharClass::Digit);
    if period == secs || period >= len || chars[period] != '.' {
        return None;
    }
    let gap: usize = scan(chars, period + 1, CharClass::Digit);
    if gap - period != 3 {
        return None;
    }
    let unit: usize = scan(chars, gap, CharClass::Blank);
    if unit == gap || len - unit < 3 {
        return None;
    }
    if !(chars[unit] == 's' && chars[unit + 1] == 'e' && chars[unit + 2] == 'c') {
        assert(chars@.subrange(unit as int, unit + 3)[0] == chars@[unit as int]);
        assert(chars@.subrange(unit as int, unit + 3)[1] == chars@[unit + 1]);
        assert(chars@.subrange(unit as int, unit + 3)[2] == chars@[unit + 2]);
        return None;
    }
    assert(chars@.subrange(unit as int, unit + 3) =~= sec_word());
    proof {
        lemma_run_end(chars@, secs as int, CharClass::Digit);
        lemma_run_end(chars@, period + 1, CharClass::Digit);
    }
    let whole: u64 = match read_decimal(chars, secs, period) {
        Some(whole) => whole,
        None => {
            return None;
        },
    };
    proof {
        lemma_two_digits(chars@.subrange(period + 1, gap as int));
    }
    let centis: u64 = match read_decimal(chars, period + 1, gap) {
        Some(centis) => centis,
        None => unreached(),
    };
    Some((name, filler, TimeSpan::from_secs_and_centis(whole, centis), unit + 3))
}

/// Reads a line that reports the end of a test. Gives the name of the test
/// and the time it took, and before them the rest of the line behind the
/// unit; `None` for any other line. The time is the whole seconds plus ten
/// milliseconds for each hundredth behind the period, so `3.32 sec` is 3320
/// milliseconds exactly. A line with one digit behind the period, or with
/// three, is no report.
pub fn parse_test_finish<'a>(line: &'a str) -> (found: Option<(&'a str, (String, TimeSpan))>)
    ensures
        match found {
            Some((rest, (name, duration))) => finish_line(line@) == Some(
                (rest@, (name@, duration@)),
            ),
            None => finish_line(line@) is None,
        },
{
    let chars = chars_of(line);
    match find_finish(&chars) {
        Some((name, filler, duration, rest)) => {
            let test_name = line.substring_char(name, filler).to_owned();
            Some((line.substring_char(rest, chars.len()), (test_name, duration)))
        },
        None => None,
    }
}


/// Reads a line of the log: an announcement of a test, the report of a test's
/// end, or neither.
pub fn classify(line: &str) -> (token: LineToken)
    ensures
        token@ == line_token(line@),
{
    let chars = chars_of(line);
    match find_start(&chars) {
        Some((name, rest)) => {
            return LineToken::Start { test_name: line.substring_char(name, rest).to_owned() };
        },
        None => {},
    }
    match find_finish(&chars) {
        Some((name, filler, duration, _)) => LineToken::Finish {
            test_name: line.substring_char(name, filler).to_owned(),
            duration,
        },
        None => LineToken::Unrecognized,
    }
}


/// Reconstructs the tests of a log from its lines: for every test that
/// started and then finished, what it was called, when it started, how long it
/// took and on which lane it ran. The records come in the order in which the
/// tests finished. Lines of neither shape are passed over, and so are the
/// tests that never finished and the reports of tests that never started.
pub fn parse(lines: &[String]) -> (traces: Vec<Trace>)
    ensures
        traces.deep_view() == replay(initial(), line_tokens(lines.deep_view())).traces,
{
    let ghost tokens = line_tokens(lines.deep_view());
    let mut run = Reconstructor::new();
    let mut at: usize = 0;
    while at < lines.len()
        invariant
            at <= lines.len(),
            run.wf(),
            tokens == line_tokens(lines.deep_view()),
            run@ == replay(initial(), tokens.take(at as int)),
        decreases lines.len() - at,
    {
        proof {
            assert(tokens.take(at + 1).drop_last() =~= tokens.take(at as int));
            assert(tokens.take(at + 1).last() == line_token(lines@[at as int]@));
        }
        run.feed_line(lines[at].as_str());
        at = at + 1;
    }
    assert(tokens.take(at as int) =~= tokens);
    run.into_traces()
}


/// The time that a line reports is exact in milliseconds: a thousand for each
/// whole second and ten for each hundredth, with nothing lost or added.
pub proof fn lemma_reported_time_in_millis(secs: nat, centis: nat)
    ensures
        reported_nanos(secs, centis) == (secs * 1000 + centis * 10) * (NANOS_PER_MILLI as nat),
        reported_nanos(secs, centis) % (NANOS_PER_CENTI as nat) == 0,
{
    assert(reported_nanos(secs, centis) == (secs * 100 + centis) * 10_000_000);
}

/// A test alone, from its two lines: where the first line announces the test
/// `name` and the second reports that it ended after `duration`, the log of
/// the two gives one record, which has the name of the test, starts at the
/// beginning of the run on lane 0, and lasts exactly what the second line
/// reports.
pub proof fn lemma_lone_test_from_lines(
    first: Seq<char>,
    second: Seq<char>,
    name: Seq<char>,
    duration: nat,
)
    requires
        line_token(first) == (TokenView::Start { name }),
        line_token(second) == (TokenView::Finish { name, duration }),
    ensures
        replay(initial(), line_tokens(seq![first, second])).traces == seq![
            TraceView { name, start: 0, duration, lane: 0 },
        ],
{
    lemma_finish_time_fits(second);
    lemma_lone_test(name, duration);
    assert(line_tokens(seq![first, second]) =~= seq![
        TokenView::Start { name },
        TokenView::Finish { name, duration },
    ]);
}

/// The time that a finish line reports can be held in a `TimeSpan`.
pub proof fn lemma_finish_time_fits(s: Seq<char>)
    ensures
        finish_line(s) matches Some((_, (_, nanos))) ==> nanos <= u128::MAX,
{
    if finish_line(s) is Some {
        let colon = run_end(s, 0, CharClass::NonColon);
        let name = run_end(s, colon + 1, CharClass::Blank);
        let filler = run_end(s, name, CharClass::Word);
        let secs = run_end(s, filler, CharClass::NonDigit);
        let period = run_end(s, secs, CharClass::Digit);
        lemma_two_digits(s.subrange(period + 1, period + 3));
    }
}


} // verus!
