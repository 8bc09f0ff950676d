//! Trace events as JSON text.
//!
//! Each finished test becomes one "complete" event of the trace event format:
//! an object of seven members in a fixed order,
//!
//! ```text
//! {"name":"a_test","cat":"test","ph":"X","ts":0,"dur":200000,"pid":0,"tid":0}
//! ```
//!
//! where `ts` and `dur` are the start and the duration in whole microseconds
//! and `tid` is the lane. A run is the array of its events, in the order in
//! which the tests finished, with no space anywhere between the members.

use vstd::prelude::*;
use vstd::pervasive::unreached;
use vstd::string::*;
use crate::scan::{decimal_value, is_digit};
use crate::time::NANOS_PER_MICRO;
use crate::trace::{Trace, TraceView};

verus! {

/// The character for the digit `d`.
pub open spec fn digit_char(d: nat) -> char {
    if d == 0 {
        '0'
    } else if d == 1 {
        '1'
    } else if d == 2 {
        '2'
    } else if d == 3 {
        '3'
    } else if d == 4 {
        '4'
    } else if d == 5 {
        '5'
    } else if d == 6 {
        '6'
    } else if d == 7 {
        '7'
    } else if d == 8 {
        '8'
    } else {
        '9'
    }
}

/// The decimal digits of `n`, without leading zeros; `0` is the one digit
/// `0`.
pub open spec fn decimal_text(n: nat) -> Seq<char>
    decreases n,
{
    if n < 10 {
        seq![digit_char(n)]
    } else {
        decimal_text(n / 10).push(digit_char(n % 10))
    }
}

/// The digit `d` as text.
fn digit_str(d: u8) -> (text: &'static str)
    requires
        d < 10,
    ensures
        text@ == seq![digit_char(d as nat)],
{
    proof {
        reveal_strlit("0");
        reveal_strlit("1");
        reveal_strlit("2");
        reveal_strlit("3");
        reveal_strlit("4");
        reveal_strlit("5");
        reveal_strlit("6");
        reveal_strlit("7");
        reveal_strlit("8");
        reveal_strlit("9");
    }
    let text = match d {
        0 => "0",
        1 => "1",
        2 => "2",
        3 => "3",
        4 => "4",
        5 => "5",
        6 => "6",
        7 => "7",
        8 => "8",
        _ => "9",
    };
    assert(text@ =~= seq![digit_char(d as nat)]);
    text
}

/// Writes `n` in decimal digits.
pub fn decimal(n: u128) -> (text: String)
    ensures
        text@ == decimal_text(n as nat),
    decreases n,
{
    if n < 10 {
        digit_str(n as u8).to_owned()
    } else {
        let mut text = decimal(n / 10);
        text.append(digit_str((n % 10) as u8));
        assert(text@ =~= decimal_text(n as nat));
        text
    }
}

/// One hexadecimal digit, in lower case.
pub open spec fn hex_char(d: nat) -> char {
    if d < 10 {
        digit_char(d)
    } else if d == 10 {
        'a'
    } else if d == 11 {
        'b'
    } else if d == 12 {
        'c'
    } else if d == 13 {
        'd'
    } else if d == 14 {
        'e'
    } else {
        'f'
    }
}

/// How one character stands inside a JSON string: the quote and the
/// backslash behind a backslash; of the characters below the space, five by
/// their letters and the others by their number in four hexadecimal digits;
/// every other character as itself.
pub open spec fn escaped_char(c: char) -> Seq<char> {
    if c == '"' {
        seq!['\\', '"']
    } else if c == '\\' {
        seq!['\\', '\\']
    } else if c == '\u{8}' {
        seq!['\\', 'b']
    } else if c == '\t' {
        seq!['\\', 't']
    } else if c == '\n' {
        seq!['\\', 'n']
    } else if c == '\u{c}' {
        seq!['\\', 'f']
    } else if c == '\r' {
        seq!['\\', 'r']
    } else if ' ' > c {
        seq!['\\', 'u', '0', '0'].push(hex_char(c as nat / 16)).push(hex_char(c as nat % 16))
    } else {
        seq![c]
    }
}

/// The characters of `s` as they stand inside a JSON string.
pub open spec fn escaped_text(s: Seq<char>) -> Seq<char>
    decreases s.len(),
{
    if s.len() == 0 {
        Seq::empty()
    } else {
        escaped_text(s.drop_last()) + escaped_char(s.last())
    }
}

/// The JSON string of `s`: its characters, escaped where they have to be,
/// between two quotes.
pub open spec fn json_string_text(s: Seq<char>) -> Seq<char> {
    seq!['"'] + escaped_text(s) + seq!['"']
}

/// The error of `serde_json`: verified code meets it in the type of the call
/// below, and never holds one.
#[verifier::external_type_specification]
#[verifier::external_body]
pub struct ExJsonError(serde_json::Error);

/// Calls `serde_json::to_string` on a string slice. What is claimed: the call
/// gives a text, and the text is the JSON string of the slice. The call can
/// fail only where writing fails, and it writes to memory; what it writes is
/// a quote, each character as itself or by the escape that its table of
/// escapes gives, and a quote.
#[verifier::external_body]
fn json_string(s: &str) -> (written: Result<String, serde_json::Error>)
    ensures
        written is Ok,
        written matches Ok(text) ==> text@ == json_string_text(s@),
{
    serde_json::to_string(s)
}

/// The event of one finished test, given the JSON string of its name.
pub open spec fn event_text(name_text: Seq<char>, trace: TraceView) -> Seq<char> {
    "{\"name\":"@ + name_text + ",\"cat\":\"test\",\"ph\":\"X\",\"ts\":"@ + decimal_text(
        trace.start / (NANOS_PER_MICRO as nat),
    ) + ",\"dur\":"@ + decimal_text(trace.duration / (NANOS_PER_MICRO as nat))
        + ",\"pid\":0,\"tid\":"@ + decimal_text(trace.lane as nat) + "}"@
}

/// The event of one finished test.
pub open spec fn trace_text(trace: TraceView) -> Seq<char> {
    event_text(json_string_text(trace.name), trace)
}

/// The events of the first `count` of `traces`, with a comma between each
/// two.
pub open spec fn events_text(traces: Seq<TraceView>, count: nat) -> Seq<char>
    decreases count,
{
    if count == 0 {
        Seq::empty()
    } else if count == 1 {
        trace_text(traces[0])
    } else {
        events_text(traces, (count - 1) as nat) + ","@ + trace_text(traces[count - 1])
    }
}

/// The array of the events of `traces`.
pub open spec fn traces_text(traces: Seq<TraceView>) -> Seq<char> {
    "["@ + events_text(traces, traces.len()) + "]"@
}

/// Writes the event of one finished test, given the JSON string of its name:
/// the seven members in their order, both times cut down to whole
/// microseconds.
pub fn event_json(name_text: &str, trace: &Trace) -> (text: String)
    ensures
        text@ == event_text(name_text@, trace@),
{
    let mut text = "{\"name\":".to_owned();
    text.append(name_text);
    text.append(",\"cat\":\"test\",\"ph\":\"X\",\"ts\":");
    text.append(decimal(trace.start.as_micros()).as_str());
    text.append(",\"dur\":");
    text.append(decimal(trace.duration.as_micros()).as_str());
    text.append(",\"pid\":0,\"tid\":");
    text.append(decimal(trace.thread_number as u128).as_str());
    text.append("}");
    text
}

impl Trace {
    /// Writes the event of the test.
    pub fn serialize(&self) -> (text: String)
        ensures
            text@ == trace_text(self@),
    {
        let name_text = match json_string(self.name.as_str()) {
            Ok(name_text) => name_text,
            Err(_) => unreached(),
        };
        event_json(name_text.as_str(), self)
    }
}

/// Writes the array of the events of `traces`, in their order. The text is a
/// function of the records alone: writing the same records again gives the
/// same text.
pub fn to_json(traces: &[Trace]) -> (text: String)
    ensures
        text@ == traces_text(traces.deep_view()),
{
    let ghost views = traces.deep_view();
    let mut text = "[".to_owned();
    let mut at: usize = 0;
    while at < traces.len()
        invariant
            at <= traces.len(),
            views == traces.deep_view(),
            text@ == "["@ + events_text(views, at as nat),
        decreases traces.len() - at,
    {
        let event = traces[at].serialize();
        if at > 0 {
            text.append(",");
        }
        text.append(event.as_str());
        assert(views[at as int] == traces@[at as int]@);
        assert(text@ =~= "["@ + events_text(views, (at + 1) as nat));
        at = at + 1;
    }
    text.append("]");
    text
}

/// A name that holds no quote, no backslash and nothing below the space is
/// written as it is, between two quotes.
pub proof fn lemma_plain_name_is_quoted(name: Seq<char>)
    requires
        forall|i: int|
            0 <= i < name.len() ==> (#[trigger] name[i]) != '"' && name[i] != '\\' && name[i]
                >= ' ',
    ensures
        json_string_text(name) == seq!['"'] + name + seq!['"'],
{
    lemma_plain_text_is_kept(name);
}

/// Text that holds no quote, no backslash and nothing below the space needs
/// no escape.
pub proof fn lemma_plain_text_is_kept(s: Seq<char>)
    requires
        forall|i: int| 0 <= i < s.len() ==> (#[trigger] s[i]) != '"' && s[i] != '\\' && s[i] >= ' ',
    ensures
        escaped_text(s) == s,
    decreases s.len(),
{
    if s.len() > 0 {
        lemma_plain_text_is_kept(s.drop_last());
        assert(escaped_char(s.last()) =~= seq![s.last()]);
        assert(s.drop_last() + seq![s.last()] =~= s);
    }
}

/// The digits that are written for a number stand for that number when they
/// are read.
pub proof fn lemma_decimal_reads_back(n: nat)
    ensures
        decimal_value(decimal_text(n)) == n,
        forall|i: int| 0 <= i < decimal_text(n).len() ==> is_digit(#[trigger] decimal_text(n)[i]),
    decreases n,
{
    if n < 10 {
        assert(decimal_text(n).drop_last() =~= Seq::<char>::empty());
        assert(decimal_value(decimal_text(n).drop_last()) == 0);
    } else {
        lemma_decimal_reads_back(n / 10);
        assert(decimal_text(n).drop_last() =~= decimal_text(n / 10));
    }
}


/// One test `a_test` that starts at the beginning of the run on lane 0 and
/// takes a fifth of a second is written as the array of one event.
pub proof fn lemma_single_event_text()
    ensures
        traces_text(
            seq![TraceView { name: "a_test"@, start: 0, duration: 200_000_000, lane: 0 }],
        )
            == "[{\"name\":\"a_test\",\"cat\":\"test\",\"ph\":\"X\",\"ts\":0,\"dur\":200000,\"pid\":0,\"tid\":0}]"@,
{
    let trace = TraceView { name: "a_test"@, start: 0, duration: 200_000_000, lane: 0 };
    reveal_strlit("a_test");
    reveal_strlit("[");
    reveal_strlit("]");
    reveal_strlit("}");
    reveal_strlit("{\"name\":");
    reveal_strlit(",\"cat\":\"test\",\"ph\":\"X\",\"ts\":");
    reveal_strlit(",\"dur\":");
    reveal_strlit(",\"pid\":0,\"tid\":");
    reveal_strlit(
        "[{\"name\":\"a_test\",\"cat\":\"test\",\"ph\":\"X\",\"ts\":0,\"dur\":200000,\"pid\":0,\"tid\":0}]",
    );
    lemma_plain_name_is_quoted("a_test"@);
    assert(decimal_text(0) =~= seq!['0']);
    assert(decimal_text(200000) =~= seq!['2', '0', '0', '0', '0', '0']) by {
        reveal_with_fuel(decimal_text, 7);
    }
    assert(200_000_000nat / (NANOS_PER_MICRO as nat) == 200000);
    assert(0nat / (NANOS_PER_MICRO as nat) == 0);
    assert(events_text(seq![trace], 1) == trace_text(trace));
    assert(traces_text(seq![trace])
        =~= "[{\"name\":\"a_test\",\"cat\":\"test\",\"ph\":\"X\",\"ts\":0,\"dur\":200000,\"pid\":0,\"tid\":0}]"@);
}


} // verus!
