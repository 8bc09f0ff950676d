use ctest_tracing::json::{decimal, event_json, to_json};
use ctest_tracing::parser::parse;
use ctest_tracing::time::TimeSpan;
use ctest_tracing::trace::Trace;

fn lines_in(text: &str) -> Vec<String> {
    text.lines().map(|line| line.to_string()).collect()
}

#[test]
fn test_serialize_first_test() {
    let trace = Trace {
        name: "foo".to_string(),
        start: TimeSpan::from_millis(0),
        duration: TimeSpan::from_millis(300),
        thread_number: 2,
    };

    assert_eq!(
        trace.serialize(),
        "{\"name\":\"foo\",\"cat\":\"test\",\"ph\":\"X\",\"ts\":0,\"dur\":300000,\"pid\":0,\"tid\":2}"
    );
}

#[test]
fn reading_from_tempfile() {
    let ctest_output = r#"
                Start  1: test_one
            1/1 Test #1: test_one ......................   Passed   0.20 sec
            "#;
    let expected = "[{\"name\":\"test_one\",\"cat\":\"test\",\"ph\":\"X\",\"ts\":0,\"dur\":200000,\"pid\":0,\"tid\":0}]";
    assert_eq!(to_json(&parse(&lines_in(ctest_output))), expected);
}

#[test]
fn reading_from_tempfile_multiple_tests() {
    let ctest_output = r#"
                Start  1: test_one
            1/2 Test #1: test_one ......................   Passed   0.20 sec
                Start  2: test_two
            2/2 Test #2: test_two ......................   Passed   0.30 sec
            "#;
    let expected = "[{\"name\":\"test_one\",\"cat\":\"test\",\"ph\":\"X\",\"ts\":0,\"dur\":200000,\"pid\":0,\"tid\":0},{\"name\":\"test_two\",\"cat\":\"test\",\"ph\":\"X\",\"ts\":200000,\"dur\":300000,\"pid\":0,\"tid\":0}]";
    assert_eq!(to_json(&parse(&lines_in(ctest_output))), expected);
}

#[test]
fn single_pair_gives_one_event() {
    let lines = lines_in(
        "    Start 1: a_test\n1/1 Test #1: a_test ......................   Passed   0.20 sec",
    );
    let traces = parse(&lines);
    assert_eq!(
        traces,
        vec![Trace {
            name: "a_test".to_string(),
            start: TimeSpan::from_millis(0),
            duration: TimeSpan::from_millis(200),
            thread_number: 0,
        }]
    );
    assert_eq!(
        to_json(&traces),
        "[{\"name\":\"a_test\",\"cat\":\"test\",\"ph\":\"X\",\"ts\":0,\"dur\":200000,\"pid\":0,\"tid\":0}]"
    );
}

#[test]
fn no_records_give_an_empty_array() {
    assert_eq!(to_json(&[]), "[]");
    assert_eq!(to_json(&parse(&[])), "[]");
    let only_noise = lines_in("[ 50%] Building CXX object a.o\n\nLinking");
    assert_eq!(to_json(&parse(&only_noise)), "[]");
}

#[test]
fn writing_twice_gives_the_same_text() {
    let traces = vec![
        Trace {
            name: "one".to_string(),
            start: TimeSpan::from_millis(0),
            duration: TimeSpan::from_millis(10),
            thread_number: 0,
        },
        Trace {
            name: "two \"quoted\"".to_string(),
            start: TimeSpan::from_millis(10),
            duration: TimeSpan::new(3, 320_000_000),
            thread_number: 7,
        },
    ];
    let first = to_json(&traces);
    let second = to_json(&traces);
    assert_eq!(first, second);
    assert_eq!(to_json(&traces.clone()), first);
}

#[test]
fn names_are_written_as_json_strings() {
    let trace = Trace {
        name: "a\"b\\c\td".to_string(),
        start: TimeSpan::zero(),
        duration: TimeSpan::zero(),
        thread_number: 0,
    };
    assert_eq!(
        trace.serialize(),
        "{\"name\":\"a\\\"b\\\\c\\td\",\"cat\":\"test\",\"ph\":\"X\",\"ts\":0,\"dur\":0,\"pid\":0,\"tid\":0}"
    );
    let parsed: serde_json::Value = serde_json::from_str(&trace.serialize()).unwrap();
    assert_eq!(parsed["name"].as_str(), Some("a\"b\\c\td"));
}

#[test]
fn every_escape_is_written() {
    let trace = Trace {
        name: "\u{0}\u{1}\u{8}\t\n\u{b}\u{c}\r\u{1a}\u{1f} !\"#/\\\u{7f}\u{80}\u{e9}\u{2028}".to_string(),
        start: TimeSpan::zero(),
        duration: TimeSpan::zero(),
        thread_number: 0,
    };
    let expected_name = "\"\\u0000\\u0001\\b\\t\\n\\u000b\\f\\r\\u001a\\u001f !\\\"#/\\\\\u{7f}\u{80}\u{e9}\u{2028}\"";
    assert_eq!(
        trace.serialize(),
        format!(
            "{{\"name\":{},\"cat\":\"test\",\"ph\":\"X\",\"ts\":0,\"dur\":0,\"pid\":0,\"tid\":0}}",
            expected_name
        )
    );
    let parsed: serde_json::Value = serde_json::from_str(&trace.serialize()).unwrap();
    assert_eq!(parsed["name"].as_str(), Some(trace.name.as_str()));
}

#[test]
fn output_is_json_that_reads_back() {
    let traces = vec![Trace {
        name: "caf\u{e9} \u{1f600}".to_string(),
        start: TimeSpan::from_millis(1500),
        duration: TimeSpan::from_millis(20),
        thread_number: 3,
    }];
    let text = to_json(&traces);
    let parsed: serde_json::Value = serde_json::from_str(&text).unwrap();
    let events = parsed.as_array().unwrap();
    assert_eq!(events.len(), 1);
    let event = events[0].as_object().unwrap();
    assert_eq!(event.len(), 7);
    assert_eq!(event["name"].as_str(), Some("caf\u{e9} \u{1f600}"));
    assert_eq!(event["cat"].as_str(), Some("test"));
    assert_eq!(event["ph"].as_str(), Some("X"));
    assert_eq!(event["ts"].as_u64(), Some(1_500_000));
    assert_eq!(event["dur"].as_u64(), Some(20_000));
    assert_eq!(event["pid"].as_u64(), Some(0));
    assert_eq!(event["tid"].as_u64(), Some(3));
}

#[test]
fn event_takes_the_name_as_it_is_given() {
    let trace = Trace {
        name: "ignored".to_string(),
        start: TimeSpan::new(1, 0),
        duration: TimeSpan::new(0, 1_999),
        thread_number: 4_294_967_295,
    };
    assert_eq!(
        event_json("\"x\"", &trace),
        "{\"name\":\"x\",\"cat\":\"test\",\"ph\":\"X\",\"ts\":1000000,\"dur\":1,\"pid\":0,\"tid\":4294967295}"
    );
}

#[test]
fn microseconds_are_cut_off_not_rounded() {
    let trace = Trace {
        name: "t".to_string(),
        start: TimeSpan::new(0, 999),
        duration: TimeSpan::new(0, 1_000),
        thread_number: 0,
    };
    assert_eq!(
        event_json("\"t\"", &trace),
        "{\"name\":\"t\",\"cat\":\"test\",\"ph\":\"X\",\"ts\":0,\"dur\":1,\"pid\":0,\"tid\":0}"
    );
}

#[test]
fn decimal_writes_plain_digits() {
    assert_eq!(decimal(0), "0");
    assert_eq!(decimal(7), "7");
    assert_eq!(decimal(10), "10");
    assert_eq!(decimal(1_234_567_890), "1234567890");
    assert_eq!(decimal(u64::MAX as u128), "18446744073709551615");
    assert_eq!(
        decimal(u128::MAX),
        "340282366920938463463374607431768211455"
    );
}

#[test]
fn long_times_are_written_in_full() {
    let trace = Trace {
        name: "t".to_string(),
        start: TimeSpan::new(u64::MAX, 0),
        duration: TimeSpan::zero(),
        thread_number: 0,
    };
    assert_eq!(
        event_json("\"t\"", &trace),
        "{\"name\":\"t\",\"cat\":\"test\",\"ph\":\"X\",\"ts\":18446744073709551615000000,\"dur\":0,\"pid\":0,\"tid\":0}"
    );
}
