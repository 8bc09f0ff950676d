use ctest_tracing::parser::{parse_test_finish, parse_test_start};
use ctest_tracing::time::TimeSpan;
use nom::bytes::complete::{tag, take_till, take_while1, take_while_m_n};
use nom::character::complete::{char, digit1, space1};
use nom::sequence::tuple;
use nom::IResult;

// The two grammars written down with parser combinators, to hold the
// library's own reading of a line against.

fn start_by_combinators(i: &str) -> IResult<&str, String> {
    let (input, (_, _, _, _, _, _, test_name)) = tuple((
        space1,
        tag("Start"),
        space1,
        digit1,
        char(':'),
        space1,
        take_while1(|c| c != ' ' && c != '\t'),
    ))(i)?;
    Ok((input, test_name.to_string()))
}

fn finish_by_combinators(i: &str) -> IResult<&str, (String, TimeSpan)> {
    let (input, (_, _, _, test_name, _, seconds_str, _, centis_str, _, _)) = tuple((
        take_till(|c| c == ':'),
        char(':'),
        space1,
        take_while1(|c| c != ' ' && c != '\t'),
        take_till(|c: char| c.is_ascii_digit()),
        digit1,
        char('.'),
        take_while_m_n(2, 2, |c: char| c.is_ascii_digit()),
        space1,
        tag("sec"),
    ))(i)?;
    let seconds: u64 = seconds_str.parse().unwrap();
    let centis: u64 = centis_str.parse().unwrap();
    Ok((
        input,
        (
            test_name.to_string(),
            TimeSpan::from_secs_and_centis(seconds, centis),
        ),
    ))
}

fn sample_lines() -> Vec<String> {
    let mut lines: Vec<String> = vec![
        "".to_string(),
        "   ".to_string(),
        "    Start 1: start_of_a_test".to_string(),
        " Start 30: a_different_test".to_string(),
        "\tStart\t30:\ta_different_test\ttrailing".to_string(),
        "  Start 30 : x".to_string(),
        "  Start 30:x".to_string(),
        "  Start: x".to_string(),
        "  Starting 30: x".to_string(),
        "  Start 3a: x".to_string(),
        "  Start 30: x y z".to_string(),
        "1/1 Test #1: test_stuff .......................***Failed    0.81 sec".to_string(),
        "10/120 Test #20: test_me .......................   passed    3.32 sec".to_string(),
        "1/1 Test #1: test_stuff ......................***Not Run   0.00 sec".to_string(),
        "2/4 Test #2: test_two ......................   Passed   10.0 sec".to_string(),
        "2/4 Test #2: test_2 ......................   Passed   10.05 sec and more".to_string(),
        "2/4 Test #2: test_two ........ Passed5   10.05 sec".to_string(),
        "2/4 Test #2: test_two ........ Passed   10,05 sec".to_string(),
        "2/4 Test #2: test_two ........ Passed   10.05sec".to_string(),
        "2/4 Test #2: test_two ........ Passed   10.05 se".to_string(),
        "2/4 Test #2:test_two ........ Passed   10.05 sec".to_string(),
        ": a 0.0 sec".to_string(),
        ":: a 0.0 sec".to_string(),
        "a: b: c 1.1 sec".to_string(),
        "Test project /home/user/build".to_string(),
        "100% tests passed, 0 tests failed out of 2".to_string(),
        "Total Test time (real) =   0.41 sec".to_string(),
        "[ 12%] Building CXX object src/CMakeFiles/lib.dir/a.cpp.o".to_string(),
        "note: in 0.5 sec the build: done 1.5 sec".to_string(),
    ];
    let names = ["t", "unit.core", "Suite::case_7", "a-b_c", "x1y2", "9"];
    let markers = ["   Passed", "***Failed", "***Not Run", "***Exception: SegFault", ""];
    let times = [
        "0.00", "0.01", "3.32", "59.99", "120.50", "120.5", "0.123", "7", "1.", ".5", "1.2.3",
    ];
    for name in names {
        lines.push(format!("      Start  4: {}", name));
        for marker in markers {
            for time in times {
                lines.push(format!(" 4/15 Test  #4: {} ........{}   {} sec", name, marker, time));
            }
        }
    }
    lines
}

#[test]
fn start_grammar_agrees_with_combinators() {
    let mut matched: usize = 0;
    for line in sample_lines() {
        // A line that begins with the word itself is read as a start too;
        // the combinators ask for a blank before it.
        if line.starts_with("Start") {
            continue;
        }
        let expected = start_by_combinators(&line).ok();
        if expected.is_some() {
            matched += 1;
        }
        assert_eq!(parse_test_start(&line), expected, "line: {:?}", line);
    }
    assert!(matched >= 8);
}

#[test]
fn finish_grammar_agrees_with_combinators() {
    let mut matched: usize = 0;
    for line in sample_lines() {
        let expected = finish_by_combinators(&line).ok();
        if expected.is_some() {
            matched += 1;
        }
        assert_eq!(parse_test_finish(&line), expected, "line: {:?}", line);
    }
    assert!(matched >= 100);
}
