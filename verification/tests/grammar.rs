use ctest_tracing::parser::{parse_test_finish, parse_test_start};
use ctest_tracing::scan::{chars_of, read_decimal, scan, CharClass};
use ctest_tracing::time::TimeSpan;

#[test]
fn three_point_three_two_seconds_is_3320_milliseconds() {
    let found = parse_test_finish("1/1 Test #1: t ...   Passed    3.32 sec").unwrap();
    assert_eq!((found.1).1, TimeSpan::from_millis(3320));
    assert_eq!((found.1).1.nanos, 3_320_000_000);
    assert_ne!((found.1).1, TimeSpan::from_millis(3319));
    assert_ne!((found.1).1, TimeSpan::from_millis(3321));
}

#[test]
fn every_hundredth_is_ten_milliseconds() {
    for centis in 0..100u64 {
        let line = format!("1/1 Test #1: t ...   Passed    7.{:02} sec", centis);
        let found = parse_test_finish(&line).unwrap();
        assert_eq!((found.1).1, TimeSpan::from_millis(7000 + centis * 10));
    }
}

#[test]
fn hundredths_are_two_digits_exactly() {
    assert_eq!(parse_test_finish("1/1 Test #1: t   10.5 sec"), None);
    assert_eq!(parse_test_finish("1/1 Test #1: t   10.0 sec"), None);
    assert_eq!(parse_test_finish("1/1 Test #1: t   0.123 sec"), None);
    assert_eq!(
        parse_test_finish("1/1 Test #1: t ... Passed 0.123 sec"),
        None
    );
    assert_eq!(parse_test_finish("1/1 Test #1: t   0.0000 sec"), None);
    assert_eq!(
        parse_test_finish("1/1 Test #1: t   10.50 sec"),
        Some(("", ("t".to_string(), TimeSpan::from_millis(10_500))))
    );
    assert_eq!(
        parse_test_finish("1/1 Test #1: t   0.12 sec"),
        Some(("", ("t".to_string(), TimeSpan::from_millis(120))))
    );
}

#[test]
fn start_line_may_begin_at_the_margin() {
    assert_eq!(
        parse_test_start("Start 1: at_margin"),
        Some(("", "at_margin".to_string()))
    );
    assert_eq!(
        parse_test_start("\t Start\t7:\tafter_tabs"),
        Some(("", "after_tabs".to_string()))
    );
}

#[test]
fn start_gives_the_rest_of_the_line() {
    assert_eq!(
        parse_test_start("  Start 3: name and more"),
        Some((" and more", "name".to_string()))
    );
    assert_eq!(
        parse_test_start("  Start 3: name\tand more"),
        Some(("\tand more", "name".to_string()))
    );
}

#[test]
fn start_rejects_other_lines() {
    assert_eq!(parse_test_start(""), None);
    assert_eq!(parse_test_start("   "), None);
    assert_eq!(parse_test_start("  Start"), None);
    assert_eq!(parse_test_start("  Star 1: t"), None);
    assert_eq!(parse_test_start("  start 1: t"), None);
    assert_eq!(parse_test_start("  Start1: t"), None);
    assert_eq!(parse_test_start("  Start : t"), None);
    assert_eq!(parse_test_start("  Start x: t"), None);
    assert_eq!(parse_test_start("  Start 1 : t"), None);
    assert_eq!(parse_test_start("  Start 1:t"), None);
    assert_eq!(parse_test_start("  Start 1: "), None);
    assert_eq!(parse_test_start("  Start 1:"), None);
    assert_eq!(parse_test_start("x Start 1: t"), None);
    assert_eq!(
        parse_test_start("1/1 Test #1: test_stuff ..............   Passed    0.74 sec"),
        None
    );
}

#[test]
fn finish_gives_the_rest_of_the_line() {
    assert_eq!(
        parse_test_finish("1/1 Test #1: t ...   Passed    0.74 seconds"),
        Some(("onds", ("t".to_string(), TimeSpan::from_millis(740))))
    );
    assert_eq!(
        parse_test_finish(": t 1.00\tsec # note"),
        Some((" # note", ("t".to_string(), TimeSpan::new(1, 0))))
    );
}

#[test]
fn finish_marker_is_not_read() {
    for marker in ["   Passed", "***Failed", "***Not Run", "***Timeout", "passed", ""] {
        let line = format!("2/9 Test #4: some_test ......{}    1.25 sec", marker);
        assert_eq!(
            parse_test_finish(&line),
            Some(("", ("some_test".to_string(), TimeSpan::from_millis(1250))))
        );
    }
}

#[test]
fn finish_name_may_hold_digits_and_colons() {
    assert_eq!(
        parse_test_finish("1/1 Test #1: Suite::case_42 ....   Passed    0.01 sec"),
        Some(("", ("Suite::case_42".to_string(), TimeSpan::from_millis(10))))
    );
}

#[test]
fn finish_rejects_other_lines() {
    assert_eq!(parse_test_finish(""), None);
    assert_eq!(parse_test_finish("no colon at all 0.20 sec"), None);
    assert_eq!(parse_test_finish("1/1 Test #1:t ... 0.20 sec"), None);
    assert_eq!(parse_test_finish("1/1 Test #1: "), None);
    assert_eq!(parse_test_finish("1/1 Test #1: t"), None);
    assert_eq!(parse_test_finish("1/1 Test #1: t ... Passed"), None);
    assert_eq!(parse_test_finish("1/1 Test #1: t ... Passed 20 sec"), None);
    assert_eq!(parse_test_finish("1/1 Test #1: t ... Passed 0. sec"), None);
    assert_eq!(parse_test_finish("1/1 Test #1: t ... Passed 0.20sec"), None);
    assert_eq!(parse_test_finish("1/1 Test #1: t ... Passed 0.20 s"), None);
    assert_eq!(parse_test_finish("1/1 Test #1: t ... Passed 0.20 Sec"), None);
    assert_eq!(parse_test_finish("1/1 Test #1: t ... Passed2 0.20 sec"), None);
    assert_eq!(parse_test_finish("    Start 1: start_of_a_test"), None);
}

#[test]
fn numbers_beyond_u64_are_no_match() {
    assert_eq!(
        parse_test_finish(": t 18446744073709551615.99 sec"),
        Some((
            "",
            (
                "t".to_string(),
                TimeSpan {
                    nanos: 18446744073709551615u128 * 1_000_000_000 + 990_000_000
                }
            )
        ))
    );
    assert_eq!(parse_test_finish(": t 18446744073709551616.00 sec"), None);
    assert_eq!(
        parse_test_finish(": t 99999999999999999999999999999999999999999.00 sec"),
        None
    );
    assert_eq!(
        parse_test_finish(": t 000000000000000000000000000001.02 sec"),
        Some(("", ("t".to_string(), TimeSpan::from_millis(1020))))
    );
}

#[test]
fn names_keep_what_is_not_ascii() {
    assert_eq!(
        parse_test_start("  Start 1: pr\u{fc}fung\u{1f600} rest"),
        Some((" rest", "pr\u{fc}fung\u{1f600}".to_string()))
    );
    assert_eq!(
        parse_test_finish("\u{e9}: pr\u{fc}fung \u{2026}\u{2026}   Passed   0.20 sec \u{2713}"),
        Some((" \u{2713}", ("pr\u{fc}fung".to_string(), TimeSpan::from_millis(200))))
    );
}

#[test]
fn only_ascii_digits_are_digits() {
    assert_eq!(parse_test_start("  Start \u{663}: t"), None);
    assert_eq!(
        parse_test_finish(": t \u{130}\u{663} 1.50 sec"),
        Some(("", ("t".to_string(), TimeSpan::from_millis(1500))))
    );
}

#[test]
fn scan_finds_the_end_of_a_run() {
    let chars = chars_of("  \tab12:");
    assert_eq!(chars.len(), 8);
    assert_eq!(scan(&chars, 0, CharClass::Blank), 3);
    assert_eq!(scan(&chars, 3, CharClass::Blank), 3);
    assert_eq!(scan(&chars, 3, CharClass::Word), 8);
    assert_eq!(scan(&chars, 0, CharClass::NonDigit), 5);
    assert_eq!(scan(&chars, 5, CharClass::Digit), 7);
    assert_eq!(scan(&chars, 0, CharClass::NonColon), 7);
    assert_eq!(scan(&chars, 7, CharClass::NonColon), 7);
    assert_eq!(scan(&chars, 8, CharClass::Word), 8);
}

#[test]
fn read_decimal_reads_digits() {
    let chars = chars_of("x007y18446744073709551615z18446744073709551616");
    assert_eq!(read_decimal(&chars, 1, 4), Some(7));
    assert_eq!(read_decimal(&chars, 1, 1), Some(0));
    assert_eq!(read_decimal(&chars, 5, 25), Some(u64::MAX));
    assert_eq!(read_decimal(&chars, 26, 46), None);
}

#[test]
fn time_spans_add_up() {
    assert_eq!(TimeSpan::new(3, 320_000_000), TimeSpan::from_millis(3320));
    assert_eq!(TimeSpan::new(1, 1_000_000_000), TimeSpan::new(2, 0));
    assert_eq!(TimeSpan::from_secs_and_centis(3, 32), TimeSpan::from_millis(3320));
    assert_eq!(TimeSpan::from_millis(1).as_micros(), 1000);
    assert_eq!(TimeSpan::new(0, 1_999).as_micros(), 1);
    assert_eq!(
        TimeSpan::from_millis(1).checked_add(TimeSpan::from_millis(2)),
        Some(TimeSpan::from_millis(3))
    );
    assert_eq!(
        TimeSpan { nanos: u128::MAX }.checked_add(TimeSpan { nanos: 1 }),
        None
    );
    assert_eq!(TimeSpan::zero().nanos, 0);
}
