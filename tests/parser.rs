use tap_reporter::formatters::{DotFormatter, NullFormatter, SpecFormatter, TestFormat};
use tap_reporter::classify::is_header;
use tap_reporter::parser::TapParser;

const TAP_HEADER: &str = "TAP version 13";

#[test]
fn test_a_valid_header_line() {
    assert!(TapParser::new(TAP_HEADER, NullFormatter).tests().is_empty());
}

#[test]
fn test_a_single_passing_test() {
    let mut parser = TapParser::new(TAP_HEADER, NullFormatter);
    parser.line("# the happy path");
    parser.line("ok 1 should be equal");

    assert_eq!(parser.tests().len(), 1);
    let test = parser.tests().last().unwrap().build();
    assert_eq!(test.name(), "the happy path");
    let assertion = &test.assertions()[0];
    assert_eq!(assertion.message(), "should be equal");
    assert_eq!(assertion.pass(), true);
}

#[test]
fn test_a_test_with_multiple_assertions() {
    let mut parser = TapParser::new(TAP_HEADER, NullFormatter);
    parser.line("# the happy path");
    parser.line("ok 1 should be equal");
    parser.line("not ok 2 should work");

    assert_eq!(parser.tests().len(), 1);
    let test = parser.tests().last().unwrap().build();
    assert_eq!(test.name(), "the happy path");
    assert_eq!(test.assertions().len(), 2);

    let assertion = &test.assertions()[0];
    assert_eq!(assertion.message(), "should be equal");
    assert_eq!(assertion.pass(), true);

    let assertion = &test.assertions()[1];
    assert_eq!(assertion.message(), "should work");
    assert_eq!(assertion.pass(), false);
}

#[test]
fn test_a_single_failing_test() {
    let mut parser = TapParser::new(TAP_HEADER, NullFormatter);
    parser.line("# the happy path");
    parser.line("not ok 2 should be equivalent");

    assert_eq!(parser.tests().len(), 1);
    let test = parser.tests().last().unwrap().build();
    assert_eq!(test.name(), "the happy path");
    assert_eq!(test.name(), "the happy path");
    let assertion = &test.assertions()[0];
    assert_eq!(assertion.message(), "should be equivalent");
    assert_eq!(assertion.pass(), false);
}

#[test]
fn test_finalising_without_a_plan_line() {
    let mut parser = TapParser::new(TAP_HEADER, NullFormatter);
    parser.finalise();

    assert_eq!(parser.plan(), None);
}

#[test]
fn test_finalising_with_a_plan_line() {
    let mut parser = TapParser::new(TAP_HEADER, NullFormatter);
    parser.line("# the happy path");
    parser.line("not ok 2 should be equivalent");
    parser.line("1..1");
    parser.finalise();

    assert_eq!(parser.plan(), Some((1, 1)));
}

#[test]
fn only_the_exact_header_is_accepted() {
    assert!(is_header(TAP_HEADER));
    assert!(!is_header("invalid"));
    assert!(!is_header(""));
    assert!(!is_header("TAP version 13 "));
    assert!(!is_header(" TAP version 13"));
    assert!(!is_header("tap version 13"));
    assert!(!is_header("TAP version 12"));
}

#[test]
fn one_test_per_title_line() {
    let mut parser = TapParser::new(TAP_HEADER, NullFormatter);
    for line in ["# a", "ok 1 x", "# b", "# c", "not ok 2 y", "random text"] {
        parser.line(line);
    }
    assert_eq!(parser.tests().len(), 3);
    let names: Vec<String> = parser.tests().iter().map(|t| t.build().name()).collect();
    assert_eq!(names, vec!["a", "b", "c"]);
}

#[test]
fn results_go_to_the_open_test() {
    let mut parser = TapParser::new(TAP_HEADER, NullFormatter);
    for line in ["# a", "ok 1 x", "not ok 2 y", "# b", "# c", "ok 3 z"] {
        parser.line(line);
    }
    let counts: Vec<usize> = parser.tests().iter().map(|t| t.build().assertions().len()).collect();
    assert_eq!(counts, vec![2, 0, 1]);
    let passes: Vec<bool> = parser.tests().iter().map(|t| t.build().pass()).collect();
    assert_eq!(passes, vec![false, true, true]);
}

#[test]
fn lines_before_any_title_are_dropped() {
    let mut parser = TapParser::new(TAP_HEADER, NullFormatter);
    parser.line("ok 1 early");
    parser.line("not ok 2 early");
    parser.line("1..2");
    parser.line("chatter");
    assert_eq!(parser.tests().len(), 0);
    assert_eq!(parser.plan(), None);
}

#[test]
fn scenario_three_two_assertions_in_order() {
    let mut parser = TapParser::new(TAP_HEADER, NullFormatter);
    parser.line("# t");
    parser.line("ok 1 a");
    parser.line("not ok 2 b");
    assert_eq!(parser.tests().len(), 1);
    let test = parser.tests()[0].build();
    assert_eq!(test.name(), "t");
    assert_eq!(test.assertions()[0].message(), "a");
    assert!(test.assertions()[0].pass());
    assert_eq!(test.assertions()[1].message(), "b");
    assert!(!test.assertions()[1].pass());
    assert!(!test.pass());
}

#[test]
fn scenario_four_plan_after_failure() {
    let mut parser = TapParser::new(TAP_HEADER, NullFormatter);
    parser.line("# t");
    parser.line("not ok 1 x");
    parser.line("1..1");
    parser.finalise();
    assert_eq!(parser.plan(), Some((1, 1)));
}

#[test]
fn scenario_five_empty_stream_uses_fallback() {
    let mut parser = TapParser::new(TAP_HEADER, SpecFormatter::new());
    let summary = parser.finalise();
    assert_eq!(parser.tests().len(), 0);
    assert_eq!(parser.plan(), None);
    assert_eq!(summary, "Test suite ended without report");
}

#[test]
fn plan_lines_last_valid_wins() {
    let mut parser = TapParser::new(TAP_HEADER, NullFormatter);
    parser.line("# t");
    parser.line("1..3");
    parser.line("1..3");
    assert_eq!(parser.plan(), Some((1, 3)));
    parser.line("2..9");
    assert_eq!(parser.plan(), Some((2, 9)));
    for bad in ["abc..def", "1..2..3", "5", "1..", "..2", "1 ..2", "1..99999999999"] {
        parser.line(bad);
        assert_eq!(parser.plan(), Some((2, 9)));
    }
    parser.line("-4..+7");
    assert_eq!(parser.plan(), Some((-4, 7)));
}

#[test]
fn diagnostic_lines_are_logged_on_the_open_test() {
    let mut parser = TapParser::new(TAP_HEADER, NullFormatter);
    parser.line("# t");
    parser.line("  first");
    parser.line("second");
    assert_eq!(parser.tests()[0].build().log(), "  first\nsecond");
}

#[test]
fn lines_after_finalise_are_ignored() {
    let mut parser = TapParser::new(TAP_HEADER, DotFormatter);
    parser.line("# t");
    assert_eq!(parser.finalise(), "Test suite ended without report");
    assert_eq!(parser.line("# u"), "");
    assert_eq!(parser.line("1..2"), "");
    assert_eq!(parser.tests().len(), 1);
    assert_eq!(parser.plan(), None);
    assert_eq!(parser.finalise(), "");
}

#[test]
fn dot_formatter_output_through_parser() {
    let mut parser = TapParser::new(TAP_HEADER, DotFormatter);
    assert_eq!(parser.line("# t"), "");
    assert_eq!(parser.line("ok 1 a"), ".");
    assert_eq!(parser.line("not ok 2 b"), "x");
    assert_eq!(parser.line("some log"), "");
    assert_eq!(parser.line("1..2"), "");
    assert_eq!(parser.finalise(), "Ran 2 tests");
}

#[test]
fn dot_formatter_negative_plan_end() {
    let f = DotFormatter;
    assert_eq!(f.summerise(Some((0, -15)), vec![]), "Ran -15 tests");
    assert_eq!(f.summerise(Some((1, 120)), vec![]), "Ran 120 tests");
}

#[test]
fn spec_formatter_reports_failed_tests() {
    let mut parser = TapParser::new(TAP_HEADER, SpecFormatter::new());
    assert_eq!(parser.line("# good"), "");
    assert_eq!(parser.line("ok 1 fine"), "\x1B[32m.\x1b[0m");
    assert_eq!(parser.line("# bad"), "");
    assert_eq!(parser.formatter().current_test(), "bad");
    assert_eq!(parser.line("oops"), "");
    assert_eq!(parser.line("ok 2 yes"), "\x1B[32m.\x1b[0m");
    assert_eq!(parser.line("not ok 3 no"), "\x1B[31mx\x1b[0m");
    parser.line("1..3");
    let expected = String::from("\nRan 3 of 3 tests\n\n")
        + "\n\x1B[4mbad\x1b[0m\n\n"
        + "\x1B[33moops\x1b[0m\n"
        + "  ✅ \x1B[32myes\x1b[0m\n"
        + "  ❌ \x1B[31mno\x1b[0m\n";
    assert_eq!(parser.finalise(), expected);
}

#[test]
fn spec_formatter_counts_all_assertions() {
    let mut parser = TapParser::new(TAP_HEADER, SpecFormatter::new());
    for line in ["# a", "ok 1 x", "ok 2 y", "# b", "ok 3 z", "0..12"] {
        parser.line(line);
    }
    assert_eq!(parser.finalise(), "\nRan 12 of 3 tests\n\n");
}
