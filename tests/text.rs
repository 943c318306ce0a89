use tap_reporter::classify::{classify, parse_i32, parse_test_plan, starts_with, take_line_from_word, Line};
use tap_reporter::text_decoration::{green, red, underlined, yellow};

#[test]
fn decorations_wrap_text() {
    assert_eq!(red("x"), "\x1B[31mx\x1b[0m");
    assert_eq!(green("ok"), "\x1B[32mok\x1b[0m");
    assert_eq!(yellow(""), "\x1B[33m\x1b[0m");
    assert_eq!(underlined("title"), "\x1B[4mtitle\x1b[0m");
}

#[test]
fn words_are_taken_after_the_ordinal() {
    assert_eq!(take_line_from_word("ok 1 should be equal", 2), "should be equal");
    assert_eq!(take_line_from_word("not ok 12 should  work", 3), "should work");
    assert_eq!(take_line_from_word("ok 1 a  b", 2), "a b");
    assert_eq!(take_line_from_word("ok  1   spaced   out  ", 2), "spaced out");
    assert_eq!(take_line_from_word("ok 1  ", 2), "");
    assert_eq!(take_line_from_word("ok 1", 2), "");
    assert_eq!(take_line_from_word("ok 1 ", 2), "");
    assert_eq!(take_line_from_word("a", 0), "a");
    assert_eq!(take_line_from_word("ok", 5), "");
}

#[test]
fn lines_are_classified() {
    assert!(matches!(classify("# a title "), Line::TestTitle(t) if t == "a title "));
    assert!(matches!(classify("ok 7 it works"), Line::Pass(t) if t == "it works"));
    assert!(matches!(classify("not ok 8 it broke"), Line::Fail(t) if t == "it broke"));
    assert!(matches!(classify("1..68"), Line::Plan(1, 68)));
    assert!(matches!(classify("#no space"), Line::Other(t) if t == "#no space"));
    assert!(matches!(classify("ok"), Line::Other(t) if t == "ok"));
    assert!(matches!(classify("abc..def"), Line::Other(_)));
    assert!(matches!(classify("ok 1 é ü"), Line::Pass(t) if t == "é ü"));
    assert!(matches!(classify("not ok 2   many    gaps "), Line::Fail(t) if t == "many gaps"));
}

#[test]
fn prefixes() {
    assert!(starts_with("ok 1", "ok "));
    assert!(!starts_with("ok", "ok "));
    assert!(starts_with("", ""));
    assert!(!starts_with("not ok", "ok"));
}

#[test]
fn integers_parse_like_std() {
    for s in ["0", "17", "-17", "+17", "007", "2147483647", "-2147483648", "2147483648",
        "-2147483649", "", "-", "+", "1a", " 1", "1 ", "--1", "+-1", "99999999999999999999"] {
        assert_eq!(parse_i32(s), s.parse::<i32>().ok(), "{:?}", s);
    }
}

#[test]
fn plans_parse() {
    assert_eq!(parse_test_plan("1..68"), Some((1, 68)));
    assert_eq!(parse_test_plan("-3..-1"), Some((-3, -1)));
    assert_eq!(parse_test_plan("abc..def"), None);
    assert_eq!(parse_test_plan("1..2..3"), None);
    assert_eq!(parse_test_plan("5"), None);
    assert_eq!(parse_test_plan("1...2"), None);
    assert_eq!(parse_test_plan(""), None);
}
