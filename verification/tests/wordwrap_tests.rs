//! Tests for the grapheme-based word wrap and its helpers.

use rssread::wordwrap::rfind;
use rssread::wordwrap::str_eq;
use rssread::wordwrap::wordwrap;
use rssread::wordwrap::wordwrapline;

#[test]
fn rfind_searches_from_the_right() {
    let gs: Vec<&str> = vec!["a", " ", "b", " ", "c"];
    assert_eq!(rfind(&gs, " "), Some(3));
    assert_eq!(rfind(&gs, "a"), Some(0));
    assert_eq!(rfind(&gs, "x"), None);
    let empty: Vec<&str> = Vec::new();
    assert_eq!(rfind(&empty, " "), None);
}

#[test]
fn str_eq_compares_characters() {
    assert!(str_eq("abc", "abc"));
    assert!(!str_eq("abc", "abd"));
    assert!(!str_eq("abc", "ab"));
    assert!(str_eq("", ""));
    assert!(str_eq("héé", "héé"));
}

#[test]
fn wordwrapline_breaks_at_space_in_window() {
    let line: Vec<&str> = vec!["a", "a", "a", " ", "b", "b", "b", " ", "c", "c", "c"];
    let wrapped = wordwrapline(&line, 7, 4);
    assert_eq!(wrapped, "aaa\nbbb ccc");
}

#[test]
fn wordwrapline_hard_breaks_long_words() {
    let line: Vec<&str> = vec!["a"; 10];
    let wrapped = wordwrapline(&line, 5, 2);
    assert_eq!(wrapped, "aaaaa\naaaaa");
}

#[test]
fn wordwrap_wraps_each_line() {
    assert_eq!(wordwrap("aaa bbb ccc", 7, 4), "aaa\nbbb ccc");
    assert_eq!(wordwrap("ab\ncd", 10, 2), "ab\ncd");
    assert_eq!(wordwrap("", 10, 2), "");
    assert_eq!(wordwrap("short", 72, 20), "short");
}

#[test]
fn wordwrap_wraps_lines_independently() {
    // each source line is wrapped on its own before the results are joined
    assert_eq!(wordwrap("aaa bbb\nccc ddd", 5, 3), "aaa\nbbb\nccc\nddd");
}

#[test]
fn wordwrap_understands_graphemes() {
    // a combining accent stays with its base character as one grapheme
    let s = "e\u{0301}e\u{0301}e\u{0301}e\u{0301}";
    let wrapped = wordwrap(s, 2, 1);
    assert_eq!(wrapped, "e\u{0301}e\u{0301}\ne\u{0301}e\u{0301}");
}
