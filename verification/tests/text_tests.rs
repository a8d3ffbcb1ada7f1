use kime_window::text::contains_str;
use kime_window::text::split_lines;
use kime_window::text::split_str;
use kime_window::text::trim_end;

#[test]
fn split_on_separator() {
    assert_eq!(split_str("a:b:c", ':'), vec!["a", "b", "c"]);
    assert_eq!(split_str("a:", ':'), vec!["a", ""]);
    assert_eq!(split_str("", ':'), vec![""]);
    assert_eq!(split_str("abc", ':'), vec!["abc"]);
}

#[test]
fn lines_drop_final_break_and_carriage_returns() {
    assert_eq!(split_lines("a\nb\n"), vec!["a", "b"]);
    assert_eq!(split_lines("a\nb"), vec!["a", "b"]);
    assert_eq!(split_lines("a\r\nb\r\n"), vec!["a", "b"]);
    assert_eq!(split_lines(""), Vec::<String>::new());
    assert_eq!(split_lines("a\n\nb"), vec!["a", "", "b"]);
}

#[test]
fn trim_removes_trailing_whitespace_only() {
    assert_eq!(trim_end("abc \t\r\n"), "abc");
    assert_eq!(trim_end("  abc"), "  abc");
    assert_eq!(trim_end("\u{ac00}\n"), "\u{ac00}");
    assert_eq!(trim_end(""), "");
}

#[test]
fn substring_containment_is_case_sensitive() {
    assert!(contains_str("\u{ac00}: \u{5047} (false)", "\u{5047}"));
    assert!(!contains_str("\u{ac00}: \u{5047} (false)", "ZZZ"));
    assert!(contains_str("abc", ""));
    assert!(contains_str("abc", "abc"));
    assert!(!contains_str("abc", "abcd"));
    assert!(!contains_str("Apple", "apple"));
}
