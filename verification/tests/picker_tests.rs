use kime_window::CandidateEntry;
use kime_window::PickerSession;
use kime_window::label_of;

fn entry(value: &str, description: &str) -> CandidateEntry {
    CandidateEntry { value: value.to_string(), description: description.to_string() }
}

#[test]
fn label_joins_value_and_description() {
    let label = label_of(&entry("\u{ac00}", "\u{5047} (false)"));
    assert_eq!(label, "\u{ac00}: \u{5047} (false)");
}

#[test]
fn filter_matches_substring_of_label() {
    let mut s = PickerSession::new(vec![entry("\u{ac00}", "\u{5047} (false)")], String::new());
    s.set_filter("\u{5047}".to_string());
    assert!(s.row_visible(0));
    s.set_filter("ZZZ".to_string());
    assert!(!s.row_visible(0));
}

#[test]
fn empty_filter_shows_everything() {
    let s = PickerSession::new(vec![entry("a", "x"), entry("b", "y")], String::new());
    assert_eq!(s.visible_rows(), vec![0, 1]);
}

#[test]
fn visible_rows_are_the_matching_indices() {
    let mut s = PickerSession::new(
        vec![entry("a", "apple"), entry("b", "banana"), entry("c", "apricot")],
        String::new(),
    );
    s.set_filter("ap".to_string());
    assert_eq!(s.visible_rows(), vec![0, 2]);
}

#[test]
fn initial_filter_is_applied() {
    let s = PickerSession::new(vec![entry("a", "apple"), entry("b", "banana")], "ban".to_string());
    assert_eq!(s.visible_rows(), vec![1]);
}

#[test]
fn commit_returns_the_selected_value() {
    let s = PickerSession::new(vec![entry("a", "x"), entry("b", "y")], String::new());
    assert_eq!(s.commit(1), Some("b".to_string()));
}

#[test]
fn commit_refuses_a_filtered_row() {
    let mut s = PickerSession::new(vec![entry("a", "x"), entry("b", "y")], String::new());
    s.set_filter("y".to_string());
    assert_eq!(s.commit(0), None);
}

#[test]
fn commit_refuses_an_out_of_range_row() {
    let s = PickerSession::new(vec![entry("a", "x")], String::new());
    assert_eq!(s.commit(5), None);
}

#[test]
fn cancel_selects_nothing() {
    let s = PickerSession::new(vec![entry("a", "x")], String::new());
    assert_eq!(s.cancel(), None);
}
