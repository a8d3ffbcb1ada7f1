use kime_window::KeyedStore;
use kime_window::store::parse_line_exec;

#[test]
fn load_keeps_file_order_per_key() {
    let store = KeyedStore::load("\u{ac00}:\u{5047}:false\n\u{ac00}:\u{5bb6}:house\n");
    let entries = store.lookup("\u{ac00}").expect("key should be present");
    assert_eq!(entries.len(), 2);
    assert_eq!(entries[0].value, "\u{5047}");
    assert_eq!(entries[0].description, "false");
    assert_eq!(entries[1].value, "\u{5bb6}");
    assert_eq!(entries[1].description, "house");
}

#[test]
fn load_skips_comments_malformed_and_empty_description() {
    let text = "#\u{ac00}:\u{5047}:false\nno colons here\nx:y\nk:v:\na:b:c:d\n\u{ac00}:\u{5bb6}:house\n";
    let store = KeyedStore::load(text);
    let entries = store.lookup("\u{ac00}").expect("key should be present");
    assert_eq!(entries.len(), 1);
    assert_eq!(entries[0].value, "\u{5bb6}");
    assert!(store.lookup("x").is_none());
    assert!(store.lookup("k").is_none());
    assert!(store.lookup("a").is_none());
    assert!(store.lookup("no colons here").is_none());
}

#[test]
fn load_handles_crlf_line_endings() {
    let store = KeyedStore::load("\u{ac00}:\u{5047}:false\r\n");
    let entries = store.lookup("\u{ac00}").expect("key should be present");
    assert_eq!(entries.len(), 1);
    assert_eq!(entries[0].description, "false");
}

#[test]
fn load_empty_text_has_no_keys() {
    let store = KeyedStore::load("");
    assert!(store.lookup("\u{ac00}").is_none());
    assert!(store.lookup("").is_none());
}

#[test]
fn load_without_trailing_newline() {
    let store = KeyedStore::load("\u{ac00}:\u{5047}:false");
    let entries = store.lookup("\u{ac00}").expect("key should be present");
    assert_eq!(entries.len(), 1);
}

#[test]
fn parse_line_shapes() {
    assert_eq!(
        parse_line_exec("k:v:d"),
        Some(("k".to_string(), "v".to_string(), "d".to_string()))
    );
    assert_eq!(parse_line_exec("#k:v:d"), None);
    assert_eq!(parse_line_exec("k:v:"), None);
    assert_eq!(parse_line_exec("k:v"), None);
    assert_eq!(parse_line_exec("k:v:d:e"), None);
    assert_eq!(parse_line_exec(""), None);
}
