use kime_window::CandidateEntry;
use kime_window::Dispatcher;
use kime_window::KeyedStore;
use kime_window::Outcome;

fn fresh(dict_text: &str) -> Dispatcher {
    Dispatcher::new(KeyedStore::load(dict_text), Vec::new())
}

fn expect_reply(out: Outcome) -> String {
    match out {
        Outcome::Reply(s) => s,
        _ => panic!("expected a reply"),
    }
}

#[test]
fn lang_query_on_fresh_process_replies_eng() {
    let mut d = fresh("");
    assert_eq!(expect_reply(d.handle(b"l")), "eng");
}

#[test]
fn icon_set_han_then_query_replies_han() {
    let mut d = fresh("");
    assert!(matches!(d.handle(b"ihan"), Outcome::SetIcon(_)));
    assert_eq!(expect_reply(d.handle(b"l")), "han");
}

#[test]
fn icon_set_strips_one_trailing_newline() {
    let mut d = fresh("");
    assert!(matches!(d.handle(b"ihan\n"), Outcome::SetIcon(_)));
    assert_eq!(expect_reply(d.handle(b"l")), "han");
    assert!(matches!(d.handle(b"ieng\n"), Outcome::SetIcon(_)));
    assert_eq!(expect_reply(d.handle(b"l")), "eng");
}

#[test]
fn icon_set_with_unknown_payload_changes_nothing() {
    let mut d = fresh("");
    assert!(matches!(d.handle(b"ixyz"), Outcome::Done));
    assert_eq!(expect_reply(d.handle(b"l")), "eng");
}

#[test]
fn lookup_opens_a_session_and_commit_answers() {
    let mut d = fresh("\u{ac00}:\u{5047}:false\n\u{ac00}:\u{5bb6}:house\n");
    let req = "h\u{ac00}".as_bytes();
    let session = match d.handle(req) {
        Outcome::Pick(s) => s,
        _ => panic!("expected a session"),
    };
    assert_eq!(session.candidates.len(), 2);
    assert_eq!(session.filter, "");
    let choice = session.commit(1);
    assert_eq!(choice, Some("\u{5bb6}".to_string()));
    assert_eq!(d.finish(choice), Some("\u{5bb6}".to_string()));
}

#[test]
fn absent_key_sends_nothing_back() {
    let mut d = fresh("\u{ac00}:\u{5047}:false\n");
    assert!(matches!(d.handle(b"hzzz"), Outcome::Done));
}

#[test]
fn lookup_key_is_trimmed_of_trailing_whitespace() {
    let mut d = fresh("\u{ac00}:\u{5047}:false\n");
    let req = "h\u{ac00}\n".as_bytes();
    assert!(matches!(d.handle(req), Outcome::Pick(_)));
}

#[test]
fn non_utf8_lookup_payload_is_dropped() {
    let mut d = fresh("\u{ac00}:\u{5047}:false\n");
    let req: Vec<u8> = vec![b'h', 0xff, 0xfe];
    assert!(matches!(d.handle(&req), Outcome::Done));
}

#[test]
fn empty_request_is_dropped() {
    let mut d = fresh("");
    assert!(matches!(d.handle(b""), Outcome::Done));
}

#[test]
fn unknown_tag_is_dropped() {
    let mut d = fresh("");
    assert!(matches!(d.handle(b"z"), Outcome::Done));
}

#[test]
fn emoji_request_offers_the_whole_table() {
    let emoji = vec![
        CandidateEntry { value: "\u{1f600}".to_string(), description: "grinning face".to_string() },
        CandidateEntry { value: "\u{1f431}".to_string(), description: "cat face".to_string() },
    ];
    let mut d = Dispatcher::new(KeyedStore::load(""), emoji);
    let session = match d.handle(b"e") {
        Outcome::Pick(s) => s,
        _ => panic!("expected a session"),
    };
    assert_eq!(session.candidates.len(), 2);
    assert_eq!(session.candidates[0].value, "\u{1f600}");
    assert_eq!(session.filter, "");
}

#[test]
fn second_request_is_refused_while_a_session_is_active() {
    let mut d = fresh("\u{ac00}:\u{5047}:false\n");
    let req = "h\u{ac00}".as_bytes();
    let session = match d.handle(req) {
        Outcome::Pick(s) => s,
        _ => panic!("expected a session"),
    };
    assert!(matches!(d.handle(b"l"), Outcome::Busy));
    assert!(matches!(d.handle(req), Outcome::Busy));
    let choice = session.cancel();
    assert_eq!(d.finish(choice), None);
    assert_eq!(expect_reply(d.handle(b"l")), "eng");
}
