//! The protocol dispatcher: decodes one-byte-tagged requests, drives store
//! lookups, language-register updates and picker-session invocation, and
//! says what must be sent back. Requests are handled strictly one at a time;
//! while a session is active every further request is refused unchanged.

use vstd::prelude::*;

verus! {

use crate::icon::IconState;
use crate::icon::Lang;
use crate::icon::lang_code;
use crate::picker::PickerSession;
use crate::picker::clone_entries;
use crate::store::CandidateEntry;
use crate::store::KeyedStore;
use crate::text::trim_end;
use crate::text::trim_end_ws;
use vstd::slice::slice_index_get;
use vstd::slice::slice_subrange;
use vstd::utf8::decode_utf8;
use vstd::utf8::valid_utf8;

/// What one request leads to, at the specification level.
pub enum StepOutcome {
    /// handled; nothing to send back
    Done,
    /// the language register changed; the indicator should now show this
    /// language; nothing to send back
    SetIcon(Lang),
    /// send these characters back
    Reply(Seq<char>),
    /// open a picker session over these candidates with this initial filter
    Pick(Seq<(Seq<char>, Seq<char>)>, Seq<char>),
}

/// The icon-set tag, `i`: the request's one leading byte names its kind.
pub const TAG_ICON_SET: u8 = 105;

/// The language-query tag, `l`.
pub const TAG_LANG_QUERY: u8 = 108;

/// The keyed-lookup tag, `h`.
pub const TAG_HANJA_LOOKUP: u8 = 104;

/// The flat-lookup tag, `e`.
pub const TAG_EMOJI_LOOKUP: u8 = 101;

/// An icon-set payload with one optional trailing line feed stripped.
pub open spec fn strip_nl(p: Seq<u8>) -> Seq<u8> {
    if p.len() > 0 && p.last() == 10u8 {
        p.drop_last()
    } else {
        p
    }
}

/// The icon-set payload naming English.
pub open spec fn eng_bytes() -> Seq<u8> {
    seq![101u8, 110u8, 103u8]
}

/// The icon-set payload naming Hangul.
pub open spec fn han_bytes() -> Seq<u8> {
    seq![104u8, 97u8, 110u8]
}

/// The language named by an icon-set payload, if any.
pub open spec fn icon_request(p: Seq<u8>) -> Option<Lang> {
    if strip_nl(p) == eng_bytes() {
        Some(Lang::Eng)
    } else if strip_nl(p) == han_bytes() {
        Some(Lang::Han)
    } else {
        None
    }
}

/// The language register after a request: only an icon-set request with a
/// well-formed payload changes it.
pub open spec fn step_lang(lang: Lang, req: Seq<u8>) -> Lang {
    if req.len() >= 1 && req[0] == TAG_ICON_SET {
        match icon_request(req.skip(1)) {
            Some(l) => l,
            None => lang,
        }
    } else {
        lang
    }
}

/// The outcome of one request against the given state: the dispatch table of
/// the protocol, tag by tag. An empty request, an unknown tag, a malformed
/// icon-set payload, a non-UTF-8 lookup payload and an absent key all end
/// with nothing sent back.
pub open spec fn step_outcome(
    lang: Lang,
    dict: Map<Seq<char>, Seq<(Seq<char>, Seq<char>)>>,
    emoji: Seq<(Seq<char>, Seq<char>)>,
    req: Seq<u8>,
) -> StepOutcome {
    if req.len() == 0 {
        StepOutcome::Done
    } else {
        let tag = req[0];
        let payload = req.skip(1);
        if tag == TAG_ICON_SET {
            match icon_request(payload) {
                Some(l) => StepOutcome::SetIcon(l),
                None => StepOutcome::Done,
            }
        } else if tag == TAG_LANG_QUERY {
            StepOutcome::Reply(lang_code(lang))
        } else if tag == TAG_HANJA_LOOKUP {
            if valid_utf8(payload) {
                let key = trim_end_ws(decode_utf8(payload));
                if dict.contains_key(key) {
                    StepOutcome::Pick(dict[key], Seq::empty())
                } else {
                    StepOutcome::Done
                }
            } else {
                StepOutcome::Done
            }
        } else if tag == TAG_EMOJI_LOOKUP {
            StepOutcome::Pick(emoji, Seq::empty())
        } else {
            StepOutcome::Done
        }
    }
}

/// What the dispatcher hands back for one request.
pub enum Outcome {
    /// a request arrived while a session is active: refused, state unchanged
    Busy,
    /// handled; nothing to send back
    Done,
    /// the indicator should now show this language; nothing to send back
    SetIcon(Lang),
    /// send these bytes back
    Reply(String),
    /// run this session until the interactive actor commits or cancels
    Pick(PickerSession),
}

/// The specification-level reading of an outcome.
pub open spec fn outcome_view(o: Outcome) -> Option<StepOutcome> {
    match o {
        Outcome::Busy => None,
        Outcome::Done => Some(StepOutcome::Done),
        Outcome::SetIcon(l) => Some(StepOutcome::SetIcon(l)),
        Outcome::Reply(s) => Some(StepOutcome::Reply(s@)),
        Outcome::Pick(ps) => Some(StepOutcome::Pick(ps.candidates.deep_view(), ps.filter@)),
    }
}

/// Relies on core::str::from_utf8: returns the decoded string exactly when
/// the bytes are valid UTF-8.
#[verifier::external_body]
fn decode_payload(b: &[u8]) -> (r: Option<String>)
    ensures
        match r {
            Some(s) => valid_utf8(b@) && s@ == decode_utf8(b@),
            None => !valid_utf8(b@),
        },
{
    match core::str::from_utf8(b) {
        Ok(s) => Some(s.to_owned()),
        Err(_) => None,
    }
}

/// The protocol dispatcher: the immutable candidate stores, the language
/// register, and whether a picker session is pending. Strictly sequential:
/// a request that arrives while a session is active is refused.
pub struct Dispatcher {
    pub store: KeyedStore,
    pub emoji: Vec<CandidateEntry>,
    pub icon: IconState,
    pub active: bool,
}

impl Dispatcher {
    /// A fresh dispatcher: language `Eng`, no session pending.
    pub fn new(store: KeyedStore, emoji: Vec<CandidateEntry>) -> (d: Dispatcher)
        ensures
            d.store == store,
            d.emoji == emoji,
            d.icon.lang == Lang::Eng,
            !d.active,
    {
        Dispatcher { store, emoji, icon: IconState::new(), active: false }
    }

    /// Act on one request. The stores never change. While a session is
    /// active the request is refused and nothing else happens; no second
    /// session can start until `finish` ends the first. Otherwise the
    /// request steps the language register and yields the outcome of the
    /// dispatch table, and a session becomes active exactly when the outcome
    /// opens one.
    pub fn handle(&mut self, req: &[u8]) -> (out: Outcome)
        ensures
            final (self).store == old(self).store,
            final (self).emoji == old(self).emoji,
            old(self).active ==> *final (self) == *old(self) && out is Busy,
            !old(self).active ==> final (self).icon.lang == step_lang(old(self).icon.lang, req@),
            !old(self).active ==> outcome_view(out) == Some(
                step_outcome(old(self).icon.lang, old(self).store@, old(self).emoji.deep_view(), req@),
            ),
            !old(self).active ==> final (self).active == (out is Pick),
    {
        if self.active {
            return Outcome::Busy;
        }
        let n: usize = req.len();
        if n == 0 {
            return Outcome::Done;
        }
        let tag: u8 = *slice_index_get(req, 0);
        let payload: &[u8] = slice_subrange(req, 1, n);
        proof {
            assert(payload@ =~= req@.skip(1));
        }
        if tag == TAG_ICON_SET {
            // one optional trailing line feed is stripped from the payload
            let m: usize = payload.len();
            let end: usize = if m > 0 && *slice_index_get(payload, m - 1) == 10u8 {
                m - 1
            } else {
                m
            };
            proof {
                assert(strip_nl(payload@) =~= payload@.take(end as int));
            }
            let is_eng: bool = end == 3 && *slice_index_get(payload, 0) == 101u8 && *slice_index_get(
                payload,
                1,
            ) == 110u8 && *slice_index_get(payload, 2) == 103u8;
            let is_han: bool = end == 3 && *slice_index_get(payload, 0) == 104u8 && *slice_index_get(
                payload,
                1,
            ) == 97u8 && *slice_index_get(payload, 2) == 110u8;
            proof {
                if is_eng {
                    assert(strip_nl(payload@) =~= eng_bytes());
                } else {
                    assert(strip_nl(payload@) !~= eng_bytes());
                }
                if is_han {
                    assert(strip_nl(payload@) =~= han_bytes());
                } else {
                    assert(strip_nl(payload@) !~= han_bytes());
                }
            }
            if is_eng {
                self.icon.set(Lang::Eng);
                Outcome::SetIcon(Lang::Eng)
            } else if is_han {
                self.icon.set(Lang::Han);
                Outcome::SetIcon(Lang::Han)
            } else {
                Outcome::Done
            }
        } else if tag == TAG_LANG_QUERY {
            Outcome::Reply(self.icon.code())
        } else if tag == TAG_HANJA_LOOKUP {
            match decode_payload(payload) {
                Some(s) => {
                    let key = trim_end(s.as_str());
                    match self.store.lookup(key.as_str()) {
                        Some(entries) => {
                            let session = PickerSession::new(entries, String::new());
                            self.active = true;
                            Outcome::Pick(session)
                        },
                        None => Outcome::Done,
                    }
                },
                None => Outcome::Done,
            }
        } else if tag == TAG_EMOJI_LOOKUP {
            // the whole flat store is the candidate universe
            let entries = clone_entries(&self.emoji);
            let session = PickerSession::new(entries, String::new());
            self.active = true;
            Outcome::Pick(session)
        } else {
            // unknown tag
            Outcome::Done
        }
    }

    /// End the pending session with the actor's choice: the selected value
    /// is what must be sent back; a cancelled session sends nothing. The
    /// dispatcher is ready for the next request afterwards.
    pub fn finish(&mut self, selection: Option<String>) -> (r: Option<String>)
        ensures
            final (self).store == old(self).store,
            final (self).emoji == old(self).emoji,
            final (self).icon == old(self).icon,
            !final (self).active,
            r == selection,
    {
        self.active = false;
        selection
    }
}

/// Law: on a fresh register the language query replies `eng`, and after an
/// icon-set request naming a language, a language query replies that
/// language's three-character code.
pub proof fn lemma_icon_set_then_query(
    lang: Lang,
    dict: Map<Seq<char>, Seq<(Seq<char>, Seq<char>)>>,
    emoji: Seq<(Seq<char>, Seq<char>)>,
    set_req: Seq<u8>,
    l: Lang,
)
    requires
        set_req.len() >= 1,
        set_req[0] == TAG_ICON_SET,
        icon_request(set_req.skip(1)) == Some(l),
    ensures
        step_outcome(Lang::Eng, dict, emoji, seq![TAG_LANG_QUERY]) == StepOutcome::Reply(lang_code(
            Lang::Eng,
        )),
        step_lang(lang, set_req) == l,
        step_outcome(step_lang(lang, set_req), dict, emoji, seq![TAG_LANG_QUERY]) == StepOutcome::Reply(
            lang_code(l),
        ),
{
}

} // verus!
