//! The input-language register: a single mutable cell holding the current
//! language, read by language queries and written by icon-set requests.

use vstd::prelude::*;

verus! {

use vstd::string::StringExecFns;

/// The current input language shown by the indicator.
#[derive(Clone, Copy, PartialEq, Eq, Structural, Debug)]
pub enum Lang {
    Eng,
    Han,
}

/// The three-character wire code for a language, as sent in reply to a
/// language query.
pub open spec fn lang_code(l: Lang) -> Seq<char> {
    match l {
        Lang::Eng => seq!['e', 'n', 'g'],
        Lang::Han => seq!['h', 'a', 'n'],
    }
}

/// Process-wide register of the current input language; defaults to `Eng`.
pub struct IconState {
    pub lang: Lang,
}

impl IconState {
    /// A fresh register starts in the `Eng` state.
    pub fn new() -> (s: Self)
        ensures
            s.lang == Lang::Eng,
    {
        IconState { lang: Lang::Eng }
    }

    /// Overwrite the register.
    pub fn set(&mut self, l: Lang)
        ensures
            final(self).lang == l,
    {
        self.lang = l;
    }

    /// The fixed three-character code for the current language.
    pub fn code(&self) -> (r: String)
        ensures
            r@ == lang_code(self.lang),
    {
        match self.lang {
            Lang::Eng => {
                let s = String::from_str("eng");
                proof {
                    reveal_strlit("eng");
                    assert(s@ =~= lang_code(self.lang));
                }
                s
            },
            Lang::Han => {
                let s = String::from_str("han");
                proof {
                    reveal_strlit("han");
                    assert(s@ =~= lang_code(self.lang));
                }
                s
            },
        }
    }
}

} // verus!
