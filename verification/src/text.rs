//! Character-level text utilities: separator splitting, line splitting,
//! trailing-whitespace trimming and substring search, each with an exact
//! specification over `Seq<char>`.

use vstd::prelude::*;

verus! {

use vstd::string::StrSliceExecFns;

/// Index of the first occurrence of `sep` in `s`, or `s.len()` if absent.
pub open spec fn find_sep(s: Seq<char>, sep: char) -> int
    decreases s.len(),
{
    if s.len() == 0 {
        0
    } else if s[0] == sep {
        0
    } else {
        1 + find_sep(s.skip(1), sep)
    }
}

/// `find_sep` really is the first occurrence: everything before it differs
/// from `sep`, and the index itself (when in range) holds `sep`.
pub proof fn lemma_find_sep(s: Seq<char>, sep: char)
    ensures
        0 <= find_sep(s, sep) <= s.len(),
        forall|j: int| 0 <= j < find_sep(s, sep) ==> s[j] != sep,
        find_sep(s, sep) < s.len() ==> s[find_sep(s, sep)] == sep,
    decreases s.len(),
{
    if s.len() == 0 {
    } else if s[0] == sep {
    } else {
        lemma_find_sep(s.skip(1), sep);
        assert forall|j: int| 0 <= j < find_sep(s, sep) implies s[j] != sep by {
            if j > 0 {
                assert(s.skip(1)[j - 1] == s[j]);
            }
        }
        if find_sep(s, sep) < s.len() {
            assert(s.skip(1)[find_sep(s, sep) - 1] == s[find_sep(s, sep)]);
        }
    }
}

/// The first-occurrence property pins `find_sep` down.
pub proof fn lemma_find_sep_is(s: Seq<char>, sep: char, i: int)
    requires
        0 <= i <= s.len(),
        forall|j: int| 0 <= j < i ==> s[j] != sep,
        i < s.len() ==> s[i] == sep,
    ensures
        find_sep(s, sep) == i,
    decreases s.len(),
{
    if s.len() == 0 {
    } else if s[0] == sep {
    } else {
        assert forall|j: int| 0 <= j < i - 1 implies s.skip(1)[j] != sep by {
            assert(s.skip(1)[j] == s[j + 1]);
        }
        if i < s.len() {
            assert(s.skip(1)[i - 1] == s[i]);
        }
        lemma_find_sep_is(s.skip(1), sep, i - 1);
    }
}

/// The fields of `s` delimited by `sep`, as `str::split` yields them. There
/// is always at least one field; an empty input gives one empty field.
pub open spec fn split_at_sep(s: Seq<char>, sep: char) -> Seq<Seq<char>>
    decreases s.len(),
{
    let i = find_sep(s, sep);
    if 0 <= i < s.len() {
        seq![s.take(i)] + split_at_sep(s.skip(i + 1), sep)
    } else {
        seq![s]
    }
}

pub proof fn lemma_split_at_sep_len(s: Seq<char>, sep: char)
    ensures
        split_at_sep(s, sep).len() >= 1,
    decreases s.len(),
{
    let i = find_sep(s, sep);
    lemma_find_sep(s, sep);
    if 0 <= i < s.len() {
        lemma_split_at_sep_len(s.skip(i + 1), sep);
    }
}

/// Split `s` at every occurrence of `sep`.
pub fn split_str(s: &str, sep: char) -> (r: Vec<String>)
    ensures
        r.deep_view() == split_at_sep(s@, sep),
{
    let n: usize = s.unicode_len();
    let mut r: Vec<String> = Vec::new();
    let mut start: usize = 0;
    let mut j: usize = 0;
    proof {
        assert(s@.skip(0) =~= s@);
        assert(r.deep_view() + split_at_sep(s@.skip(0), sep) =~= split_at_sep(s@, sep));
    }
    while j < n
        invariant
            n == s@.len(),
            start <= j <= n,
            forall|k: int| start <= k < j ==> s@[k] != sep,
            r.deep_view() + split_at_sep(s@.skip(start as int), sep) == split_at_sep(s@, sep),
        decreases n - j,
    {
        if s.get_char(j) == sep {
            let field = s.substring_char(start, j);
            let owned = field.to_owned();
            let ghost done = r.deep_view();
            let ghost st = start as int;
            proof {
                lemma_find_sep_is(s@.skip(st), sep, j - st);
                assert(s@.skip(st).take(j - st) =~= s@.subrange(st, j as int));
                assert(s@.skip(st).skip(j - st + 1) =~= s@.skip(j + 1));
                assert(split_at_sep(s@.skip(st), sep) =~= seq![s@.subrange(st, j as int)]
                    + split_at_sep(s@.skip(j + 1), sep));
                assert(owned@ =~= s@.subrange(st, j as int));
            }
            r.push(owned);
            start = j + 1;
            proof {
                assert(r.deep_view() =~= done + seq![s@.subrange(st, j as int)]);
                assert(r.deep_view() + split_at_sep(s@.skip(start as int), sep) =~= split_at_sep(
                    s@,
                    sep,
                ));
            }
        }
        j = j + 1;
    }
    let field = s.substring_char(start, n);
    let owned = field.to_owned();
    let ghost done = r.deep_view();
    proof {
        lemma_find_sep_is(s@.skip(start as int), sep, n - start);
        assert(split_at_sep(s@.skip(start as int), sep) =~= seq![s@.skip(start as int)]);
        assert(owned@ =~= s@.skip(start as int));
    }
    r.push(owned);
    proof {
        assert(r.deep_view() =~= done + seq![s@.skip(start as int)]);
        assert(r.deep_view() =~= split_at_sep(s@, sep));
    }
    r
}

/// Remove one trailing carriage return, if present.
pub open spec fn strip_cr(l: Seq<char>) -> Seq<char> {
    if l.len() > 0 && l.last() == '\r' {
        l.drop_last()
    } else {
        l
    }
}

/// The lines of `s`, as `str::lines` yields them: fields split at `'\n'`,
/// a carriage return directly before a line feed removed, and no final empty
/// line when the text ends with a line break.
pub open spec fn lines_of(s: Seq<char>) -> Seq<Seq<char>> {
    let f = split_at_sep(s, '\n');
    if f.last().len() == 0 {
        Seq::new((f.len() - 1) as nat, |i: int| strip_cr(f[i]))
    } else {
        Seq::new(f.len(), |i: int| if i < f.len() - 1 { strip_cr(f[i]) } else { f[i] })
    }
}

/// Remove one trailing carriage return, if present.
fn strip_cr_exec(l: &String) -> (r: String)
    ensures
        r@ == strip_cr(l@),
{
    let n: usize = l.as_str().unicode_len();
    if n > 0 && l.as_str().get_char(n - 1) == '\r' {
        let cut = l.as_str().substring_char(0, n - 1);
        let r = cut.to_owned();
        proof {
            assert(r@ =~= strip_cr(l@));
        }
        r
    } else {
        l.clone()
    }
}

/// Split `s` into lines.
pub fn split_lines(s: &str) -> (r: Vec<String>)
    ensures
        r.deep_view() == lines_of(s@),
{
    let fields = split_str(s, '\n');
    proof {
        lemma_split_at_sep_len(s@, '\n');
    }
    let m: usize = fields.len();
    let last_empty: bool = fields[m - 1].as_str().unicode_len() == 0;
    let keep: usize = if last_empty {
        m - 1
    } else {
        m
    };
    let mut r: Vec<String> = Vec::new();
    let mut i: usize = 0;
    while i < keep
        invariant
            fields.deep_view() == split_at_sep(s@, '\n'),
            fields.len() == m,
            m >= 1,
            keep <= m,
            last_empty == (fields.deep_view()[m as int - 1].len() == 0),
            keep as int == if last_empty {
                m as int - 1
            } else {
                m as int
            },
            i <= keep,
            r.len() == i,
            forall|k: int|
                0 <= k < i ==> r.deep_view()[k] == (if k < keep as int - 1 || last_empty {
                    strip_cr(fields.deep_view()[k])
                } else {
                    fields.deep_view()[k]
                }),
        decreases keep - i,
    {
        let ghost done = r.deep_view();
        if i < keep - 1 || last_empty {
            let f = strip_cr_exec(&fields[i]);
            proof {
                assert(f@ == strip_cr(fields.deep_view()[i as int]));
            }
            r.push(f);
            proof {
                assert(r.deep_view() =~= done.push(strip_cr(fields.deep_view()[i as int])));
            }
        } else {
            let f = fields[i].clone();
            r.push(f);
            proof {
                assert(r.deep_view() =~= done.push(fields.deep_view()[i as int]));
            }
        }
        i = i + 1;
    }
    proof {
        assert(r.deep_view() =~= lines_of(s@));
    }
    r
}

/// `needle` occurs in `hay` starting at index `i`.
pub open spec fn occurs_at(hay: Seq<char>, needle: Seq<char>, i: int) -> bool {
    0 <= i && i + needle.len() <= hay.len() && hay.subrange(i, i + needle.len() as int) == needle
}

/// Case-sensitive substring containment: `needle` occurs somewhere in `hay`.
pub open spec fn contains_seq(hay: Seq<char>, needle: Seq<char>) -> bool {
    exists|i: int| occurs_at(hay, needle, i)
}

/// Substring search, character by character.
pub fn contains_str(hay: &str, needle: &str) -> (r: bool)
    ensures
        r == contains_seq(hay@, needle@),
{
    let n: usize = hay.unicode_len();
    let m: usize = needle.unicode_len();
    if m > n {
        proof {
            assert forall|i: int| !occurs_at(hay@, needle@, i) by {}
        }
        return false;
    }
    if m == 0 {
        proof {
            assert(hay@.subrange(0, 0) =~= needle@);
            assert(occurs_at(hay@, needle@, 0));
        }
        return true;
    }
    let mut i: usize = 0;
    while i <= n - m
        invariant
            n == hay@.len(),
            m == needle@.len(),
            1 <= m <= n,
            i <= n - m + 1,
            forall|k: int| 0 <= k < i ==> !occurs_at(hay@, needle@, k),
        decreases n - m + 1 - i,
    {
        let mut j: usize = 0;
        let mut hit: bool = true;
        while j < m
            invariant
                n == hay@.len(),
                m == needle@.len(),
                i + m <= n,
                j <= m,
                hit ==> hay@.subrange(i as int, i + j) == needle@.take(j as int),
                !hit ==> !occurs_at(hay@, needle@, i as int),
            decreases m - j,
        {
            if hit {
                if hay.get_char(i + j) != needle.get_char(j) {
                    proof {
                        if occurs_at(hay@, needle@, i as int) {
                            assert(hay@.subrange(i as int, i + m as int) == needle@);
                            assert(needle@[j as int] == hay@.subrange(i as int, i + m as int)[
                                j as int
                            ]);
                            assert(needle@[j as int] == hay@[i + j]);
                        }
                    }
                    hit = false;
                } else {
                    proof {
                        assert(hay@.subrange(i as int, i + j + 1) =~= needle@.take(j + 1));
                    }
                }
            }
            j = j + 1;
        }
        if hit {
            proof {
                assert(hay@.subrange(i as int, i + m as int) =~= needle@);
                assert(occurs_at(hay@, needle@, i as int));
            }
            return true;
        }
        i = i + 1;
    }
    proof {
        assert forall|k: int| !occurs_at(hay@, needle@, k) by {
            if 0 <= k <= n - m {
                assert(!occurs_at(hay@, needle@, k));
            }
        }
    }
    false
}

/// A character the protocol treats as trailing whitespace.
pub open spec fn is_ws(c: char) -> bool {
    c == ' ' || c == '\t' || c == '\n' || c == '\r'
}

/// `s` with every trailing whitespace character removed.
pub open spec fn trim_end_ws(s: Seq<char>) -> Seq<char>
    decreases s.len(),
{
    if s.len() > 0 && is_ws(s.last()) {
        trim_end_ws(s.drop_last())
    } else {
        s
    }
}

/// Trim trailing whitespace.
pub fn trim_end(s: &str) -> (r: String)
    ensures
        r@ == trim_end_ws(s@),
{
    let n: usize = s.unicode_len();
    let mut k: usize = n;
    let mut done: bool = false;
    proof {
        assert(s@.take(n as int) =~= s@);
    }
    while !done
        invariant
            n == s@.len(),
            k <= n,
            trim_end_ws(s@) == trim_end_ws(s@.take(k as int)),
            done ==> (k == 0 || !is_ws(s@[k as int - 1])),
        decreases (if done {
            0int
        } else {
            k + 1int
        }),
    {
        if k == 0 {
            done = true;
        } else {
            let c = s.get_char(k - 1);
            if c == ' ' || c == '\t' || c == '\n' || c == '\r' {
                proof {
                    assert(s@.take(k as int).last() == s@[k as int - 1]);
                    assert(s@.take(k as int).drop_last() =~= s@.take(k as int - 1));
                }
                k = k - 1;
            } else {
                done = true;
            }
        }
    }
    let cut = s.substring_char(0, k);
    let r = cut.to_owned();
    proof {
        if k > 0 {
            assert(!is_ws(s@.take(k as int)[k as int - 1]));
        }
        assert(trim_end_ws(s@.take(k as int)) == s@.take(k as int));
        assert(r@ =~= trim_end_ws(s@));
    }
    r
}

} // verus!
