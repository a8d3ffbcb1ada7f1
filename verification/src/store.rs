//! The keyed candidate store: an immutable dictionary mapping a lookup key to
//! the candidate entries for it, built once from a line-oriented text
//! resource and never mutated afterwards.
//!
//! The backing table is ahash's hash map; the parsing and merge rules around
//! it are verified against a line-by-line specification.

use vstd::prelude::*;

verus! {

use crate::text::lines_of;
use crate::text::split_at_sep;
use crate::text::split_lines;
use crate::text::split_str;
use vstd::string::StrSliceExecFns;

/// One candidate offered for selection: the string handed back on commit and
/// the human-readable annotation shown alongside it.
#[derive(Debug)]
pub struct CandidateEntry {
    pub value: String,
    pub description: String,
}

impl View for CandidateEntry {
    type V = (Seq<char>, Seq<char>);

    open spec fn view(&self) -> (Seq<char>, Seq<char>) {
        (self.value@, self.description@)
    }
}

impl DeepView for CandidateEntry {
    type V = (Seq<char>, Seq<char>);

    open spec fn deep_view(&self) -> (Seq<char>, Seq<char>) {
        self.view()
    }
}

/// The backing table's shape: each key's entry list as `(value, description)`
/// string pairs.
pub type EntryTable = ahash::AHashMap<String, Vec<(String, String)>>;

/// ahash's hasher state, the table's default hasher, declared for Verus.
#[verifier::external_type_specification]
#[verifier::external_body]
pub struct ExAHashRandomState(ahash::RandomState);

/// ahash's hash map, the keyed store's backing table, declared for Verus.
#[verifier::external_type_specification]
#[verifier::external_body]
#[verifier::reject_recursive_types(K)]
#[verifier::reject_recursive_types(V)]
#[verifier::reject_recursive_types(S)]
pub struct ExAHashMap<K, V, S>(ahash::AHashMap<K, V, S>);

/// What the backing table holds: each key's entry list, keys compared as
/// character sequences.
pub uninterp spec fn dict_map(m: EntryTable) -> Map<Seq<char>, Seq<(Seq<char>, Seq<char>)>>;

/// The empty table contents.
pub open spec fn empty_table() -> Map<Seq<char>, Seq<(Seq<char>, Seq<char>)>> {
    Map::empty()
}

/// Relies on ahash::AHashMap::new: creates an empty map.
#[verifier::external_body]
fn dict_new() -> (m: EntryTable)
    ensures
        dict_map(m) == empty_table(),
{
    ahash::AHashMap::new()
}

/// Relies on ahash::AHashMap::remove: takes the key's entry out of the map
/// and returns its value, or returns `None` when the key is absent.
#[verifier::external_body]
fn dict_remove(m: &mut EntryTable, key: &str) -> (r: Option<Vec<(String, String)>>)
    ensures
        dict_map(*final (m)) == dict_map(*old(m)).remove(key@),
        match r {
            Some(v) => dict_map(*old(m)).contains_key(key@) && v.deep_view() == dict_map(*old(m))[
                key@
            ],
            None => !dict_map(*old(m)).contains_key(key@),
        },
{
    m.remove(key)
}

/// Relies on ahash::AHashMap::insert: maps the key to the given value.
#[verifier::external_body]
fn dict_insert(m: &mut EntryTable, key: String, val: Vec<(String, String)>)
    ensures
        dict_map(*final (m)) == dict_map(*old(m)).insert(key@, val.deep_view()),
{
    m.insert(key, val);
}

/// Relies on ahash::AHashMap::get: returns a reference to the value for the
/// key, or `None` when the key is absent.
#[verifier::external_body]
fn dict_get<'a>(m: &'a EntryTable, key: &str) -> (r: Option<&'a Vec<(String, String)>>)
    ensures
        match r {
            Some(v) => dict_map(*m).contains_key(key@) && v.deep_view() == dict_map(*m)[key@],
            None => !dict_map(*m).contains_key(key@),
        },
{
    m.get(key)
}

/// The parse of one dictionary line. A line starting with `#` is a comment;
/// a line that does not split into exactly three colon fields is malformed;
/// a line whose third field is empty is unused. All three kinds are skipped.
/// Any other line contributes the entry `(value, description)` under `key`.
pub open spec fn parse_line(l: Seq<char>) -> Option<(Seq<char>, (Seq<char>, Seq<char>))> {
    if l.len() > 0 && l[0] == '#' {
        None
    } else {
        let f = split_at_sep(l, ':');
        if f.len() == 3 && f[2].len() > 0 {
            Some((f[0], (f[1], f[2])))
        } else {
            None
        }
    }
}

/// The keyed store built from the given lines: entries accumulate per key in
/// file order; skipped lines contribute nothing.
pub open spec fn parse_dict(lines: Seq<Seq<char>>) -> Map<Seq<char>, Seq<(Seq<char>, Seq<char>)>>
    decreases lines.len(),
{
    if lines.len() == 0 {
        Map::empty()
    } else {
        let m = parse_dict(lines.drop_last());
        match parse_line(lines.last()) {
            Some(ke) => {
                let prev = if m.contains_key(ke.0) {
                    m[ke.0]
                } else {
                    Seq::empty()
                };
                m.insert(ke.0, prev.push(ke.1))
            },
            None => m,
        }
    }
}

/// The entries that the given lines contribute for key `k`, in file order.
pub open spec fn entries_for(lines: Seq<Seq<char>>, k: Seq<char>) -> Seq<(Seq<char>, Seq<char>)>
    decreases lines.len(),
{
    if lines.len() == 0 {
        Seq::empty()
    } else {
        let rest = entries_for(lines.drop_last(), k);
        match parse_line(lines.last()) {
            Some(ke) => if ke.0 == k {
                rest.push(ke.1)
            } else {
                rest
            },
            None => rest,
        }
    }
}

/// Law: the keyed store holds a key exactly when some well-formed line uses
/// it, and then holds exactly those lines' `(value, description)` entries in
/// file order. Comment lines, malformed lines and lines with an empty
/// description never produce an entry.
pub proof fn lemma_store_entries(lines: Seq<Seq<char>>, k: Seq<char>)
    ensures
        parse_dict(lines).contains_key(k) <==> entries_for(lines, k).len() > 0,
        parse_dict(lines).contains_key(k) ==> parse_dict(lines)[k] == entries_for(lines, k),
    decreases lines.len(),
{
    if lines.len() == 0 {
    } else {
        lemma_store_entries(lines.drop_last(), k);
        let m = parse_dict(lines.drop_last());
        match parse_line(lines.last()) {
            Some(ke) => {
                if ke.0 == k {
                    if !m.contains_key(k) {
                        assert(entries_for(lines.drop_last(), k) =~= Seq::empty());
                    }
                } else {
                }
            },
            None => {},
        }
    }
}

/// Parse one dictionary line.
pub fn parse_line_exec(l: &str) -> (r: Option<(String, String, String)>)
    ensures
        match r {
            Some(kvd) => parse_line(l@) == Some((kvd.0@, (kvd.1@, kvd.2@))),
            None => parse_line(l@) is None,
        },
{
    if l.unicode_len() > 0 && l.get_char(0) == '#' {
        return None;
    }
    let mut f = split_str(l, ':');
    if f.len() != 3 {
        return None;
    }
    let d = f.pop().unwrap();
    let v = f.pop().unwrap();
    let k = f.pop().unwrap();
    proof {
        assert(d@ == split_at_sep(l@, ':')[2]);
        assert(v@ == split_at_sep(l@, ':')[1]);
        assert(k@ == split_at_sep(l@, ':')[0]);
    }
    if d.as_str().unicode_len() == 0 {
        return None;
    }
    Some((k, v, d))
}

/// The keyed store: lookup key to candidate entries, immutable once built.
pub struct KeyedStore {
    map: EntryTable,
}

impl View for KeyedStore {
    type V = Map<Seq<char>, Seq<(Seq<char>, Seq<char>)>>;

    closed spec fn view(&self) -> Map<Seq<char>, Seq<(Seq<char>, Seq<char>)>> {
        dict_map(self.map)
    }
}

impl KeyedStore {
    /// Build the store from the dictionary text, applying the line rules in
    /// file order.
    pub fn load(text: &str) -> (s: KeyedStore)
        ensures
            s@ == parse_dict(lines_of(text@)),
    {
        let lines = split_lines(text);
        let ghost lns = lines.deep_view();
        let mut map = dict_new();
        let mut i: usize = 0;
        proof {
            assert(lns.take(0) =~= Seq::<Seq<char>>::empty());
        }
        while i < lines.len()
            invariant
                lns == lines.deep_view(),
                lns == lines_of(text@),
                i <= lines.len(),
                dict_map(map) == parse_dict(lns.take(i as int)),
            decreases lines.len() - i,
        {
            let ghost pre = dict_map(map);
            match parse_line_exec(lines[i].as_str()) {
                Some(kvd) => {
                    let (k, v, d) = kvd;
                    let mut prev: Vec<(String, String)> = match dict_remove(&mut map, k.as_str()) {
                        Some(ev) => ev,
                        None => Vec::new(),
                    };
                    let ghost prev_view = prev.deep_view();
                    prev.push((v, d));
                    proof {
                        assert(prev.deep_view() =~= prev_view.push((kvd.1@, kvd.2@)));
                        if !pre.contains_key(kvd.0@) {
                            assert(prev_view =~= Seq::<(Seq<char>, Seq<char>)>::empty());
                        }
                    }
                    dict_insert(&mut map, k, prev);
                    proof {
                        assert(lns.take(i + 1).drop_last() =~= lns.take(i as int));
                        assert(lns.take(i + 1).last() == lns[i as int]);
                        assert(dict_map(map) =~= parse_dict(lns.take(i + 1)));
                    }
                },
                None => {
                    proof {
                        assert(lns.take(i + 1).drop_last() =~= lns.take(i as int));
                        assert(lns.take(i + 1).last() == lns[i as int]);
                        assert(dict_map(map) =~= parse_dict(lns.take(i + 1)));
                    }
                },
            }
            i = i + 1;
        }
        proof {
            assert(lns.take(lns.len() as int) =~= lns);
        }
        KeyedStore { map }
    }

    /// Look a key up: the candidate entries for it, in file order, or `None`
    /// when the key is absent.
    pub fn lookup(&self, key: &str) -> (r: Option<Vec<CandidateEntry>>)
        ensures
            match r {
                Some(v) => self@.contains_key(key@) && v.deep_view() == self@[key@],
                None => !self@.contains_key(key@),
            },
    {
        match dict_get(&self.map, key) {
            Some(entries) => {
                let mut out: Vec<CandidateEntry> = Vec::new();
                let mut i: usize = 0;
                while i < entries.len()
                    invariant
                        i <= entries.len(),
                        out.deep_view() == entries.deep_view().take(i as int),
                    decreases entries.len() - i,
                {
                    let ghost pre = out.deep_view();
                    let value = entries[i].0.clone();
                    let description = entries[i].1.clone();
                    out.push(CandidateEntry { value, description });
                    proof {
                        assert(out.deep_view() =~= pre.push(entries.deep_view()[i as int]));
                        assert(out.deep_view() =~= entries.deep_view().take(i + 1));
                    }
                    i = i + 1;
                }
                proof {
                    assert(entries.deep_view().take(entries@.len() as int) =~= entries.deep_view());
                }
                Some(out)
            },
            None => None,
        }
    }
}

} // verus!
