//! The flat candidate store: the emoji table, one entry per distinct
//! codepoint key in ascending key order, built by merging annotation texts
//! left to right over the input.

use vstd::prelude::*;

verus! {

use crate::store::CandidateEntry;
use vstd::string::StrSliceExecFns;
use vstd::string::StringExecFns;

/// One merge step: a later annotation text wraps whatever was accumulated so
/// far, unless nothing was.
pub open spec fn merge_step(acc: Seq<char>, t: Seq<char>) -> Seq<char> {
    if acc.len() == 0 {
        t
    } else {
        t + seq![' ', '('] + acc + seq![')']
    }
}

/// The merged description after the given annotation texts, applied in order.
pub open spec fn merged_desc(texts: Seq<Seq<char>>) -> Seq<char>
    decreases texts.len(),
{
    if texts.len() == 0 {
        Seq::empty()
    } else {
        merge_step(merged_desc(texts.drop_last()), texts.last())
    }
}

/// The annotation texts that the input holds for key `k`, in input order.
pub open spec fn texts_for(pairs: Seq<(Seq<char>, Seq<char>)>, k: Seq<char>) -> Seq<Seq<char>>
    decreases pairs.len(),
{
    if pairs.len() == 0 {
        Seq::empty()
    } else {
        let rest = texts_for(pairs.drop_last(), k);
        if pairs.last().0 == k {
            rest.push(pairs.last().1)
        } else {
            rest
        }
    }
}

pub proof fn lemma_texts_for_push(
    pairs: Seq<(Seq<char>, Seq<char>)>,
    p: (Seq<char>, Seq<char>),
    k: Seq<char>,
)
    ensures
        texts_for(pairs.push(p), k) == if p.0 == k {
            texts_for(pairs, k).push(p.1)
        } else {
            texts_for(pairs, k)
        },
{
    assert(pairs.push(p).drop_last() =~= pairs);
    assert(pairs.push(p).last() == p);
}

/// Law: a second annotation text for the same key wraps the first in
/// parentheses, and a third wraps that result again.
pub proof fn lemma_merge_wraps(d1: Seq<char>, d2: Seq<char>, d3: Seq<char>)
    requires
        d1.len() > 0,
    ensures
        merged_desc(seq![d1, d2]) == d2 + seq![' ', '('] + d1 + seq![')'],
        merged_desc(seq![d1, d2, d3]) == d3 + seq![' ', '('] + (d2 + seq![' ', '('] + d1 + seq![
            ')',
        ]) + seq![')'],
{
    let two = seq![d1, d2];
    assert(two.drop_last() =~= seq![d1]);
    assert(seq![d1].drop_last() =~= Seq::<Seq<char>>::empty());
    assert(merged_desc(seq![d1]) == merge_step(merged_desc(Seq::<Seq<char>>::empty()), d1));
    assert(merged_desc(seq![d1]) == d1);
    assert(merged_desc(two) == merge_step(d1, d2));
    let three = seq![d1, d2, d3];
    assert(three.drop_last() =~= two);
    assert(merged_desc(three) == merge_step(merged_desc(two), d3));
    assert(merge_step(d1, d2).len() > 0);
}

/// Strict lexicographic order on character sequences, by Unicode scalar
/// value.
pub open spec fn lex_lt(a: Seq<char>, b: Seq<char>) -> bool
    decreases a.len(),
{
    if b.len() == 0 {
        false
    } else if a.len() == 0 {
        true
    } else if (a[0] as u32) < (b[0] as u32) {
        true
    } else if a[0] == b[0] {
        lex_lt(a.skip(1), b.skip(1))
    } else {
        false
    }
}

pub proof fn lemma_lex_irrefl(a: Seq<char>)
    ensures
        !lex_lt(a, a),
    decreases a.len(),
{
    if a.len() > 0 {
        lemma_lex_irrefl(a.skip(1));
    }
}

/// Any two keys are ordered one way or the other, or are equal.
pub proof fn lemma_lex_total(a: Seq<char>, b: Seq<char>)
    ensures
        lex_lt(a, b) || lex_lt(b, a) || a == b,
    decreases a.len(),
{
    if b.len() == 0 {
        if a.len() == 0 {
            assert(a =~= b);
        }
    } else if a.len() == 0 {
    } else if (a[0] as u32) < (b[0] as u32) {
    } else if a[0] == b[0] {
        lemma_lex_total(a.skip(1), b.skip(1));
        if a.skip(1) == b.skip(1) {
            assert(a.skip(1).len() == a.len() - 1);
            assert(b.skip(1).len() == b.len() - 1);
            assert(a.len() == b.len());
            assert forall|i: int| 0 <= i < a.len() implies a[i] == b[i] by {
                if i > 0 {
                    assert(a.skip(1)[i - 1] == a[i]);
                    assert(b.skip(1)[i - 1] == b[i]);
                }
            }
            assert(a =~= b);
        }
    } else {
        if (a[0] as u32) == (b[0] as u32) {
            vstd::utf8::char_u32_cast(a[0], a[0] as u32);
            vstd::utf8::char_u32_cast(b[0], b[0] as u32);
            assert(false);
        }
        assert((b[0] as u32) < (a[0] as u32));
    }
}

pub proof fn lemma_lex_trans(a: Seq<char>, b: Seq<char>, c: Seq<char>)
    requires
        lex_lt(a, b),
        lex_lt(b, c),
    ensures
        lex_lt(a, c),
    decreases a.len(),
{
    if a.len() == 0 {
    } else if b.len() == 0 {
    } else if c.len() == 0 {
    } else {
        if a[0] == b[0] && b[0] == c[0] {
            lemma_lex_trans(a.skip(1), b.skip(1), c.skip(1));
        }
    }
}

/// Compare two keys lexicographically.
fn key_lt(a: &str, b: &str) -> (r: bool)
    ensures
        r == lex_lt(a@, b@),
{
    let na: usize = a.unicode_len();
    let nb: usize = b.unicode_len();
    let mut i: usize = 0;
    proof {
        assert(a@.skip(0) =~= a@);
        assert(b@.skip(0) =~= b@);
    }
    loop
        invariant
            na == a@.len(),
            nb == b@.len(),
            i <= na,
            i <= nb,
            lex_lt(a@, b@) == lex_lt(a@.skip(i as int), b@.skip(i as int)),
        decreases na - i,
    {
        if i == nb {
            proof {
                assert(b@.skip(i as int).len() == 0);
            }
            return false;
        }
        if i == na {
            proof {
                assert(a@.skip(i as int).len() == 0);
                assert(b@.skip(i as int).len() > 0);
            }
            return true;
        }
        let ca = a.get_char(i);
        let cb = b.get_char(i);
        proof {
            assert(a@.skip(i as int)[0] == a@[i as int]);
            assert(b@.skip(i as int)[0] == b@[i as int]);
        }
        if (ca as u32) < (cb as u32) {
            return true;
        }
        if ca != cb {
            proof {
                if (ca as u32) == (cb as u32) {
                    vstd::utf8::char_u32_cast(ca, ca as u32);
                    vstd::utf8::char_u32_cast(cb, cb as u32);
                    assert(false);
                }
            }
            return false;
        }
        proof {
            assert(a@.skip(i as int).skip(1) =~= a@.skip(i + 1));
            assert(b@.skip(i as int).skip(1) =~= b@.skip(i + 1));
        }
        i = i + 1;
    }
}

/// One merge step.
fn merge_step_exec(acc: &str, t: &str) -> (r: String)
    ensures
        r@ == merge_step(acc@, t@),
{
    if acc.unicode_len() == 0 {
        t.to_owned()
    } else {
        let mut r = t.to_owned();
        r.append(" (");
        r.append(acc);
        r.append(")");
        proof {
            reveal_strlit(" (");
            reveal_strlit(")");
            assert(" ("@ =~= seq![' ', '(']);
            assert(")"@ =~= seq![')']);
            assert(r@ =~= merge_step(acc@, t@));
        }
        r
    }
}

/// The flat-store output contract: ascending key order, one entry per
/// distinct input key, each description the left-to-right merge of that
/// key's texts.
pub open spec fn merged_table_ok(
    pairs: Seq<(Seq<char>, Seq<char>)>,
    out: Seq<(Seq<char>, Seq<char>)>,
) -> bool {
    &&& forall|i: int, j: int| 0 <= i < j < out.len() ==> lex_lt(out[i].0, out[j].0)
    &&& forall|i: int|
        0 <= i < out.len() ==> texts_for(pairs, #[trigger] out[i].0).len() > 0 && out[i].1
            == merged_desc(texts_for(pairs, out[i].0))
    &&& forall|k: Seq<char>|
        texts_for(pairs, k).len() > 0 ==> exists|i: int| 0 <= i < out.len() && (#[trigger] out[i].0)
            == k
}

/// Build the flat store from `(codepoint, annotation text)` pairs by the
/// merge rule, one entry per distinct key, in ascending key order.
pub fn merge_annotations(pairs: &Vec<(String, String)>) -> (out: Vec<CandidateEntry>)
    ensures
        merged_table_ok(pairs.deep_view(), out.deep_view()),
{
    let ghost ps = pairs.deep_view();
    let mut out: Vec<CandidateEntry> = Vec::new();
    let mut p: usize = 0;
    proof {
        assert(ps.take(0) =~= Seq::<(Seq<char>, Seq<char>)>::empty());
    }
    while p < pairs.len()
        invariant
            ps == pairs.deep_view(),
            p <= pairs.len(),
            merged_table_ok(ps.take(p as int), out.deep_view()),
        decreases pairs.len() - p,
    {
        let ghost pre = ps.take(p as int);
        let ghost post = ps.take(p + 1);
        let ghost ov = out.deep_view();
        proof {
            assert(post.drop_last() =~= pre);
            assert(post =~= pre.push(ps[p as int]));
            assert forall|k: Seq<char>| true implies texts_for(post, k) == (if ps[p as int].0 == k {
                texts_for(pre, k).push(ps[p as int].1)
            } else {
                texts_for(pre, k)
            }) by {
                lemma_texts_for_push(pre, ps[p as int], k);
            }
        }
        let key = &pairs[p].0;
        let text = &pairs[p].1;
        let mut j: usize = 0;
        let mut go: bool = j < out.len() && key_lt(out[j].value.as_str(), key.as_str());
        while go
            invariant
                ov == out.deep_view(),
                j <= out.len(),
                go == (j < out.len() && lex_lt(ov[j as int].0, key@)),
                forall|i: int| 0 <= i < j ==> lex_lt(ov[i].0, key@),
            decreases out.len() - j + (if go {
                1int
            } else {
                0int
            }),
        {
            j = j + 1;
            go = j < out.len() && key_lt(out[j].value.as_str(), key.as_str());
        }
        let hit: bool = if j < out.len() {
            let ke: &String = &out[j].value;
            ke.eq(key)
        } else {
            false
        };
        proof {
            if j < ov.len() {
                lemma_lex_total(ov[j as int].0, key@);
                if !hit {
                    assert(ov[j as int].0 != key@);
                    assert(lex_lt(key@, ov[j as int].0));
                }
            }
        }
        if hit {
            // same key seen before: wrap the accumulated description
            let old_entry = out.remove(j);
            let merged = merge_step_exec(old_entry.description.as_str(), text.as_str());
            let new_entry = CandidateEntry { value: old_entry.value, description: merged };
            out.insert(j, new_entry);
            proof {
                let k0 = ov[j as int].0;
                assert(k0 == key@);
                let nv = out.deep_view();
                assert(nv =~= ov.update(j as int, (k0, merge_step(ov[j as int].1, ps[p as int].1))));
                let tp = texts_for(pre, k0).push(ps[p as int].1);
                assert(texts_for(post, k0) == tp);
                assert(tp.drop_last() =~= texts_for(pre, k0));
                assert(tp.last() == ps[p as int].1);
                assert(merged_desc(tp) == merge_step(merged_desc(texts_for(pre, k0)), ps[
                    p as int
                ].1));
                assert forall|a: int, b: int| 0 <= a < b < nv.len() implies lex_lt(
                    nv[a].0,
                    nv[b].0,
                ) by {
                    assert(nv[a].0 == ov[a].0);
                    assert(nv[b].0 == ov[b].0);
                }
                assert forall|i: int|
                    0 <= i < nv.len() implies texts_for(post, #[trigger] nv[i].0).len() > 0
                    && nv[i].1 == merged_desc(texts_for(post, nv[i].0)) by {
                    if i != j {
                        assert(nv[i] == ov[i]);
                        if ov[i].0 == key@ {
                            // two distinct slots cannot hold the same key
                            if i < j {
                                assert(lex_lt(ov[i].0, ov[j as int].0));
                            } else {
                                assert(lex_lt(ov[j as int].0, ov[i].0));
                            }
                            lemma_lex_irrefl(ov[j as int].0);
                            assert(false);
                        }
                        assert(texts_for(post, ov[i].0) == texts_for(pre, ov[i].0));
                    } else {
                        assert(nv[i].0 == k0);
                        assert(nv[i].1 == merge_step(ov[j as int].1, ps[p as int].1));
                    }
                }
                assert forall|k: Seq<char>| texts_for(post, k).len() > 0 implies exists|i: int|
                    0 <= i < nv.len() && (#[trigger] nv[i].0) == k by {
                    if k == key@ {
                        assert(nv[j as int].0 == k);
                    } else {
                        assert(texts_for(post, k) == texts_for(pre, k));
                        let w = choose|i: int| 0 <= i < ov.len() && (#[trigger] ov[i].0) == k;
                        assert(0 <= w < ov.len() && ov[w].0 == k);
                        assert(nv[w].0 == k);
                    }
                }
                assert(merged_table_ok(post, out.deep_view()));
            }
        } else {
            // first occurrence of this key: it starts a fresh entry
            proof {
                // the key occurs nowhere in `out`
                assert forall|i: int| 0 <= i < ov.len() implies ov[i].0 != key@ by {
                    if i < j {
                        lemma_lex_irrefl(key@);
                    } else if i == j {
                    } else {
                        lemma_lex_trans(key@, ov[j as int].0, ov[i].0);
                        lemma_lex_irrefl(key@);
                    }
                }
                if texts_for(pre, key@).len() > 0 {
                    let w = choose|i: int| 0 <= i < ov.len() && (#[trigger] ov[i].0) == key@;
                    assert(0 <= w < ov.len() && ov[w].0 == key@);
                    assert(false);
                }
                assert(texts_for(pre, key@) =~= Seq::<Seq<char>>::empty());
                let tp = texts_for(post, key@);
                assert(tp == texts_for(pre, key@).push(ps[p as int].1));
                assert(tp.len() == 1);
                assert(tp.last() == ps[p as int].1);
                assert(tp.drop_last() =~= Seq::<Seq<char>>::empty());
                assert(merged_desc(tp.drop_last()).len() == 0);
                assert(merged_desc(tp) == merge_step(merged_desc(tp.drop_last()), tp.last()));
                assert(merged_desc(texts_for(post, key@)) == ps[p as int].1);
            }
            let new_entry = CandidateEntry { value: key.clone(), description: text.clone() };
            out.insert(j, new_entry);
            proof {
                assert(out.deep_view() =~= ov.insert(j as int, (key@, ps[p as int].1)));
                let nv = out.deep_view();
                assert forall|a: int, b: int| 0 <= a < b < nv.len() implies lex_lt(
                    nv[a].0,
                    nv[b].0,
                ) by {
                    if a < j && b == j {
                    } else if a == j && b > j {
                        if b - 1 > j {
                            lemma_lex_trans(key@, ov[j as int].0, ov[b - 1].0);
                        }
                    } else if a < j && b > j {
                        assert(nv[a].0 == ov[a].0);
                        assert(nv[b].0 == ov[b - 1].0);
                    }
                }
                assert forall|i: int|
                    0 <= i < nv.len() implies texts_for(post, #[trigger] nv[i].0).len() > 0
                    && nv[i].1 == merged_desc(texts_for(post, nv[i].0)) by {
                    if i != j {
                        let i0 = if i < j {
                            i
                        } else {
                            i - 1
                        };
                        assert(nv[i] == ov[i0]);
                        if ov[i0].0 == key@ {
                            assert(false);
                        }
                    }
                }
                assert forall|k: Seq<char>| texts_for(post, k).len() > 0 implies exists|i: int|
                    0 <= i < nv.len() && (#[trigger] nv[i].0) == k by {
                    if k == key@ {
                        assert(nv[j as int].0 == k);
                    } else {
                        assert(texts_for(pre, k).len() > 0);
                        let w = choose|i: int| 0 <= i < ov.len() && (#[trigger] ov[i].0) == k;
                        if w < j {
                            assert(nv[w].0 == k);
                        } else {
                            assert(nv[w + 1].0 == k);
                        }
                    }
                }
                assert(merged_table_ok(post, out.deep_view()));
            }
        }
        p = p + 1;
    }
    proof {
        assert(ps.take(ps.len() as int) =~= ps);
    }
    out
}

} // verus!
