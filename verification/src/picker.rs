//! The picker session: one interactive filter-and-select exchange over a
//! candidate list. The interactive actor narrows the list by live substring
//! filtering and commits exactly one visible row, or cancels.

use vstd::prelude::*;

verus! {

use crate::store::CandidateEntry;
use crate::text::contains_seq;
use crate::text::contains_str;
use vstd::string::StringExecFns;

/// The label shown for a candidate: `value: description`.
pub open spec fn label_view(e: (Seq<char>, Seq<char>)) -> Seq<char> {
    e.0 + seq![':', ' '] + e.1
}

/// A candidate is visible under a filter exactly when the filter text occurs
/// in its label, case-sensitively.
pub open spec fn entry_matches(e: (Seq<char>, Seq<char>), filter: Seq<char>) -> bool {
    contains_seq(label_view(e), filter)
}

/// Render the label for one candidate.
pub fn label_of(e: &CandidateEntry) -> (r: String)
    ensures
        r@ == label_view(e@),
{
    let mut r = e.value.clone();
    r.append(": ");
    r.append(e.description.as_str());
    proof {
        reveal_strlit(": ");
        assert(": "@ =~= seq![':', ' ']);
        assert(r@ =~= label_view(e@));
    }
    r
}

/// Copy a candidate list, entry by entry.
pub fn clone_entries(v: &Vec<CandidateEntry>) -> (r: Vec<CandidateEntry>)
    ensures
        r.deep_view() == v.deep_view(),
{
    let mut r: Vec<CandidateEntry> = Vec::new();
    let mut i: usize = 0;
    while i < v.len()
        invariant
            i <= v.len(),
            r.deep_view() == v.deep_view().take(i as int),
        decreases v.len() - i,
    {
        let ghost pre = r.deep_view();
        let value = v[i].value.clone();
        let description = v[i].description.clone();
        r.push(CandidateEntry { value, description });
        proof {
            assert(r.deep_view() =~= pre.push(v.deep_view()[i as int]));
            assert(r.deep_view() =~= v.deep_view().take(i + 1));
        }
        i = i + 1;
    }
    proof {
        assert(v.deep_view().take(v@.len() as int) =~= v.deep_view());
    }
    r
}

/// One filter-and-select session: the candidate list it was invoked over and
/// the live filter text. At most one session is active at a time; the
/// dispatcher enforces that.
pub struct PickerSession {
    pub candidates: Vec<CandidateEntry>,
    pub filter: String,
}

impl PickerSession {
    /// Start a session over the given candidates with the given initial
    /// filter text (empty for list-style invocations).
    pub fn new(candidates: Vec<CandidateEntry>, initial_filter: String) -> (s: Self)
        ensures
            s.candidates == candidates,
            s.filter == initial_filter,
    {
        PickerSession { candidates, filter: initial_filter }
    }

    /// The search box changed: replace the filter text.
    pub fn set_filter(&mut self, text: String)
        ensures
            final (self).candidates == old(self).candidates,
            final (self).filter == text,
    {
        self.filter = text;
    }

    /// Is row `i` visible under the current filter?
    pub fn row_visible(&self, i: usize) -> (r: bool)
        requires
            i < self.candidates@.len(),
        ensures
            r == entry_matches(self.candidates.deep_view()[i as int], self.filter@),
    {
        let label = label_of(&self.candidates[i]);
        contains_str(label.as_str(), self.filter.as_str())
    }

    /// The indices of the visible rows, in ascending order: exactly those
    /// whose label contains the filter text.
    pub fn visible_rows(&self) -> (r: Vec<usize>)
        ensures
            forall|a: int, b: int| 0 <= a < b < r@.len() ==> r@[a] < r@[b],
            forall|a: int|
                0 <= a < r@.len() ==> r@[a] < self.candidates@.len() && entry_matches(
                    self.candidates.deep_view()[r@[a] as int],
                    self.filter@,
                ),
            forall|i: int|
                0 <= i < self.candidates@.len() && entry_matches(
                    self.candidates.deep_view()[i],
                    self.filter@,
                ) ==> exists|a: int| 0 <= a < r@.len() && r@[a] == i,
    {
        let mut r: Vec<usize> = Vec::new();
        let mut i: usize = 0;
        while i < self.candidates.len()
            invariant
                i <= self.candidates@.len(),
                forall|a: int, b: int| 0 <= a < b < r@.len() ==> r@[a] < r@[b],
                forall|a: int| 0 <= a < r@.len() ==> r@[a] < i,
                forall|a: int|
                    0 <= a < r@.len() ==> entry_matches(
                        self.candidates.deep_view()[r@[a] as int],
                        self.filter@,
                    ),
                forall|k: int|
                    0 <= k < i && entry_matches(self.candidates.deep_view()[k], self.filter@)
                        ==> exists|a: int| 0 <= a < r@.len() && r@[a] == k,
            decreases self.candidates@.len() - i,
        {
            if self.row_visible(i) {
                let ghost pre = r@;
                r.push(i);
                proof {
                    assert(r@ == pre.push(i));
                    assert(r@[r@.len() - 1] == i);
                    assert forall|k: int|
                        0 <= k < i + 1 && entry_matches(
                            self.candidates.deep_view()[k],
                            self.filter@,
                        ) implies exists|a: int| 0 <= a < r@.len() && r@[a] == k by {
                        if k < i {
                            let w = choose|a: int| 0 <= a < pre.len() && pre[a] == k;
                            assert(r@[w] == k);
                        } else {
                            assert(r@[r@.len() - 1] == k);
                        }
                    }
                }
            }
            i = i + 1;
        }
        r
    }

    /// Commit the selection of row `i`: the candidate's value, provided the
    /// row exists and is visible under the current filter.
    pub fn commit(self, i: usize) -> (r: Option<String>)
        ensures
            match r {
                Some(v) => i < self.candidates@.len() && entry_matches(
                    self.candidates.deep_view()[i as int],
                    self.filter@,
                ) && v@ == self.candidates.deep_view()[i as int].0,
                None => !(i < self.candidates@.len() && entry_matches(
                    self.candidates.deep_view()[i as int],
                    self.filter@,
                )),
            },
    {
        if i < self.candidates.len() && self.row_visible(i) {
            Some(self.candidates[i].value.clone())
        } else {
            None
        }
    }

    /// Cancel the session: no selection.
    pub fn cancel(self) -> (r: Option<String>)
        ensures
            r is None,
    {
        None
    }
}

} // verus!
