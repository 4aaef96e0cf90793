//! Bookmarks — a traveler's personal constellation: a list of
//! `(label, locator)` pairs, one per Locator. Persisting the list is the
//! caller's job (every mutation that changes it should be saved).

use vstd::prelude::*;
use crate::text::push_str;

verus! {

/// One kept place: a Locator plus the label it was saved under.
#[derive(Debug, Clone, PartialEq, Eq)]
pub struct Bookmark {
    pub label: String,
    /// A `thread://` Locator.
    pub locator: String,
}

/// A bookmark list.
pub struct Bookmarks {
    pub entries: Vec<Bookmark>,
}

/// `(label, locator)` text of each bookmark.
pub open spec fn marks_view(v: Seq<Bookmark>) -> Seq<(Seq<char>, Seq<char>)> {
    Seq::new(v.len(), |i: int| (v[i].label@, v[i].locator@))
}

/// Index of the first entry saved under `loc`.
pub open spec fn first_index_of(v: Seq<(Seq<char>, Seq<char>)>, loc: Seq<char>) -> Option<int> {
    if exists|i: int| 0 <= i < v.len() && v[i].1 == loc {
        Some(
            choose|i: int|
                0 <= i < v.len() && v[i].1 == loc && forall|j: int| 0 <= j < i ==> v[j].1 != loc,
        )
    } else {
        None
    }
}

/// No Locator is kept twice.
pub open spec fn unique_locators(v: Seq<(Seq<char>, Seq<char>)>) -> bool {
    forall|i: int, j: int| 0 <= i < j < v.len() ==> v[i].1 != v[j].1
}

/// The list after adding `(label, loc)`: the first entry with that Locator is
/// relabelled, or the pair is appended.
pub open spec fn add_spec(v: Seq<(Seq<char>, Seq<char>)>, label: Seq<char>, loc: Seq<char>) -> Seq<
    (Seq<char>, Seq<char>),
> {
    match first_index_of(v, loc) {
        Some(i) => v.update(i, (label, loc)),
        None => v.push((label, loc)),
    }
}

/// The list without the entries saved under `loc`.
pub open spec fn remove_spec(v: Seq<(Seq<char>, Seq<char>)>, loc: Seq<char>) -> Seq<
    (Seq<char>, Seq<char>),
>
    decreases v.len(),
{
    if v.len() == 0 {
        v
    } else if v.last().1 == loc {
        remove_spec(v.drop_last(), loc)
    } else {
        remove_spec(v.drop_last(), loc).push(v.last())
    }
}

pub proof fn lemma_first_index_props(v: Seq<(Seq<char>, Seq<char>)>, loc: Seq<char>)
    ensures
        first_index_of(v, loc) matches Some(i) ==> 0 <= i < v.len() && v[i].1 == loc && (forall|j: int|
            0 <= j < i ==> v[j].1 != loc),
        first_index_of(v, loc) is None ==> forall|j: int| 0 <= j < v.len() ==> v[j].1 != loc,
{
    if exists|i: int| 0 <= i < v.len() && v[i].1 == loc {
        let w = choose|i: int| 0 <= i < v.len() && v[i].1 == loc;
        lemma_least_index(v, loc, w);
    }
}

proof fn lemma_least_index(v: Seq<(Seq<char>, Seq<char>)>, loc: Seq<char>, w: int)
    requires
        0 <= w < v.len(),
        v[w].1 == loc,
    ensures
        exists|i: int|
            0 <= i < v.len() && v[i].1 == loc && forall|j: int| 0 <= j < i ==> v[j].1 != loc,
    decreases w,
{
    if exists|j: int| 0 <= j < w && v[j].1 == loc {
        let j = choose|j: int| 0 <= j < w && v[j].1 == loc;
        lemma_least_index(v, loc, j);
    } else {
        assert(forall|j: int| 0 <= j < w ==> v[j].1 != loc);
    }
}

pub proof fn lemma_first_index(v: Seq<(Seq<char>, Seq<char>)>, loc: Seq<char>, k: int)
    requires
        0 <= k < v.len(),
        v[k].1 == loc,
        forall|j: int| 0 <= j < k ==> v[j].1 != loc,
    ensures
        first_index_of(v, loc) == Some(k),
{
    let c = choose|i: int|
        0 <= i < v.len() && v[i].1 == loc && forall|j: int| 0 <= j < i ==> v[j].1 != loc;
    assert(c == k) by {
        if c < k {
        } else if c > k {
        }
    }
}

fn copy_str(s: &str) -> (r: String)
    ensures
        r@ == s@,
{
    let mut r = String::new();
    push_str(&mut r, s);
    r
}

impl Bookmarks {
    pub open spec fn view(self) -> Seq<(Seq<char>, Seq<char>)> {
        marks_view(self.entries@)
    }

    /// An empty list.
    pub fn new() -> (r: Self)
        ensures
            r.view().len() == 0,
    {
        Bookmarks { entries: Vec::new() }
    }

    /// A list holding the given entries (e.g. as loaded from storage).
    pub fn from_entries(entries: Vec<Bookmark>) -> (r: Self)
        ensures
            r.entries == entries,
    {
        Bookmarks { entries }
    }

    pub fn entries(&self) -> (r: &[Bookmark])
        ensures
            r@ == self.entries@,
    {
        self.entries.as_slice()
    }

    fn position(&self, locator: &str) -> (r: Option<usize>)
        ensures
            match r {
                Some(i) => first_index_of(self.view(), locator@) == Some(i as int),
                None => first_index_of(self.view(), locator@) is None,
            },
    {
        let mut i: usize = 0;
        while i < self.entries.len()
            invariant
                i <= self.entries.len(),
                forall|j: int| 0 <= j < i ==> self.view()[j].1 != locator@,
            decreases self.entries.len() - i,
        {
            assert(self.view()[i as int].1 == self.entries@[i as int].locator@);
            if crate::text::same_text(self.entries[i].locator.as_str(), locator) {
                proof {
                    lemma_first_index(self.view(), locator@, i as int);
                }
                return Some(i);
            }
            i += 1;
        }
        None
    }

    pub fn contains(&self, locator: &str) -> (r: bool)
        ensures
            r == exists|i: int| 0 <= i < self.view().len() && self.view()[i].1 == locator@,
    {
        self.position(locator).is_some()
    }

    /// Add a bookmark (de-duplicated by Locator; re-adding refreshes the label).
    pub fn add(&mut self, label: &str, locator: &str)
        ensures
            final(self).view() == add_spec(old(self).view(), label@, locator@),
    {
        match self.position(locator) {
            Some(i) => {
                proof {
                    lemma_first_index_props(self.view(), locator@);
                }
                let ghost before = self.view();
                let b = Bookmark { label: copy_str(label), locator: copy_str(locator) };
                self.entries.set(i, b);
                assert(self.view() =~= before.update(i as int, (label@, locator@)));
            },
            None => {
                let ghost before = self.view();
                self.entries.push(Bookmark { label: copy_str(label), locator: copy_str(locator) });
                assert(self.view() =~= before.push((label@, locator@)));
            },
        }
    }

    /// Remove by Locator. Returns whether anything was removed.
    pub fn remove(&mut self, locator: &str) -> (removed: bool)
        ensures
            final(self).view() == remove_spec(old(self).view(), locator@),
            removed == exists|i: int|
                0 <= i < old(self).view().len() && old(self).view()[i].1 == locator@,
    {
        let ghost before = self.view();
        let mut kept: Vec<Bookmark> = Vec::new();
        let mut removed = false;
        let mut i: usize = 0;
        while i < self.entries.len()
            invariant
                i <= self.entries.len(),
                before == marks_view(self.entries@),
                marks_view(kept@) == remove_spec(before.take(i as int), locator@),
                removed == exists|j: int| 0 <= j < i && before[j].1 == locator@,
            decreases self.entries.len() - i,
        {
            let same = crate::text::same_text(self.entries[i].locator.as_str(), locator);
            let e = Bookmark {
                label: self.entries[i].label.clone(),
                locator: self.entries[i].locator.clone(),
            };
            assert(before[i as int] == (e.label@, e.locator@));
            assert(before.take(i + 1) == before.take(i as int).push(before[i as int]));
            let ghost kv = kept@;
            if same {
                removed = true;
            } else {
                kept.push(e);
                assert(marks_view(kept@) =~= marks_view(kv).push(before[i as int]));
            }
            assert(before.take(i + 1).drop_last() == before.take(i as int));
            i += 1;
        }
        assert(before.take(i as int) == before);
        self.entries = kept;
        removed
    }

    /// Bookmark it if it isn't, un-bookmark it if it is (the star button).
    /// Returns `true` when the place is bookmarked after the call.
    pub fn toggle(&mut self, label: &str, locator: &str) -> (on: bool)
        ensures
            on == !exists|i: int| 0 <= i < old(self).view().len() && old(self).view()[i].1 == locator@,
            on ==> final(self).view() == add_spec(old(self).view(), label@, locator@),
            !on ==> final(self).view() == remove_spec(old(self).view(), locator@),
    {
        if self.contains(locator) {
            self.remove(locator);
            false
        } else {
            self.add(label, locator);
            true
        }
    }
}

/// Removing a Locator that no entry holds changes nothing.
pub proof fn lemma_remove_absent(v: Seq<(Seq<char>, Seq<char>)>, loc: Seq<char>)
    requires
        forall|j: int| 0 <= j < v.len() ==> v[j].1 != loc,
    ensures
        remove_spec(v, loc) == v,
    decreases v.len(),
{
    if v.len() > 0 {
        lemma_remove_absent(v.drop_last(), loc);
        assert(v.drop_last().push(v.last()) == v);
    }
}

/// After removal no entry holds the Locator, and every other entry is kept.
pub proof fn lemma_remove_spec_contents(v: Seq<(Seq<char>, Seq<char>)>, loc: Seq<char>)
    ensures
        forall|j: int| 0 <= j < remove_spec(v, loc).len() ==> remove_spec(v, loc)[j].1 != loc,
        forall|j: int| 0 <= j < remove_spec(v, loc).len() ==> v.contains(#[trigger] remove_spec(v, loc)[j]),
        forall|e: (Seq<char>, Seq<char>)| v.contains(e) && e.1 != loc ==> remove_spec(v, loc).contains(e),
    decreases v.len(),
{
    if v.len() > 0 {
        lemma_remove_spec_contents(v.drop_last(), loc);
        let r = remove_spec(v, loc);
        let r0 = remove_spec(v.drop_last(), loc);
        assert forall|j: int| 0 <= j < r.len() implies v.contains(#[trigger] r[j]) by {
            if j < r0.len() {
                assert(v.drop_last().contains(r0[j]));
                let k = choose|k: int| 0 <= k < v.drop_last().len() && v.drop_last()[k] == r0[j];
                assert(v[k] == r[j]);
            } else {
                assert(r[j] == v.last());
                assert(v[v.len() - 1] == r[j]);
            }
        }
        assert forall|e: (Seq<char>, Seq<char>)| v.contains(e) && e.1 != loc implies r.contains(e) by {
            let k = choose|k: int| 0 <= k < v.len() && v[k] == e;
            if k < v.len() - 1 {
                assert(v.drop_last()[k] == e);
                assert(v.drop_last().contains(e));
                assert(r0.contains(e));
                let m = choose|m: int| 0 <= m < r0.len() && r0[m] == e;
                assert(r[m] == e);
            } else {
                assert(r[r.len() - 1] == e);
            }
        }
    }
}

/// Adding keeps Locators unique, and afterwards the Locator is kept under the
/// new label.
pub proof fn lemma_add_keeps_unique(v: Seq<(Seq<char>, Seq<char>)>, label: Seq<char>, loc: Seq<char>)
    requires
        unique_locators(v),
    ensures
        unique_locators(add_spec(v, label, loc)),
        add_spec(v, label, loc).contains((label, loc)),
        add_spec(v, label, loc).len() == v.len() + (if first_index_of(v, loc) is Some { 0int } else { 1int }),
{
    lemma_first_index_props(v, loc);
    let r = add_spec(v, label, loc);
    match first_index_of(v, loc) {
        Some(i) => {
            assert(r[i] == (label, loc));
        },
        None => {
            assert(r[v.len() as int] == (label, loc));
        },
    }
}

/// Removing keeps Locators unique.
pub proof fn lemma_remove_keeps_unique(v: Seq<(Seq<char>, Seq<char>)>, loc: Seq<char>)
    requires
        unique_locators(v),
    ensures
        unique_locators(remove_spec(v, loc)),
    decreases v.len(),
{
    if v.len() > 0 {
        lemma_remove_keeps_unique(v.drop_last(), loc);
        lemma_remove_spec_contents(v.drop_last(), loc);
        let r0 = remove_spec(v.drop_last(), loc);
        if v.last().1 != loc {
            assert forall|i: int, j: int| 0 <= i < j < r0.push(v.last()).len() implies r0.push(
                v.last(),
            )[i].1 != r0.push(v.last())[j].1 by {
                if j == r0.len() {
                    assert(v.drop_last().contains(r0[i]));
                    let k = choose|k: int| 0 <= k < v.drop_last().len() && v.drop_last()[k] == r0[i];
                    assert(v[k] == r0[i]);
                }
            }
        }
    }
}

/// Starring a place that was not starred and then un-starring it gives back
/// the list as it was (the star button twice is a no-op).
pub proof fn lemma_toggle_twice(v: Seq<(Seq<char>, Seq<char>)>, label: Seq<char>, loc: Seq<char>)
    requires
        forall|j: int| 0 <= j < v.len() ==> v[j].1 != loc,
    ensures
        remove_spec(add_spec(v, label, loc), loc) == v,
{
    lemma_first_index_props(v, loc);
    assert(add_spec(v, label, loc) == v.push((label, loc)));
    assert(v.push((label, loc)).drop_last() == v);
    lemma_remove_absent(v, loc);
}

} // verus!
