//! Recents — the threads a traveler last walked: a most-recent-first list of
//! `(label, locator)` pairs, at most [`CAP`] long, one per Locator. Persisting
//! the list is the caller's job (save whenever [`Recents::visit`] returns `true`).

use vstd::prelude::*;
use crate::bookmarks::{remove_spec, unique_locators, lemma_remove_spec_contents, lemma_remove_keeps_unique};
use crate::text::{chars_of, push_all, same_text, string_of_all, trim, trimmed};
use crate::urls::{normalize_locator, normalize_locator_spec};
use crate::home::{is_home, is_home_spec};

verus! {

/// How many recent places the list keeps (and the home renders).
pub const CAP: usize = 6;

/// One recently visited place.
#[derive(Debug, Clone, PartialEq, Eq)]
pub struct Recent {
    pub label: String,
    /// A `thread://` Locator.
    pub locator: String,
}

/// A recent-places list, most recent first.
pub struct Recents {
    pub entries: Vec<Recent>,
}

pub open spec fn recents_view(v: Seq<Recent>) -> Seq<(Seq<char>, Seq<char>)> {
    Seq::new(v.len(), |i: int| (v[i].label@, v[i].locator@))
}

/// The label a visit is recorded under: the trimmed label, or the Locator when
/// the label is blank.
pub open spec fn visit_label(label: Seq<char>, loc: Seq<char>) -> Seq<char> {
    if trim(label).len() == 0 {
        loc
    } else {
        trim(label)
    }
}

/// The list after a recorded visit: the place moved to the front under its new
/// label, any older entry for it dropped, and the list cut to [`CAP`].
pub open spec fn visit_spec(v: Seq<(Seq<char>, Seq<char>)>, label: Seq<char>, loc: Seq<char>) -> Seq<
    (Seq<char>, Seq<char>),
> {
    let l = seq![(label, loc)] + remove_spec(v, loc);
    if l.len() > CAP {
        l.take(CAP as int)
    } else {
        l
    }
}

impl Recents {
    pub open spec fn view(self) -> Seq<(Seq<char>, Seq<char>)> {
        recents_view(self.entries@)
    }

    pub fn new() -> (r: Self)
        ensures
            r.view().len() == 0,
    {
        Recents { entries: Vec::new() }
    }

    /// A list holding the given entries (e.g. as loaded from storage).
    pub fn from_entries(entries: Vec<Recent>) -> (r: Self)
        ensures
            r.entries == entries,
    {
        Recents { entries }
    }

    /// Most recent first.
    pub fn entries(&self) -> (r: &[Recent])
        ensures
            r@ == self.entries@,
    {
        self.entries.as_slice()
    }

    /// Record a visit. The Locator is cut at its first `#` or `@` and stripped of
    /// trailing `/`; the traveler's own home is never recorded (nor is an empty
    /// Locator). A visit to
    /// the place already at the front under the same label changes nothing.
    /// Otherwise the place moves to the front, and the list is trimmed to
    /// [`CAP`]. Returns whether the list changed.
    pub fn visit(&mut self, label: &str, locator: &str) -> (changed: bool)
        ensures
            ({
                let loc = normalize_locator_spec(locator@);
                let lab = visit_label(label@, loc);
                let v = old(self).view();
                if loc.len() == 0 || is_home_spec(loc) || (v.len() > 0 && v[0] == (lab, loc)) {
                    !changed && final(self).view() == v
                } else {
                    changed && final(self).view() == visit_spec(v, lab, loc)
                }
            }),
    {
        let loc = normalize_locator(locator);
        let loc_v = chars_of(loc.as_str());
        if loc_v.len() == 0 || is_home(loc.as_str()) {
            return false;
        }
        let lv = chars_of(label);
        let lt = trimmed(&lv);
        let lab: String = if lt.len() == 0 {
            string_of_all(&loc_v)
        } else {
            string_of_all(&lt)
        };
        let ghost v = self.view();
        if self.entries.len() > 0 {
            assert(v[0] == (self.entries@[0].label@, self.entries@[0].locator@));
            if same_text(self.entries[0].locator.as_str(), loc.as_str()) && same_text(
                self.entries[0].label.as_str(),
                lab.as_str(),
            ) {
                return false;
            }
        }
        let key = loc.clone();
        let mut kept: Vec<Recent> = Vec::new();
        kept.push(Recent { label: lab, locator: loc });
        let mut i: usize = 0;
        while i < self.entries.len()
            invariant
                i <= self.entries.len(),
                v == recents_view(self.entries@),
                recents_view(kept@) == seq![(visit_label(label@, normalize_locator_spec(locator@)), normalize_locator_spec(locator@))] + remove_spec(v.take(i as int), normalize_locator_spec(locator@)),
                key@ == normalize_locator_spec(locator@),
            decreases self.entries.len() - i,
        {
            let same = same_text(self.entries[i].locator.as_str(), key.as_str());
            assert(v[i as int] == (self.entries@[i as int].label@, self.entries@[i as int].locator@));
            assert(v.take(i + 1).drop_last() == v.take(i as int));
            let ghost kv = kept@;
            if !same {
                kept.push(
                    Recent {
                        label: self.entries[i].label.clone(),
                        locator: self.entries[i].locator.clone(),
                    },
                );
                assert(recents_view(kept@) =~= recents_view(kv).push(v[i as int]));
            }
            i += 1;
        }
        assert(v.take(i as int) == v);
        let ghost full = recents_view(kept@);
        if kept.len() > CAP {
            kept.truncate(CAP);
            assert(recents_view(kept@) =~= full.take(CAP as int));
        }
        self.entries = kept;
        true
    }
}

/// No entry of the list is the traveler's home.
pub open spec fn homeless(v: Seq<(Seq<char>, Seq<char>)>) -> bool {
    forall|i: int| 0 <= i < v.len() ==> !is_home_spec(#[trigger] v[i].1)
}

/// A recorded visit leaves Locators unique, the list no longer than [`CAP`],
/// and the visited place at the front under its label; and since home is
/// never recorded, a list without home keeps none.
pub proof fn lemma_visit_keeps_invariant(
    v: Seq<(Seq<char>, Seq<char>)>,
    label: Seq<char>,
    loc: Seq<char>,
)
    requires
        unique_locators(v),
    ensures
        unique_locators(visit_spec(v, label, loc)),
        visit_spec(v, label, loc).len() <= CAP,
        visit_spec(v, label, loc)[0] == (label, loc),
        homeless(v) && !is_home_spec(loc) ==> homeless(visit_spec(v, label, loc)),
{
    lemma_remove_keeps_unique(v, loc);
    lemma_remove_spec_contents(v, loc);
    let r = remove_spec(v, loc);
    let l = seq![(label, loc)] + r;
    assert forall|i: int, j: int| 0 <= i < j < l.len() implies l[i].1 != l[j].1 by {
        if i == 0 {
            assert(l[j] == r[j - 1]);
        } else {
            assert(l[i] == r[i - 1]);
            assert(l[j] == r[j - 1]);
        }
    }
    assert(l[0] == (label, loc));
    if homeless(v) && !is_home_spec(loc) {
        let out = visit_spec(v, label, loc);
        assert forall|i: int| 0 <= i < out.len() implies !is_home_spec(#[trigger] out[i].1) by {
            assert(out[i] == l[i]);
            if i > 0 {
                assert(l[i] == r[i - 1]);
            }
        }
    }
}

} // verus!
