//! Scripted walks — a recorded path through the Thread (start at a Locator,
//! then step through veils) and what happened when it was walked.

use vstd::prelude::*;
use crate::text::{chars_of, lower_all, lower_seq};

verus! {

/// How to choose which veil to step through at a given point in a [`Script`].
#[derive(Debug, Clone)]
pub enum Step {
    /// The veil whose label matches (case-insensitive).
    ByLabel(String),
    /// The Nth veil in the active world (author order).
    ByIndex(usize),
    /// The veil whose destination Locator is on this host.
    ToHost(String),
}

/// A recorded walk: where to start, then the veils to take.
#[derive(Debug, Clone)]
pub struct Script {
    pub start: String,
    pub steps: Vec<Step>,
}

/// What actually happened when a [`Script`] was walked.
#[derive(Debug, Clone)]
pub struct WalkOutcome {
    /// Titles of the worlds landed in, in order (including the start world).
    pub visited: Vec<String>,
    /// The step that couldn't be completed, if any (the walk stops there).
    pub error: Option<String>,
}

impl WalkOutcome {
    /// Whether the whole script completed with no failed step.
    pub fn ok(&self) -> (r: bool)
        ensures
            r == self.error is None,
    {
        self.error.is_none()
    }
}

/// A veil as a step chooses among them: its label, and the host of its
/// destination Locator when that parses.
pub struct VeilChoice {
    pub label: String,
    pub host: Option<String>,
}

/// The first index among `vs` from `i` on whose label matches `want` (ASCII
/// case-insensitively), if any.
pub open spec fn first_label(vs: Seq<VeilChoice>, want: Seq<char>, i: int) -> Option<int>
    decreases vs.len() - i,
{
    if i < 0 || i >= vs.len() {
        None
    } else if lower_seq(vs[i].label@) == lower_seq(want) {
        Some(i)
    } else {
        first_label(vs, want, i + 1)
    }
}

/// The first index among `vs` from `i` on whose destination is on `host`.
pub open spec fn first_host(vs: Seq<VeilChoice>, host: Seq<char>, i: int) -> Option<int>
    decreases vs.len() - i,
{
    if i < 0 || i >= vs.len() {
        None
    } else if vs[i].host matches Some(x) && x@ == host {
        Some(i)
    } else {
        first_host(vs, host, i + 1)
    }
}

/// The veil a step selects: the Nth one, the first whose label matches
/// (ASCII case-insensitively), or the first leading to the host.
pub open spec fn choose_spec(vs: Seq<VeilChoice>, step: Step) -> Option<int> {
    match step {
        Step::ByIndex(n) => if n < vs.len() {
            Some(n as int)
        } else {
            None
        },
        Step::ByLabel(l) => first_label(vs, l@, 0),
        Step::ToHost(h) => first_host(vs, h@, 0),
    }
}

/// Pick the veil a step selects (its index), if present.
pub fn choose_veil(veils: &Vec<VeilChoice>, step: &Step) -> (r: Option<usize>)
    ensures
        match r {
            Some(i) => choose_spec(veils@, *step) == Some(i as int),
            None => choose_spec(veils@, *step) is None,
        },
{
    match step {
        Step::ByIndex(n) => {
            if *n < veils.len() {
                Some(*n)
            } else {
                None
            }
        },
        Step::ByLabel(l) => {
            let want = lower_all(&chars_of(l.as_str()));
            let mut i: usize = 0;
            while i < veils.len()
                invariant
                    i <= veils.len(),
                    want@ == lower_seq(l@),
                    choose_spec(veils@, *step) == first_label(veils@, l@, 0),
                    first_label(veils@, l@, 0) == first_label(veils@, l@, i as int),
                decreases veils.len() - i,
            {
                let got = lower_all(&chars_of(veils[i].label.as_str()));
                if crate::text::same_chars(&got, &want) {
                    assert(first_label(veils@, l@, i as int) == Some(i as int));
                    return Some(i);
                }
                i += 1;
            }
            None
        },
        Step::ToHost(h) => {
            let mut i: usize = 0;
            while i < veils.len()
                invariant
                    i <= veils.len(),
                    choose_spec(veils@, *step) == first_host(veils@, h@, 0),
                    first_host(veils@, h@, 0) == first_host(veils@, h@, i as int),
                decreases veils.len() - i,
            {
                let hit = match &veils[i].host {
                    Some(x) => crate::text::same_text(x.as_str(), h.as_str()),
                    None => false,
                };
                if hit {
                    assert(first_host(veils@, h@, i as int) == Some(i as int));
                    return Some(i);
                }
                i += 1;
            }
            None
        },
    }
}

} // verus!
