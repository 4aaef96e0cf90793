//! Navigation messages shown to the traveler.

use vstd::prelude::*;
use crate::text::{before_any, chars_of, push_all, push_str, string_of_all, trim, trimmed};
use crate::fetch::Delivery;

verus! {

/// The part of an error message worth showing: the text before its first `(`
/// or em dash, trimmed (the whole message when that is empty), cut to sixty
/// characters and trimmed again, inside `couldn't reach that world (…)`.
pub open spec fn short_error_spec(e: Seq<char>) -> Seq<char> {
    let first = trim(before_any(e, '(', '\u{2014}'));
    let msg = if first.len() == 0 {
        e
    } else {
        first
    };
    let cut = if msg.len() > 60 {
        msg.take(60)
    } else {
        msg
    };
    "couldn't reach that world ("@ + trim(cut) + ")"@
}

/// A short, human message for a failed travel.
pub fn short_error(e: &str) -> (r: String)
    ensures
        r@ == short_error_spec(e@),
{
    let v = chars_of(e);
    let head = crate::text::prefix_before_any(&v, '(', '\u{2014}');
    let first = trimmed(&head);
    let msg: Vec<char> = if first.len() == 0 {
        v
    } else {
        first
    };
    let mut cut: Vec<char> = Vec::new();
    let n = if msg.len() > 60 {
        60
    } else {
        msg.len()
    };
    crate::text::extend_chars(&mut cut, &msg, 0, n);
    assert(n == msg.len() ==> msg@.subrange(0, n as int) == msg@);
    let t = trimmed(&cut);
    let mut r = String::new();
    push_str(&mut r, "couldn't reach that world (");
    push_all(&mut r, &t);
    push_str(&mut r, ")");
    r
}

/// How a veilwalk relates to session history: a fresh navigation pushes the
/// departed world onto the back stack (and clears forward); back/forward move
/// between the stacks without forking history; a reload touches nothing.
#[derive(Debug, Clone, Copy, PartialEq, Eq, Structural)]
pub enum NavKind {
    Normal,
    Back,
    Forward,
    /// Same world, fresh contents: a reload is not a navigation.
    Reload,
}

/// The navigator's session: where it is, where it has been, where it is going.
pub struct SessionHistory {
    /// Worlds walked *from*, most recent last.
    pub back_stack: Vec<String>,
    /// Worlds walked *back from*, most recent last.
    pub forward_stack: Vec<String>,
    /// The active world's Locator (the address bar).
    pub current: Option<String>,
    /// The session's home world: by default, wherever it opened.
    pub home: Option<String>,
    /// The veilwalk in flight: its destination and how it relates to history.
    pub pending: Option<(String, NavKind)>,
    /// The last veilwalk failure, until the next attempt.
    pub last_error: Option<String>,
    /// The traveler's Passport `sub` (never blank).
    pub actor_sub: Option<String>,
}

pub open spec fn locs(v: Seq<String>) -> Seq<Seq<char>> {
    Seq::new(v.len(), |i: int| v[i]@)
}

pub open spec fn opt_loc(o: Option<String>) -> Option<Seq<char>> {
    match o {
        Some(s) => Some(s@),
        None => None,
    }
}

/// The session as plain values: back stack, forward stack, current Locator,
/// home, the walk in flight.
pub type HistoryView = (Seq<Seq<char>>, Seq<Seq<char>>, Option<Seq<char>>, Option<Seq<char>>, Option<(Seq<char>, NavKind)>);

/// What arriving at `locator` (by a walk of `kind`) does to the history: the
/// departed world is recorded per the web's model, and `locator` becomes the
/// address.
pub open spec fn arrive_step(h: HistoryView, locator: Option<Seq<char>>, kind: NavKind) -> HistoryView {
    let (b, f) = match h.2 {
        Some(prev) => match kind {
            NavKind::Normal => (h.0.push(prev), Seq::<Seq<char>>::empty()),
            NavKind::Back => (h.0, h.1.push(prev)),
            NavKind::Forward => (h.0.push(prev), h.1),
            NavKind::Reload => (h.0, h.1),
        },
        None => (h.0, h.1),
    };
    (b, f, locator, h.3, h.4)
}

/// The walk in flight is over (its result arrived or its fetch stopped).
pub open spec fn landed(h: HistoryView) -> HistoryView {
    (h.0, h.1, h.2, h.3, None)
}

/// What a failed walk does: the pending walk is over, and a failed back or
/// forward puts its destination back where it came from.
pub open spec fn fail_step(h: HistoryView) -> HistoryView {
    match h.4 {
        Some((loc, NavKind::Back)) => (h.0.push(loc), h.1, h.2, h.3, None),
        Some((loc, NavKind::Forward)) => (h.0, h.1.push(loc), h.2, h.3, None),
        _ => (h.0, h.1, h.2, h.3, None),
    }
}

/// What pressing back does: with no walk in flight and somewhere to go back
/// to, the most recent entry leaves the back stack and a Back walk begins.
pub open spec fn back_step(h: HistoryView) -> (HistoryView, Option<Seq<char>>) {
    if h.4 is Some || h.0.len() == 0 {
        (h, None)
    } else {
        ((h.0.drop_last(), h.1, h.2, h.3, Some((h.0.last(), NavKind::Back))), Some(h.0.last()))
    }
}

/// What pressing forward does, symmetrically.
pub open spec fn forward_step(h: HistoryView) -> (HistoryView, Option<Seq<char>>) {
    if h.4 is Some || h.1.len() == 0 {
        (h, None)
    } else {
        ((h.0, h.1.drop_last(), h.2, h.3, Some((h.1.last(), NavKind::Forward))), Some(h.1.last()))
    }
}

fn copy_text(s: &String) -> (r: String)
    ensures
        r@ == s@,
{
    s.clone()
}

impl SessionHistory {
    pub open spec fn view(self) -> HistoryView {
        (
            locs(self.back_stack@),
            locs(self.forward_stack@),
            opt_loc(self.current),
            opt_loc(self.home),
            match self.pending {
                Some((l, k)) => Some((l@, k)),
                None => None,
            },
        )
    }

    /// A fresh session: nowhere yet, no history.
    pub fn new() -> (r: Self)
        ensures
            r.view() == (Seq::<Seq<char>>::empty(), Seq::<Seq<char>>::empty(), None::<Seq<char>>,
                None::<Seq<char>>, None::<(Seq<char>, NavKind)>),
            r.last_error is None,
            r.actor_sub is None,
    {
        let r = SessionHistory {
            back_stack: Vec::new(),
            forward_stack: Vec::new(),
            current: None,
            home: None,
            pending: None,
            last_error: None,
            actor_sub: None,
        };
        assert(r.view().0 =~= Seq::<Seq<char>>::empty());
        assert(r.view().1 =~= Seq::<Seq<char>>::empty());
        r
    }

    /// Name the traveler behind interactions; a blank `sub` reads as anonymous.
    pub fn set_actor(&mut self, sub: Option<String>)
        ensures
            match sub {
                Some(s) => if trim(s@).len() == 0 {
                    final(self).actor_sub is None
                } else {
                    final(self).actor_sub == Some(s)
                },
                None => final(self).actor_sub is None,
            },
            final(self).view() == old(self).view(),
            final(self).last_error == old(self).last_error,
    {
        self.actor_sub = match sub {
            Some(s) => {
                if trimmed(&chars_of(s.as_str())).len() == 0 {
                    None
                } else {
                    Some(s)
                }
            },
            None => None,
        };
    }

    pub fn can_go_back(&self) -> (r: bool)
        ensures
            r == (self.view().0.len() > 0),
    {
        self.back_stack.len() > 0
    }

    pub fn can_go_forward(&self) -> (r: bool)
        ensures
            r == (self.view().1.len() > 0),
    {
        self.forward_stack.len() > 0
    }

    /// Whether a veilwalk is in flight.
    pub fn is_traveling(&self) -> (r: bool)
        ensures
            r == self.pending is Some,
    {
        self.pending.is_some()
    }

    /// Override the home world (a browser preference).
    pub fn set_home(&mut self, locator: &str)
        ensures
            final(self).actor_sub == old(self).actor_sub,
            final(self).view() == ({
                let h = old(self).view();
                (h.0, h.1, h.2, Some(locator@), h.4)
            }),
            final(self).last_error == old(self).last_error,
    {
        let mut s = String::new();
        push_str(&mut s, locator);
        self.home = Some(s);
    }

    /// Begin a walk to `locator`: it is in flight and the last failure clears.
    fn begin(&mut self, locator: String, kind: NavKind)
        ensures
            final(self).view() == ({
                let h = old(self).view();
                (h.0, h.1, h.2, h.3, Some((locator@, kind)))
            }),
            final(self).last_error is None,
            final(self).actor_sub == old(self).actor_sub,
    {
        self.pending = Some((locator, kind));
        self.last_error = None;
    }

    /// Open a world by Locator (the session's entry to the Thread): the first
    /// opened Locator becomes home unless one is set. Returns what to fetch.
    pub fn open(&mut self, locator: &str) -> (fetch: String)
        ensures
            final(self).actor_sub == old(self).actor_sub,
            fetch@ == locator@,
            final(self).view() == ({
                let h = old(self).view();
                (h.0, h.1, h.2, if h.3 is None { Some(locator@) } else { h.3 }, Some((locator@, NavKind::Normal)))
            }),
            final(self).last_error is None,
    {
        let mut s = String::new();
        push_str(&mut s, locator);
        if self.home.is_none() {
            self.home = Some(copy_text(&s));
        }
        self.begin(copy_text(&s), NavKind::Normal);
        s
    }

    /// Start a normal walk to `locator` (stepping through a veil). Returns
    /// what to fetch.
    pub fn walk_to(&mut self, locator: &str) -> (fetch: String)
        ensures
            final(self).actor_sub == old(self).actor_sub,
            fetch@ == locator@,
            final(self).view() == ({
                let h = old(self).view();
                (h.0, h.1, h.2, h.3, Some((locator@, NavKind::Normal)))
            }),
            final(self).last_error is None,
    {
        let mut s = String::new();
        push_str(&mut s, locator);
        self.begin(copy_text(&s), NavKind::Normal);
        s
    }

    /// The web's back button: returns the Locator to fetch when a walk began.
    pub fn back(&mut self) -> (fetch: Option<String>)
        ensures
            final(self).actor_sub == old(self).actor_sub,
            (final(self).view(), match fetch {
                Some(f) => Some(f@),
                None => None,
            }) == back_step(old(self).view()),
            fetch is Some ==> final(self).last_error is None,
            fetch is None ==> final(self).last_error == old(self).last_error,
    {
        if self.pending.is_some() {
            return None;
        }
        let ghost h = self.view();
        match self.back_stack.pop() {
            None => None,
            Some(dest) => {
                assert(locs(self.back_stack@) =~= h.0.drop_last());
                let f = copy_text(&dest);
                self.begin(dest, NavKind::Back);
                Some(f)
            },
        }
    }

    /// The web's forward button: returns the Locator to fetch when a walk began.
    pub fn forward(&mut self) -> (fetch: Option<String>)
        ensures
            final(self).actor_sub == old(self).actor_sub,
            (final(self).view(), match fetch {
                Some(f) => Some(f@),
                None => None,
            }) == forward_step(old(self).view()),
            fetch is Some ==> final(self).last_error is None,
            fetch is None ==> final(self).last_error == old(self).last_error,
    {
        if self.pending.is_some() {
            return None;
        }
        let ghost h = self.view();
        match self.forward_stack.pop() {
            None => None,
            Some(dest) => {
                assert(locs(self.forward_stack@) =~= h.1.drop_last());
                let f = copy_text(&dest);
                self.begin(dest, NavKind::Forward);
                Some(f)
            },
        }
    }

    /// Walk home (a normal navigation): nothing when a walk is in flight,
    /// no home is set, or the traveler is already there.
    pub fn go_home(&mut self) -> (fetch: Option<String>)
        ensures
            final(self).actor_sub == old(self).actor_sub,
            ({
                let h = old(self).view();
                if h.4 is Some || h.3 is None || h.2 == h.3 {
                    fetch is None && final(self).view() == h && final(self).last_error == old(self).last_error
                } else {
                    (fetch matches Some(f) && Some(f@) == h.3) && final(self).view() == (h.0, h.1, h.2, h.3,
                        Some((h.3->0, NavKind::Normal))) && final(self).last_error is None
                }
            }),
    {
        if self.pending.is_some() {
            return None;
        }
        let dest = match &self.home {
            None => return None,
            Some(h) => copy_text(h),
        };
        let here = match &self.current {
            Some(c) => crate::text::same_text(c.as_str(), dest.as_str()),
            None => false,
        };
        if here {
            return None;
        }
        let f = copy_text(&dest);
        self.begin(dest, NavKind::Normal);
        Some(f)
    }

    /// A world was applied at `locator` (a completed walk of `kind`, a file
    /// load, or a reload): history records the departure.
    pub fn arrive(&mut self, locator: Option<String>, kind: NavKind)
        ensures
            final(self).actor_sub == old(self).actor_sub,
            final(self).view() == arrive_step(old(self).view(), opt_loc(locator), kind),
            final(self).last_error == old(self).last_error,
    {
        let ghost h = self.view();
        match self.current.take() {
            Some(prev) => {
                match kind {
                    NavKind::Normal => {
                        self.back_stack.push(prev);
                        self.forward_stack.clear();
                        assert(locs(self.forward_stack@) =~= Seq::<Seq<char>>::empty());
                    },
                    NavKind::Back => {
                        self.forward_stack.push(prev);
                    },
                    NavKind::Forward => {
                        self.back_stack.push(prev);
                    },
                    NavKind::Reload => {},
                }
                assert(locs(self.back_stack@) =~= arrive_step(h, opt_loc(locator), kind).0);
                assert(locs(self.forward_stack@) =~= arrive_step(h, opt_loc(locator), kind).1);
            },
            None => {},
        }
        self.current = locator;
    }

    /// Land a finished fetch for the walk in flight (call once per frame with
    /// what it delivered). An arrival hands back the result with where it is
    /// and how it was reached (apply it, then call `arrive`); a failure records
    /// a short message and restores a back/forward entry; a stopped fetch just
    /// ends the walk.
    pub fn land<T>(&mut self, delivery: Delivery<T>) -> (r: Option<(T, String, NavKind)>)
        ensures
            final(self).actor_sub == old(self).actor_sub,
            ({
                let h = old(self).view();
                match h.4 {
                    None => r is None && final(self).view() == h && final(self).last_error == old(self).last_error,
                    Some((loc, kind)) => match delivery {
                        Delivery::Pending => r is None && final(self).view() == h
                            && final(self).last_error == old(self).last_error,
                        Delivery::Arrived(t) => (r matches Some((x, l, k)) && x == t && l@ == loc && k == kind)
                            && final(self).view() == landed(h)
                            && final(self).last_error == old(self).last_error,
                        Delivery::Failed(e) => r is None && final(self).view() == fail_step(h)
                            && (final(self).last_error matches Some(m) && m@ == short_error_spec(e@)),
                        Delivery::Stopped => r is None && final(self).view() == landed(h)
                            && final(self).last_error == old(self).last_error,
                    },
                }
            }),
    {
        if self.pending.is_none() {
            return None;
        }
        let ghost h = self.view();
        match delivery {
            Delivery::Pending => None,
            Delivery::Arrived(t) => {
                let (loc, kind) = self.pending.take().unwrap();
                Some((t, loc, kind))
            },
            Delivery::Failed(e) => {
                self.last_error = Some(short_error(e.as_str()));
                let (loc, kind) = self.pending.take().unwrap();
                match kind {
                    NavKind::Back => {
                        self.back_stack.push(loc);
                        assert(locs(self.back_stack@) =~= fail_step(h).0);
                    },
                    NavKind::Forward => {
                        self.forward_stack.push(loc);
                        assert(locs(self.forward_stack@) =~= fail_step(h).1);
                    },
                    _ => {},
                }
                None
            },
            Delivery::Stopped => {
                self.pending = None;
                None
            },
        }
    }
}

/// Back then forward is a round trip: from a settled session with somewhere
/// to go back to, walking back and then forward again (each walk landing and
/// arriving) leaves the history and the address exactly as they were.
pub proof fn lemma_back_then_forward_round_trips(h: HistoryView)
    requires
        h.4 is None,
        h.0.len() > 0,
        h.2 is Some,
    ensures
        ({
            let (b, dest) = back_step(h);
            let at = arrive_step(landed(b), dest, NavKind::Back);
            let (f, dest2) = forward_step(at);
            let home_again = arrive_step(landed(f), dest2, NavKind::Forward);
            &&& dest2 == h.2
            &&& home_again.0 == h.0
            &&& home_again.1 == h.1
            &&& home_again.2 == h.2
        }),
{
    let (b, dest) = back_step(h);
    let at = arrive_step(landed(b), dest, NavKind::Back);
    assert(at.1.drop_last() =~= h.1);
    let (f, dest2) = forward_step(at);
    let home_again = arrive_step(landed(f), dest2, NavKind::Forward);
    assert(home_again.0 =~= h.0);
}

/// A reload is not a navigation: it keeps both stacks.
pub proof fn lemma_reload_keeps_history(h: HistoryView, locator: Option<Seq<char>>)
    ensures
        arrive_step(h, locator, NavKind::Reload).0 == h.0,
        arrive_step(h, locator, NavKind::Reload).1 == h.1,
        arrive_step(h, locator, NavKind::Reload).2 == locator,
{
}

/// A fresh navigation forks history: nothing is left ahead, and the departed
/// world is the newest entry behind.
pub proof fn lemma_navigation_forks_history(h: HistoryView, locator: Option<Seq<char>>)
    requires
        h.2 is Some,
    ensures
        arrive_step(h, locator, NavKind::Normal).1.len() == 0,
        arrive_step(h, locator, NavKind::Normal).0 == h.0.push(h.2->0),
{
}

/// A failed back walk does not eat the history entry: pressing back and then
/// failing leaves both stacks as they were.
pub proof fn lemma_failed_back_keeps_history(h: HistoryView)
    requires
        h.4 is None,
        h.0.len() > 0,
    ensures
        fail_step(back_step(h).0).0 == h.0,
        fail_step(back_step(h).0).1 == h.1,
        fail_step(back_step(h).0).4 is None,
{
    assert(h.0.drop_last().push(h.0.last()) =~= h.0);
}


/// A failed forward walk does not eat the history entry either: pressing
/// forward and then failing leaves both stacks as they were, so the traveler
/// can still go forward.
pub proof fn lemma_failed_forward_keeps_history(h: HistoryView)
    requires
        h.4 is None,
        h.1.len() > 0,
    ensures
        fail_step(forward_step(h).0).0 == h.0,
        fail_step(forward_step(h).0).1 == h.1,
        fail_step(forward_step(h).0).1.len() > 0,
        fail_step(forward_step(h).0).4 is None,
{
    assert(h.1.drop_last().push(h.1.last()) =~= h.1);
}

} // verus!
