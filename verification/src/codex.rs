//! In-world Codex reader — the "inspect" side of the Thread.
//!
//! Opening an entry either shows it from the session cache or asks the caller
//! to fetch `GET <base>/codex/entities/:slug` (with the Passport token as a
//! bearer, when there is one); the fetch's result comes back through
//! [`CodexClient::poll`].

use vstd::prelude::*;
use crate::fetch::Delivery;
use crate::text::{chars_of, push_str, same_text, trim, trimmed};
use crate::urls::{entry_url, entry_url_spec};

verus! {

/// A Codex entry, shaped to the main agent's read API.
#[derive(Debug, Clone, Default)]
pub struct CodexEntry {
    pub name: String,
    pub slug: String,
    pub kind: String,
    pub subkind: Option<String>,
    pub summary: Option<String>,
    pub description: Option<String>,
    pub tags: Vec<String>,
    pub access_tier: Option<String>,
}

/// What to draw for the Codex reader this frame.
#[derive(Debug, Clone)]
pub struct CodexPanel {
    pub title: String,
    pub subtitle: String,
    pub body: String,
    pub loading: bool,
}

/// Where the reader is.
pub enum CodexState {
    Idle,
    Loading(String),
    Loaded(CodexEntry),
    Error(String, String),
}

/// What the caller must fetch for an entry that is not cached.
pub struct CodexFetch {
    pub url: String,
    /// The Passport bearer token to present, if any.
    pub token: Option<String>,
}

/// The in-world Codex reader.
pub struct CodexClient {
    pub base: String,
    /// Passport bearer token; `None` reads as public.
    pub token: Option<String>,
    pub state: CodexState,
    /// Entries fetched this session, by slug.
    pub cache: Vec<(String, CodexEntry)>,
    /// The slug whose fetch is in flight.
    pub pending: Option<String>,
}

pub open spec fn opt_view(s: Option<String>) -> Option<Seq<char>> {
    match s {
        Some(t) => Some(t@),
        None => None,
    }
}

/// A panel as plain text: title, subtitle, body, loading.
pub open spec fn panel_model(p: CodexPanel) -> (Seq<char>, Seq<char>, Seq<char>, bool) {
    (p.title@, p.subtitle@, p.body@, p.loading)
}

/// The panel an entry shows: its name (or slug), `kind · subkind` (or just the
/// kind), and its description (or summary).
pub open spec fn entry_panel(e: CodexEntry) -> (Seq<char>, Seq<char>, Seq<char>, bool) {
    (
        if e.name@.len() == 0 {
            e.slug@
        } else {
            e.name@
        },
        match e.subkind {
            Some(s) => if s@.len() > 0 {
                e.kind@ + " \u{b7} "@ + s@
            } else {
                e.kind@
            },
            None => e.kind@,
        },
        match e.description {
            Some(d) => if d@.len() > 0 {
                d@
            } else {
                match e.summary {
                    Some(s) => s@,
                    None => Seq::empty(),
                }
            },
            None => match e.summary {
                Some(s) => s@,
                None => Seq::empty(),
            },
        },
        false,
    )
}

impl CodexClient {
    /// The first cached entry for a slug.
    pub open spec fn cached(self, slug: Seq<char>) -> Option<CodexEntry> {
        if exists|i: int| 0 <= i < self.cache@.len() && self.cache@[i].0@ == slug {
            let i = choose|i: int|
                0 <= i < self.cache@.len() && self.cache@[i].0@ == slug && forall|j: int|
                    0 <= j < i ==> self.cache@[j].0@ != slug;
            Some(self.cache@[i].1)
        } else {
            None
        }
    }

    /// What [`CodexClient::panel`] shows in each state.
    pub open spec fn panel_spec(self) -> Option<(Seq<char>, Seq<char>, Seq<char>, bool)> {
        match self.state {
            CodexState::Idle => None,
            CodexState::Loading(slug) => Some(
                (slug@, "Consulting the Codex\u{2026}"@, Seq::empty(), true),
            ),
            CodexState::Loaded(e) => Some(entry_panel(e)),
            CodexState::Error(slug, msg) => Some(
                (slug@, "The Codex is out of reach"@, msg@, false),
            ),
        }
    }

    pub fn new(base: &str) -> (r: Self)
        ensures
            r.base@ == base@,
            r.token is None,
            r.state is Idle,
            r.cache@.len() == 0,
            r.pending is None,
    {
        let mut b = String::new();
        push_str(&mut b, base);
        Self { base: b, token: None, state: CodexState::Idle, cache: Vec::new(), pending: None }
    }

    /// Present a Passport on Codex reads; a missing or blank token reads as
    /// public.
    pub fn with_token(self, token: Option<String>) -> (r: Self)
        ensures
            r.base == self.base,
            r.cache == self.cache,
            r.pending == self.pending,
            match token {
                Some(t) => if trim(t@).len() == 0 {
                    r.token is None
                } else {
                    r.token == Some(t)
                },
                None => r.token is None,
            },
    {
        let mut me = self;
        me.token = match token {
            Some(t) => {
                let v = chars_of(t.as_str());
                let tv = trimmed(&v);
                if tv.len() == 0 {
                    None
                } else {
                    Some(t)
                }
            },
            None => None,
        };
        me
    }

    /// Whether a reader panel is currently showing (or loading).
    pub fn is_open(&self) -> (r: bool)
        ensures
            r == !(self.state is Idle),
    {
        !matches!(self.state, CodexState::Idle)
    }

    pub fn close(&mut self)
        ensures
            final(self).state is Idle,
            final(self).pending is None,
            final(self).cache == old(self).cache,
            final(self).token == old(self).token,
            final(self).base == old(self).base,
    {
        self.state = CodexState::Idle;
        self.pending = None;
    }

    fn lookup(&self, slug: &str) -> (r: Option<usize>)
        ensures
            match r {
                Some(i) => i < self.cache@.len() && self.cached(slug@) == Some(self.cache@[i as int].1),
                None => self.cached(slug@) is None,
            },
    {
        let mut i: usize = 0;
        while i < self.cache.len()
            invariant
                i <= self.cache.len(),
                forall|j: int| 0 <= j < i ==> self.cache@[j].0@ != slug@,
            decreases self.cache.len() - i,
        {
            if same_text(self.cache[i].0.as_str(), slug) {
                let ghost c = choose|k: int|
                    0 <= k < self.cache@.len() && self.cache@[k].0@ == slug@ && forall|j: int|
                        0 <= j < k ==> self.cache@[j].0@ != slug@;
                assert(c == i) by {
                    if c < i {
                    } else if c > i {
                    }
                }
                return Some(i);
            }
            i += 1;
        }
        None
    }

    /// Open a Codex entry by slug: a cached entry shows at once (returns
    /// `None`); otherwise the reader starts loading and returns what to fetch.
    pub fn open(&mut self, slug: &str) -> (fetch: Option<CodexFetch>)
        ensures
            final(self).cache == old(self).cache,
            final(self).token == old(self).token,
            final(self).base == old(self).base,
            match old(self).cached(slug@) {
                Some(e) => fetch is None && (final(self).state matches CodexState::Loaded(x) && x.view()
                    == e.view()) && final(self).pending == old(self).pending,
                None => fetch matches Some(f) && f.url@ == entry_url_spec(old(self).base@, slug@)
                    && f.token == old(self).token && (final(self).state matches CodexState::Loading(
                    s,
                ) && s@ == slug@) && (final(self).pending matches Some(p) && p@ == slug@),
            },
    {
        match self.lookup(slug) {
            Some(i) => {
                self.state = CodexState::Loaded(self.cache[i].1.clone_entry());
                None
            },
            None => {
                let url = entry_url(self.base.as_str(), slug);
                let token = match &self.token {
                    Some(t) => Some(t.clone()),
                    None => None,
                };
                let mut s = String::new();
                push_str(&mut s, slug);
                self.state = CodexState::Loading(s.clone());
                self.pending = Some(s);
                Some(CodexFetch { url, token })
            },
        }
    }

    /// Collect a finished fetch (call once per frame with what it delivered):
    /// an arrived entry is cached under its slug and shown; a failure shows
    /// the error. Without a fetch in flight nothing changes.
    pub fn poll(&mut self, delivery: Delivery<CodexEntry>)
        ensures
            final(self).base == old(self).base,
            final(self).token == old(self).token,
            old(self).pending is None ==> *final(self) == *old(self),
            old(self).pending matches Some(slug) ==> match delivery {
                Delivery::Pending => *final(self) == *old(self),
                Delivery::Arrived(e) => final(self).state == CodexState::Loaded(e)
                    && final(self).pending is None && final(self).cache@.len() == old(self).cache@.len() + 1
                    && (final(self).cached(slug@) matches Some(c) && c.view() == e.view())
                    && final(self).cache@[0].0@ == slug@ && final(self).cache@[0].1.view() == e.view()
                    && final(self).cache@.drop_first() == old(self).cache@,
                Delivery::Failed(msg) => (final(self).state matches CodexState::Error(s, m) && s@ == slug@
                    && m@ == msg@) && final(self).pending is None && final(self).cache == old(self).cache,
                Delivery::Stopped => (final(self).state matches CodexState::Error(s, m) && s@ == slug@
                    && m@ == "fetch thread stopped"@) && final(self).pending is None
                    && final(self).cache == old(self).cache,
            },
    {
        let slug = match &self.pending {
            None => return ,
            Some(s) => s.clone(),
        };
        match delivery {
            Delivery::Pending => {},
            Delivery::Arrived(entry) => {
                let ghost old_cache = self.cache@;
                let copy = entry.clone_entry();
                self.cache.insert(0, (slug, copy));
                self.state = CodexState::Loaded(entry);
                self.pending = None;
                assert(self.cache@[0].0@ == slug@);
                assert(self.cache@.drop_first() =~= old_cache);
                proof {
                    let c = choose|k: int|
                        0 <= k < self.cache@.len() && self.cache@[k].0@ == slug@ && forall|j: int|
                            0 <= j < k ==> self.cache@[j].0@ != slug@;
                    assert(c == 0);
                }
            },
            Delivery::Failed(msg) => {
                self.state = CodexState::Error(slug, msg);
                self.pending = None;
            },
            Delivery::Stopped => {
                let mut m = String::new();
                push_str(&mut m, "fetch thread stopped");
                self.state = CodexState::Error(slug, m);
                self.pending = None;
            },
        }
    }

    /// The panel to render, or `None` when the reader is closed.
    pub fn panel(&self) -> (r: Option<CodexPanel>)
        ensures
            match r {
                Some(p) => Some(panel_model(p)),
                None => None,
            } == self.panel_spec(),
    {
        match &self.state {
            CodexState::Idle => None,
            CodexState::Loading(slug) => {
                let mut sub = String::new();
                push_str(&mut sub, "Consulting the Codex\u{2026}");
                Some(CodexPanel { title: slug.clone(), subtitle: sub, body: String::new(), loading: true })
            },
            CodexState::Loaded(e) => {
                let title = if chars_of(e.name.as_str()).len() == 0 {
                    e.slug.clone()
                } else {
                    e.name.clone()
                };
                let subtitle = match &e.subkind {
                    Some(s) => {
                        if chars_of(s.as_str()).len() > 0 {
                            let mut t = e.kind.clone();
                            push_str(&mut t, " \u{b7} ");
                            push_str(&mut t, s.as_str());
                            t
                        } else {
                            e.kind.clone()
                        }
                    },
                    None => e.kind.clone(),
                };
                let summary = match &e.summary {
                    Some(s) => s.clone(),
                    None => String::new(),
                };
                let body = match &e.description {
                    Some(d) => {
                        if chars_of(d.as_str()).len() > 0 {
                            d.clone()
                        } else {
                            summary
                        }
                    },
                    None => summary,
                };
                Some(CodexPanel { title, subtitle, body, loading: false })
            },
            CodexState::Error(slug, msg) => {
                let mut sub = String::new();
                push_str(&mut sub, "The Codex is out of reach");
                Some(CodexPanel { title: slug.clone(), subtitle: sub, body: msg.clone(), loading: false })
            },
        }
    }
}

fn clone_opt(s: &Option<String>) -> (r: Option<String>)
    ensures
        r == *s,
{
    match s {
        Some(t) => Some(t.clone()),
        None => None,
    }
}

fn clone_strings(v: &Vec<String>) -> (r: Vec<String>)
    ensures
        r@ == v@,
{
    let mut r: Vec<String> = Vec::new();
    let mut i: usize = 0;
    while i < v.len()
        invariant
            i <= v.len(),
            r@ == v@.take(i as int),
        decreases v.len() - i,
    {
        r.push(v[i].clone());
        i += 1;
        assert(r@ =~= v@.take(i as int));
    }
    assert(v@.take(v.len() as int) == v@);
    r
}

impl CodexEntry {
    /// The entry's fields as plain values.
    pub open spec fn view(self) -> (
        Seq<char>,
        Seq<char>,
        Seq<char>,
        Option<Seq<char>>,
        Option<Seq<char>>,
        Option<Seq<char>>,
        Seq<String>,
        Option<Seq<char>>,
    ) {
        (
            self.name@,
            self.slug@,
            self.kind@,
            opt_view(self.subkind),
            opt_view(self.summary),
            opt_view(self.description),
            self.tags@,
            opt_view(self.access_tier),
        )
    }

    /// A field-for-field copy.
    pub fn clone_entry(&self) -> (r: Self)
        ensures
            r.view() == self.view(),
    {
        CodexEntry {
            name: self.name.clone(),
            slug: self.slug.clone(),
            kind: self.kind.clone(),
            subkind: clone_opt(&self.subkind),
            summary: clone_opt(&self.summary),
            description: clone_opt(&self.description),
            tags: clone_strings(&self.tags),
            access_tier: clone_opt(&self.access_tier),
        }
    }
}


/// A loaded entry's panel shows its description whenever it has a non-empty
/// one; the summary is shown only when the description is missing or empty.
pub proof fn lemma_panel_prefers_description(c: CodexClient, e: CodexEntry)
    requires
        c.state == CodexState::Loaded(e),
    ensures
        c.panel_spec() matches Some(p) && {
            &&& (e.description matches Some(d) && d@.len() > 0) ==> p.2 == e.description->0@
            &&& !(e.description matches Some(d) && d@.len() > 0) ==> p.2 == match e.summary {
                Some(s) => s@,
                None => Seq::<char>::empty(),
            }
            &&& p.0 == (if e.name@.len() == 0 {
                e.slug@
            } else {
                e.name@
            })
            &&& !p.3
        },
{
}

} // verus!
