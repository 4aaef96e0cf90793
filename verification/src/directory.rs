//! The worlds directory — a "jump anywhere" list of places on the Thread,
//! plus the ranked live search. Fetches are done by the caller: the methods
//! that need one return the URL to fetch, and [`Directory::poll`] takes what
//! the fetches delivered.

use vstd::prelude::*;
use vstd::string::StringSliceAdditionalSpecFns;
use crate::fetch::Delivery;
use crate::text::{chars_of, push_all, push_str, same_text, string_of_all, trim, trim_end_char, trim_end_matching, trimmed};
use crate::urls::{encode_bytes, normalize_locator, normalize_locator_spec, percent_encode};

verus! {

/// One listed world.
#[derive(Debug, Clone)]
pub struct WorldEntry {
    pub title: String,
    pub locator: String,
    pub description: String,
}

/// One ranked search result from the Waystone index (`/thread/search`).
#[derive(Debug, Clone)]
pub struct SearchHit {
    pub title: String,
    pub locator: String,
    /// Content snippet matching the query.
    pub snippet: String,
    /// How many veils lead here.
    pub veils_in: u32,
}

/// The worlds directory.
pub struct Directory {
    pub base: String,
    pub open: bool,
    pub entries: Option<Vec<WorldEntry>>,
    pub error: Option<String>,
    /// Whether the world-list fetch is in flight.
    pub pending: bool,
    /// The query the current result set answers.
    pub search_query: String,
    pub search_results: Option<Vec<SearchHit>>,
    /// The query whose ranked search is in flight.
    pub search_pending: Option<String>,
}

/// Minimal percent-encoding for a query-string value: unreserved bytes kept,
/// space as `+`, everything else `%XX`.
pub fn urlencode(s: &str) -> (out: String)
    ensures
        out@ == encode_bytes(s.spec_bytes(), true),
{
    percent_encode(s, true)
}

/// `base` without trailing `/`, followed by `path`.
pub open spec fn api_url(base: Seq<char>, path: Seq<char>) -> Seq<char> {
    trim_end_char(base, '/') + path
}

fn api_url_exec(base: &str, path: &str) -> (r: String)
    ensures
        r@ == api_url(base@, path@),
{
    let b = chars_of(base);
    let t = trim_end_matching(&b, '/');
    let mut r = string_of_all(&t);
    push_str(&mut r, path);
    r
}

/// The entries of a fetched list that carry a Locator, in order.
pub open spec fn located(v: Seq<WorldEntry>) -> Seq<WorldEntry>
    decreases v.len(),
{
    if v.len() == 0 {
        v
    } else if v.last().locator@.len() == 0 {
        located(v.drop_last())
    } else {
        located(v.drop_last()).push(v.last())
    }
}

/// The hits of a fetched result set that carry a Locator, in order.
pub open spec fn located_hits(v: Seq<SearchHit>) -> Seq<SearchHit>
    decreases v.len(),
{
    if v.len() == 0 {
        v
    } else if v.last().locator@.len() == 0 {
        located_hits(v.drop_last())
    } else {
        located_hits(v.drop_last()).push(v.last())
    }
}

/// Drop listed worlds without a Locator.
pub fn worlds_with_locator(list: Vec<WorldEntry>) -> (r: Vec<WorldEntry>)
    ensures
        r@ == located(list@),
{
    let mut r: Vec<WorldEntry> = Vec::new();
    let mut rest = list;
    let ghost all = rest@;
    let mut i: usize = 0;
    let n = rest.len();
    while i < n
        invariant
            i <= n,
            n == all.len(),
            rest@ == all.skip(i as int),
            r@ == located(all.take(i as int)),
        decreases n - i,
    {
        let e = rest.remove(0);
        assert(all.take(i + 1).drop_last() == all.take(i as int));
        assert(all.skip(i as int)[0] == all[i as int]);
        assert(rest@ =~= all.skip(i + 1));
        if chars_of(e.locator.as_str()).len() > 0 {
            r.push(e);
        }
        i += 1;
    }
    assert(all.take(n as int) == all);
    r
}

/// Drop search hits without a Locator.
pub fn hits_with_locator(list: Vec<SearchHit>) -> (r: Vec<SearchHit>)
    ensures
        r@ == located_hits(list@),
{
    let mut r: Vec<SearchHit> = Vec::new();
    let mut rest = list;
    let ghost all = rest@;
    let mut i: usize = 0;
    let n = rest.len();
    while i < n
        invariant
            i <= n,
            n == all.len(),
            rest@ == all.skip(i as int),
            r@ == located_hits(all.take(i as int)),
        decreases n - i,
    {
        let e = rest.remove(0);
        assert(all.take(i + 1).drop_last() == all.take(i as int));
        assert(all.skip(i as int)[0] == all[i as int]);
        assert(rest@ =~= all.skip(i + 1));
        if chars_of(e.locator.as_str()).len() > 0 {
            r.push(e);
        }
        i += 1;
    }
    assert(all.take(n as int) == all);
    r
}

impl Directory {
    /// The first listed world whose Locator has the same base as `loc`.
    pub open spec fn lookup_spec(self, loc: Seq<char>) -> Option<int> {
        match self.entries {
            None => None,
            Some(v) => if exists|i: int|
                0 <= i < v@.len() && normalize_locator_spec(v@[i].locator@)
                    == normalize_locator_spec(loc) {
                Some(
                    choose|i: int|
                        0 <= i < v@.len() && normalize_locator_spec(v@[i].locator@)
                            == normalize_locator_spec(loc) && forall|j: int|
                            0 <= j < i ==> normalize_locator_spec(v@[j].locator@)
                                != normalize_locator_spec(loc),
                )
            } else {
                None
            },
        }
    }

    /// A closed directory over the API at `base`, with nothing fetched yet.
    pub fn new(base: &str) -> (r: Self)
        ensures
            r.base@ == base@,
            !r.open,
            r.entries is None,
            r.error is None,
            !r.pending,
            r.search_query@.len() == 0,
            r.search_results is None,
            r.search_pending is None,
    {
        let mut b = String::new();
        push_str(&mut b, base);
        Self {
            base: b,
            open: false,
            entries: None,
            error: None,
            pending: false,
            search_query: String::new(),
            search_results: None,
            search_pending: None,
        }
    }

    pub fn is_open(&self) -> (r: bool)
        ensures
            r == self.open,
    {
        self.open
    }

    pub fn close(&mut self)
        ensures
            !final(self).open,
            final(self).entries == old(self).entries,
            final(self).pending == old(self).pending,
            final(self).search_pending == old(self).search_pending,
            final(self).base == old(self).base,
            final(self).error == old(self).error,
            final(self).search_query == old(self).search_query,
            final(self).search_results == old(self).search_results,
    {
        self.open = false;
    }

    /// Start fetching the world list if it is neither loaded nor in flight;
    /// returns the URL to fetch (`<base>/thread/worlds`) when it starts.
    pub fn ensure_loaded(&mut self) -> (fetch: Option<String>)
        ensures
            final(self).base == old(self).base,
            final(self).search_query == old(self).search_query,
            final(self).search_results == old(self).search_results,
            final(self).search_pending == old(self).search_pending,
            final(self).open == old(self).open,
            final(self).entries == old(self).entries,
            if old(self).entries is Some || old(self).pending {
                fetch is None && *final(self) == *old(self)
            } else {
                (fetch matches Some(u) && u@ == api_url(old(self).base@, "/thread/worlds"@))
                    && final(self).pending && final(self).error is None
            },
    {
        if self.entries.is_some() || self.pending {
            return None;
        }
        self.error = None;
        let url = api_url_exec(self.base.as_str(), "/thread/worlds");
        self.pending = true;
        Some(url)
    }

    /// Open or close the directory; the list starts loading the first time.
    pub fn toggle(&mut self) -> (fetch: Option<String>)
        ensures
            final(self).base == old(self).base,
            final(self).search_query == old(self).search_query,
            final(self).search_results == old(self).search_results,
            final(self).search_pending == old(self).search_pending,
            final(self).open == !old(self).open,
            final(self).entries == old(self).entries,
            if old(self).entries is Some || old(self).pending {
                fetch is None && final(self).pending == old(self).pending && final(self).error
                    == old(self).error
            } else {
                (fetch matches Some(u) && u@ == api_url(old(self).base@, "/thread/worlds"@))
                    && final(self).pending && final(self).error is None
            },
    {
        self.open = !self.open;
        self.ensure_loaded()
    }

    /// Look up a listed world by Locator (ignoring `#anchor` / `@when`).
    pub fn lookup(&self, locator: &str) -> (r: Option<&WorldEntry>)
        ensures
            match self.lookup_spec(locator@) {
                Some(i) => r matches Some(e) && *e == self.entries->0@[i],
                None => r is None,
            },
    {
        let key = normalize_locator(locator);
        let entries = match &self.entries {
            Some(v) => v,
            None => return None,
        };
        let mut i: usize = 0;
        while i < entries.len()
            invariant
                i <= entries.len(),
                self.entries == Some(*entries),
                key@ == normalize_locator_spec(locator@),
                forall|j: int|
                    0 <= j < i ==> normalize_locator_spec(entries@[j].locator@)
                        != normalize_locator_spec(locator@),
            decreases entries.len() - i,
        {
            let n = normalize_locator(entries[i].locator.as_str());
            if same_text(n.as_str(), key.as_str()) {
                assert(normalize_locator_spec(entries@[i as int].locator@) == normalize_locator_spec(
                    locator@,
                ));
                let ghost c = choose|k: int|
                    0 <= k < entries@.len() && normalize_locator_spec(entries@[k].locator@)
                        == normalize_locator_spec(locator@) && forall|j: int|
                        0 <= j < k ==> normalize_locator_spec(entries@[j].locator@)
                            != normalize_locator_spec(locator@);
                assert(c == i) by {
                    if c < i {
                    } else if c > i {
                    }
                }
                assert(self.entries->0@ == entries@);
                assert(self.lookup_spec(locator@) == Some(i as int));
                return Some(&entries[i]);
            }
            i += 1;
        }
        None
    }

    /// Ask the index for ranked places matching `query` (trimmed). A repeat of
    /// the current query does nothing; an empty query clears the results; any
    /// other query replaces the one in flight and returns the URL to fetch
    /// (`<base>/thread/search?q=<encoded query>`).
    pub fn search(&mut self, query: &str) -> (fetch: Option<String>)
        ensures
            final(self).base == old(self).base,
            final(self).open == old(self).open,
            final(self).error == old(self).error,
            final(self).entries == old(self).entries,
            final(self).pending == old(self).pending,
            ({
                let q = trim(query@);
                if q == old(self).search_query@ {
                    fetch is None && *final(self) == *old(self)
                } else if q.len() == 0 {
                    fetch is None && final(self).search_query@ == q && final(self).search_results is None
                        && final(self).search_pending is None
                } else {
                    (fetch matches Some(u) && u@ == api_url(old(self).base@, "/thread/search?q="@)
                        + encode_bytes(vstd::utf8::encode_utf8(q), true)) && final(self).search_query@
                        == q && (final(self).search_pending matches Some(p) && p@ == q)
                        && final(self).search_results == old(self).search_results
                }
            }),
    {
        let qv = chars_of(query);
        let qt = trimmed(&qv);
        let q = string_of_all(&qt);
        if same_text(q.as_str(), self.search_query.as_str()) {
            return None;
        }
        self.search_query = q.clone();
        if qt.len() == 0 {
            self.search_results = None;
            self.search_pending = None;
            return None;
        }
        let mut url = api_url_exec(self.base.as_str(), "/thread/search?q=");
        let enc = urlencode(q.as_str());
        let ev = chars_of(enc.as_str());
        push_all(&mut url, &ev);
        self.search_pending = Some(q);
        Some(url)
    }

    /// The ranked results for the current query, once landed.
    pub fn search_results(&self) -> (r: Option<&[SearchHit]>)
        ensures
            match self.search_results {
                Some(v) => r matches Some(s) && s@ == v@,
                None => r is None,
            },
    {
        match &self.search_results {
            Some(v) => Some(v.as_slice()),
            None => None,
        }
    }

    /// Whether a ranked search is still in flight.
    pub fn search_loading(&self) -> (r: bool)
        ensures
            r == self.search_pending is Some,
    {
        self.search_pending.is_some()
    }

    /// Land what the fetches delivered (call once per frame): a ranked search
    /// that arrives is kept only if it answers the current query; a failed or
    /// stopped search just stops; the world list lands as in
    /// [`Directory::poll_worlds`].
    pub fn poll(&mut self, search: Delivery<Vec<SearchHit>>, worlds: Delivery<Vec<WorldEntry>>)
        ensures
            final(self).base == old(self).base,
            final(self).open == old(self).open,
            final(self).search_query == old(self).search_query,
            match old(self).search_pending {
                None => final(self).search_pending is None && final(self).search_results == old(
                    self,
                ).search_results,
                Some(q) => match search {
                    Delivery::Pending => final(self).search_pending == old(self).search_pending
                        && final(self).search_results == old(self).search_results,
                    Delivery::Arrived(hits) => final(self).search_pending is None
                        && if q@ == old(self).search_query@ {
                        final(self).search_results == Some(hits)
                    } else {
                        final(self).search_results == old(self).search_results
                    },
                    _ => final(self).search_pending is None && final(self).search_results == old(
                        self,
                    ).search_results,
                },
            },
            Self::worlds_landed(*old(self), worlds, *final(self)),
    {
        match &self.search_pending {
            None => {},
            Some(q) => {
                match search {
                    Delivery::Arrived(hits) => {
                        if same_text(q.as_str(), self.search_query.as_str()) {
                            self.search_results = Some(hits);
                        }
                        self.search_pending = None;
                    },
                    Delivery::Pending => {},
                    _ => {
                        self.search_pending = None;
                    },
                }
            },
        }
        self.poll_worlds(worlds);
    }

    /// How the world list lands: with no fetch in flight nothing changes; an
    /// arrived list is kept, an error (or a stopped fetch: "fetch stopped") is
    /// recorded, and either way the fetch is over.
    pub open spec fn worlds_landed(before: Self, d: Delivery<Vec<WorldEntry>>, after: Self) -> bool {
        if !before.pending {
            after.entries == before.entries && after.error == before.error && after.pending
                == before.pending
        } else {
            match d {
                Delivery::Pending => after.entries == before.entries && after.error == before.error
                    && after.pending,
                Delivery::Arrived(list) => after.entries == Some(list) && !after.pending
                    && after.error == before.error,
                Delivery::Failed(e) => after.error == Some(e) && !after.pending && after.entries
                    == before.entries,
                Delivery::Stopped => (after.error matches Some(m) && m@ == "fetch stopped"@)
                    && !after.pending && after.entries == before.entries,
            }
        }
    }

    fn poll_worlds(&mut self, worlds: Delivery<Vec<WorldEntry>>)
        ensures
            final(self).base == old(self).base,
            Self::worlds_landed(*old(self), worlds, *final(self)),
            final(self).open == old(self).open,
            final(self).search_query == old(self).search_query,
            final(self).search_pending == old(self).search_pending,
            final(self).search_results == old(self).search_results,
    {
        if !self.pending {
            return ;
        }
        match worlds {
            Delivery::Pending => {},
            Delivery::Arrived(list) => {
                self.entries = Some(list);
                self.pending = false;
            },
            Delivery::Failed(e) => {
                self.error = Some(e);
                self.pending = false;
            },
            Delivery::Stopped => {
                let mut m = String::new();
                push_str(&mut m, "fetch stopped");
                self.error = Some(m);
                self.pending = false;
            },
        }
    }

    pub fn entries(&self) -> (r: Option<&[WorldEntry]>)
        ensures
            match self.entries {
                Some(v) => r matches Some(s) && s@ == v@,
                None => r is None,
            },
    {
        match &self.entries {
            Some(v) => Some(v.as_slice()),
            None => None,
        }
    }

    pub fn is_loading(&self) -> (r: bool)
        ensures
            r == self.pending,
    {
        self.pending
    }

    pub fn error(&self) -> (r: Option<&str>)
        ensures
            match self.error {
                Some(e) => r matches Some(s) && s@ == e@,
                None => r is None,
            },
    {
        match &self.error {
            Some(e) => Some(e.as_str()),
            None => None,
        }
    }
}

} // verus!
