//! The conformance report model: clauses that are either **Error** (a real
//! violation that fails the suite) or **Warn** (a quality signal that is
//! reported but never breaks conformance), and the transport contract a live
//! host must meet.

use vstd::prelude::*;
use crate::text::{chars_of, decimal, dec_digits, match_at, push_all, push_str, find, find_from};

verus! {

/// Whether a failed clause breaks conformance or is merely a quality signal.
#[derive(Debug, Clone, Copy, PartialEq, Eq)]
pub enum Severity {
    /// A real spec violation — fails the suite.
    Error,
    /// A quality signal — reported, but interop still holds.
    Warn,
}

/// The outcome of one conformance clause.
#[derive(Debug, Clone)]
pub struct Clause {
    pub name: String,
    pub severity: Severity,
    pub pass: bool,
    /// Human-readable specifics (offending worlds, external links, orphans…).
    pub notes: Vec<String>,
}

/// The full conformance report over a corpus.
#[derive(Debug, Clone)]
pub struct Report {
    pub clauses: Vec<Clause>,
    /// How many worlds loaded and validated.
    pub worlds: usize,
}

/// A world that failed to load or validate.
#[derive(Debug, Clone)]
pub struct LoadError {
    pub name: String,
    pub error: String,
}

/// A clause holds up conformance when it passed or is only a warning.
pub open spec fn clause_ok(c: Clause) -> bool {
    c.pass || c.severity == Severity::Warn
}

/// No Error clause failed.
pub open spec fn all_ok(cs: Seq<Clause>) -> bool {
    forall|i: int| 0 <= i < cs.len() ==> clause_ok(#[trigger] cs[i])
}

/// Whether a slice of clauses passes (no failed Error clause).
pub fn clauses_pass(clauses: &[Clause]) -> (r: bool)
    ensures
        r == all_ok(clauses@),
{
    let mut i: usize = 0;
    while i < clauses.len()
        invariant
            i <= clauses@.len(),
            forall|j: int| 0 <= j < i ==> clause_ok(#[trigger] clauses@[j]),
        decreases clauses@.len() - i,
    {
        let c = &clauses[i];
        if !(c.pass || matches!(c.severity, Severity::Warn)) {
            return false;
        }
        i += 1;
    }
    true
}

impl Report {
    /// The suite passes when no Error-severity clause failed.
    pub fn passed(&self) -> (r: bool)
        ensures
            r == all_ok(self.clauses@),
    {
        clauses_pass(self.clauses.as_slice())
    }
}

/// A failed Warn clause never breaks conformance: appending one to a passing
/// list keeps it passing.
pub proof fn lemma_warn_never_fails(cs: Seq<Clause>, w: Clause)
    requires
        all_ok(cs),
        w.severity == Severity::Warn,
    ensures
        all_ok(cs.push(w)),
{
    assert forall|i: int| 0 <= i < cs.push(w).len() implies clause_ok(#[trigger] cs.push(w)[i]) by {
        if i < cs.len() {
            assert(cs.push(w)[i] == cs[i]);
        }
    }
}

/// `"HTTP <status>"`.
pub open spec fn http_note(status: u16) -> Seq<char> {
    "HTTP "@ + dec_digits(status as nat)
}

/// The transport clauses over the response facts, as plain values:
/// `(name, severity, pass, notes)` for each clause.
pub open spec fn transport_spec(reachable: bool, status: u16, content_type: Seq<char>, cors: Seq<char>) -> Seq<
    (Seq<char>, Severity, bool, Seq<Seq<char>>),
> {
    let json_ct = find_from(content_type, "json"@, 0) is Some;
    seq![
        (
            "reachable over HTTPS"@,
            Severity::Error,
            reachable,
            if reachable {
                Seq::empty()
            } else {
                seq![http_note(status)]
            },
        ),
        (
            "serves any-origin CORS"@,
            Severity::Error,
            cors == "*"@,
            if cors == "*"@ {
                Seq::empty()
            } else if cors.len() == 0 {
                seq!["missing Access-Control-Allow-Origin (a web browser can't fetch it)"@]
            } else {
                seq!["Access-Control-Allow-Origin: "@ + cors + " (not '*')"@]
            },
        ),
        (
            "declares JSON content-type"@,
            Severity::Warn,
            json_ct,
            if json_ct {
                Seq::empty()
            } else {
                seq!["Content-Type: '"@ + content_type + "' (expected application/json)"@]
            },
        ),
    ]
}

pub open spec fn clause_model(c: Clause) -> (Seq<char>, Severity, bool, Seq<Seq<char>>) {
    (c.name@, c.severity, c.pass, Seq::new(c.notes@.len(), |i: int| c.notes@[i]@))
}

pub(crate) fn text(s: &str) -> (r: String)
    ensures
        r@ == s@,
{
    let mut r = String::new();
    push_str(&mut r, s);
    r
}

/// The transport contract a live host must satisfy so any browser — including
/// a cross-origin web one — can walk it. `reachable` is whether the GET
/// completed with a 2xx.
pub fn transport_clauses(reachable: bool, status: u16, content_type: &str, cors: &str) -> (r: Vec<Clause>)
    ensures
        Seq::new(r@.len(), |i: int| clause_model(r@[i])) == transport_spec(
            reachable,
            status,
            content_type@,
            cors@,
        ),
{
    let mut n1: Vec<String> = Vec::new();
    if !reachable {
        let mut t = text("HTTP ");
        let d = decimal(status as u64);
        push_all(&mut t, &d);
        n1.push(t);
    }
    let cors_v = chars_of(cors);
    let star = chars_of("*");
    let cors_star = cors_v.len() == star.len() && match_at(&cors_v, 0, &star);
    assert(cors_star == (cors@ == "*"@)) by {
        if cors_v.len() == star.len() {
            assert(cors_v@.subrange(0, star.len() as int) == cors_v@);
        }
    }
    let mut n2: Vec<String> = Vec::new();
    if !cors_star {
        if cors_v.len() == 0 {
            n2.push(text("missing Access-Control-Allow-Origin (a web browser can't fetch it)"));
        } else {
            let mut t = text("Access-Control-Allow-Origin: ");
            push_str(&mut t, cors);
            push_str(&mut t, " (not '*')");
            n2.push(t);
        }
    }
    let ct_v = chars_of(content_type);
    let json = chars_of("json");
    let json_ct = find(&ct_v, &json, 0).is_some();
    let mut n3: Vec<String> = Vec::new();
    if !json_ct {
        let mut t = text("Content-Type: '");
        push_str(&mut t, content_type);
        push_str(&mut t, "' (expected application/json)");
        n3.push(t);
    }
    let r = vec![
        Clause { name: text("reachable over HTTPS"), severity: Severity::Error, pass: reachable, notes: n1 },
        Clause { name: text("serves any-origin CORS"), severity: Severity::Error, pass: cors_star, notes: n2 },
        Clause { name: text("declares JSON content-type"), severity: Severity::Warn, pass: json_ct, notes: n3 },
    ];
    let ghost m = Seq::new(r@.len(), |i: int| clause_model(r@[i]));
    let ghost t = transport_spec(reachable, status, content_type@, cors@);
    assert(m[0] == t[0]);
    assert(m[1] == t[1]);
    assert(m[2] == t[2]);
    assert(m =~= t);
    r
}

/// The transport contract passes exactly when the host is reachable and serves
/// any-origin CORS; the content type is only a warning.
pub proof fn lemma_transport_pass(reachable: bool, status: u16, content_type: Seq<char>, cors: Seq<char>, r: Seq<Clause>)
    requires
        Seq::new(r.len(), |i: int| clause_model(r[i])) == transport_spec(reachable, status, content_type, cors),
    ensures
        all_ok(r) == (reachable && cors == "*"@),
{
    let m = Seq::new(r.len(), |i: int| clause_model(r[i]));
    let t = transport_spec(reachable, status, content_type, cors);
    assert(t.len() == 3);
    assert(m.len() == r.len());
    assert(r.len() == 3);
    assert(clause_model(r[0]) == m[0]);
    assert(clause_model(r[1]) == m[1]);
    assert(clause_model(r[2]) == m[2]);
    if reachable && cors == "*"@ {
        assert forall|i: int| 0 <= i < r.len() implies clause_ok(#[trigger] r[i]) by {
            assert(clause_model(r[i]) == m[i]);
        }
    } else if !reachable {
        assert(!clause_ok(r[0]));
    } else {
        assert(!clause_ok(r[1]));
    }
}

/// The result of a live relay probe.
pub struct RelayOutcome {
    /// Whether the WebSocket connected at all.
    pub connected: bool,
    pub clauses: Vec<Clause>,
    /// Free-form observations (occupant count, whether a pose was seen, …).
    pub notes: Vec<String>,
}

/// The result of a live rendezvous probe.
pub struct RendezvousOutcome {
    /// Whether the WebSocket connected at all.
    pub connected: bool,
    pub clauses: Vec<Clause>,
    /// Free-form observations (peer count, whether welcome was assigned, …).
    pub notes: Vec<String>,
}

/// What the wire checkers read of a JSON message, as plain values.
pub struct WireMsg {
    /// `t`, when it is a string.
    pub t: Option<String>,
    /// How the `t` field reads in a note (the field as found, or its absence).
    pub t_text: String,
    /// `id`, when it is an unsigned integer.
    pub id: Option<u64>,
    /// `ts`, when it is an unsigned integer.
    pub ts: Option<u64>,
    /// Whether `occupants` is an array.
    pub occupants_listed: bool,
    /// `tick_hz`, when it is an unsigned integer.
    pub tick_hz: Option<u64>,
    /// `observer`, when it is a boolean.
    pub observer: Option<bool>,
    /// How the `observer` field reads, when it is present at all.
    pub observer_text: Option<String>,
    /// Whether `peers` is an array of unsigned integers.
    pub peer_ids: bool,
    /// Whether `p` holds three finite numbers.
    pub position: bool,
    /// Whether `v` holds three finite numbers.
    pub velocity: bool,
    /// When `r` holds four finite numbers: whether they form a unit quaternion.
    pub quaternion: Option<bool>,
    /// Whether a yaw `y` is given as a number.
    pub yaw: bool,
    /// `a`, when it is an unsigned integer.
    pub anim: Option<u64>,
}

pub type ClauseModel = (Seq<char>, Severity, bool, Seq<Seq<char>>);

pub open spec fn clauses_model(r: Seq<Clause>) -> Seq<ClauseModel> {
    Seq::new(r.len(), |i: int| clause_model(r[i]))
}

pub open spec fn opt_is(t: Option<String>, want: Seq<char>) -> bool {
    t matches Some(s) && s@ == want
}

/// The clause checking a message's `t` tag, with the found tag in its note
/// when it is wrong.
pub open spec fn tag_clause(name: Seq<char>, m: WireMsg, want: Seq<char>) -> ClauseModel {
    (name, Severity::Error, opt_is(m.t, want), if opt_is(m.t, want) {
        Seq::empty()
    } else {
        seq!["t = "@ + m.t_text@]
    })
}

pub(crate) fn tag_is(t: &Option<String>, want: &str) -> (r: bool)
    ensures
        r == opt_is(*t, want@),
{
    match t {
        Some(s) => crate::text::same_text(s.as_str(), want),
        None => false,
    }
}

pub(crate) fn tag_clause_exec(name: &str, m: &WireMsg, want: &str) -> (c: Clause)
    ensures
        clause_model(c) == tag_clause(name@, *m, want@),
{
    let pass = tag_is(&m.t, want);
    let mut notes: Vec<String> = Vec::new();
    if !pass {
        let mut n = text("t = ");
        push_str(&mut n, m.t_text.as_str());
        notes.push(n);
    }
    let c = Clause { name: text(name), severity: Severity::Error, pass, notes };
    assert(clause_model(c).3 =~= tag_clause(name@, *m, want@).3);
    c
}

pub(crate) fn plain_clause(name: &str, severity: Severity, pass: bool) -> (c: Clause)
    ensures
        clause_model(c) == (name@, severity, pass, Seq::<Seq<char>>::empty()),
{
    let c = Clause { name: text(name), severity, pass, notes: Vec::new() };
    assert(clause_model(c).3 =~= Seq::<Seq<char>>::empty());
    c
}

pub(crate) fn noted_clause(name: &str, severity: Severity, pass: bool, note: &str) -> (c: Clause)
    ensures
        clause_model(c) == (name@, severity, pass, seq![note@]),
{
    let c = Clause { name: text(name), severity, pass, notes: vec![text(note)] };
    assert(clause_model(c).3 =~= seq![note@]);
    c
}

/// No Error clause failed, read off the clauses' plain values.
pub open spec fn models_ok(ms: Seq<ClauseModel>) -> bool {
    forall|i: int| 0 <= i < ms.len() ==> (#[trigger] ms[i]).2 || ms[i].1 == Severity::Warn
}

/// Whether clauses pass is decided by their plain values.
pub proof fn lemma_models_decide(r: Seq<Clause>)
    ensures
        all_ok(r) == models_ok(clauses_model(r)),
{
    let ms = clauses_model(r);
    if all_ok(r) {
        assert forall|i: int| 0 <= i < ms.len() implies (#[trigger] ms[i]).2 || ms[i].1 == Severity::Warn by {
            assert(clause_ok(r[i]));
        }
    }
    if models_ok(ms) {
        assert forall|i: int| 0 <= i < r.len() implies clause_ok(#[trigger] r[i]) by {
            assert(ms[i] == clause_model(r[i]));
        }
    }
}

} // verus!
