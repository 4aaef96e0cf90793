//! The live conformance probes as state machines. The caller owns the
//! sockets and the clock: it performs each [`ProbeAction`] and hands back what
//! happened as a [`ProbeEvent`]; the probe decides what the relay (or the
//! rendezvous) has shown and which clauses and notes that earns.
//!
//! The relay probe joins on one socket (sending a `join` and one `pose`),
//! checks the first `welcome` and the first `pose` it reads, and then watches
//! the world from a second socket with `observe`, checking the observer's
//! `welcome` and counting any pose that reaches the watcher.

use vstd::prelude::*;
use crate::conformance::{
    clause_model, clauses_model, noted_clause, plain_clause, tag_is, text, Clause, ClauseModel,
    RelayOutcome, RendezvousOutcome, Severity, WireMsg, opt_is, models_ok,
};
use crate::constellation::texts;
use crate::relay_wire::{check_observer_welcome, check_pose, check_welcome, observer_extra_spec, pose_spec, welcome_spec};
use crate::rendezvous_wire::{check_peers, peers_spec};
use crate::text::{decimal, dec_digits, push_all, push_str};

verus! {

/// Where a probe stands.
#[derive(Debug, Clone, Copy, PartialEq, Eq)]
pub enum ProbePhase {
    /// Waiting for the (first) socket to connect.
    Connecting,
    /// Joined: reading the relay's replies (the rendezvous: its introduction).
    Reading,
    /// Waiting for the watching socket to connect.
    Watching,
    /// Watching: reading what the relay sends an observer.
    Observing,
    /// Finished; the outcome is ready.
    Done,
}

/// What the caller does next.
#[derive(Debug, Clone, Copy, PartialEq, Eq)]
pub enum ProbeAction {
    /// Send the opening messages on the socket that just connected (the relay:
    /// `join` and one `pose`; the rendezvous: `announce`), then read.
    Open,
    /// Keep reading the current socket until the next message or the timeout.
    Read,
    /// Open the second, watching socket.
    Watch,
    /// Send `observe` on the watching socket, then read it.
    Observe,
    /// Stop; the outcome is ready.
    Finish,
}

/// What happened since the last action.
pub enum ProbeEvent {
    /// The socket connected.
    Connected,
    /// The socket could not connect; the error as text.
    ConnectFailed(String),
    /// A text frame that parsed as JSON, read into a [`WireMsg`], with the
    /// number of entries of its `occupants` (relay) or `peers` (rendezvous)
    /// array when it has one.
    Message(WireMsg, Option<u64>),
    /// The reading deadline passed.
    TimedOut,
    /// The watching socket connected.
    WatchConnected,
    /// The watching socket could not connect; the error as text.
    WatchConnectFailed(String),
    /// A JSON text frame read on the watching socket.
    WatchMessage(WireMsg),
    /// The watching deadline passed.
    WatchTimedOut,
}

/// A relay probe in progress.
pub struct RelayProbe {
    pub phase: ProbePhase,
    /// Whether the first socket connected.
    pub connected: bool,
    pub saw_welcome: bool,
    pub saw_pose: bool,
    /// Whether the watching socket was welcomed.
    pub watch_welcomed: bool,
    /// How many poses reached the watching socket.
    pub poses_leaked: u64,
    pub clauses: Vec<Clause>,
    pub notes: Vec<String>,
}

/// A relay probe as plain values: phase, connected, welcome seen, pose seen,
/// watcher welcomed, poses leaked to the watcher, clauses, notes.
pub type RelayProbeView = (ProbePhase, bool, bool, bool, bool, u64, Seq<ClauseModel>, Seq<Seq<char>>);

pub open spec fn relay_reach_clause(pass: bool, notes: Seq<Seq<char>>) -> ClauseModel {
    ("relay reachable (WebSocket)"@, Severity::Error, pass, notes)
}

pub open spec fn occupants_note(n: u64) -> Seq<char> {
    "relay reports "@ + dec_digits(n as nat) + " occupant(s)"@
}

pub open spec fn no_welcome_clause() -> ClauseModel {
    (
        "relay replies welcome on join"@,
        Severity::Error,
        false,
        seq!["no welcome within timeout (Passport rejected? wrong path?)"@],
    )
}

pub open spec fn no_pose_note() -> Seq<char> {
    "no pose fan-out observed (expected with a lone probe client)"@
}

pub open spec fn watch_failed_note(e: Seq<char>) -> Seq<char> {
    "could not open a second socket to watch: "@ + e
}

pub open spec fn no_observe_note() -> Seq<char> {
    "relay did not answer `observe` \u{2014} watching without entering is unsupported (presence-wire \u{a7}2)"@
}

pub open spec fn no_poses_clause(leaked: u64) -> ClauseModel {
    ("observers are sent no poses"@, Severity::Error, leaked == 0, if leaked == 0 {
        Seq::empty()
    } else {
        seq![dec_digits(leaked as nat) + " pose frame(s) reached a watcher"@]
    })
}

/// The clauses a relay probe has gathered.
pub open spec fn probe_clauses(p: RelayProbeView) -> Seq<ClauseModel> {
    p.6
}

/// The notes a relay probe has gathered.
pub open spec fn probe_notes(p: RelayProbeView) -> Seq<Seq<char>> {
    p.7
}

pub open spec fn relay_probe_start() -> RelayProbeView {
    (ProbePhase::Connecting, false, false, false, false, 0, Seq::empty(), Seq::empty())
}

/// One message read on the joined socket: the first `welcome` is checked (and
/// its occupant count noted), then the first `pose`; anything else is skipped.
pub open spec fn relay_read(p: RelayProbeView, m: WireMsg, occupants: Option<u64>) -> RelayProbeView {
    if opt_is(m.t, "welcome"@) && !p.2 {
        (p.0, p.1, true, p.3, p.4, p.5, p.6 + welcome_spec(m), match occupants {
            Some(n) => p.7.push(occupants_note(n)),
            None => p.7,
        })
    } else if opt_is(m.t, "pose"@) && !p.3 {
        (p.0, p.1, p.2, true, p.4, p.5, p.6 + pose_spec(m), p.7)
    } else {
        p
    }
}

/// The joined socket is done with: a missing welcome fails, a missing pose
/// is only noted; then the watching socket is opened.
pub open spec fn relay_end_reading(p: RelayProbeView) -> RelayProbeView {
    (
        ProbePhase::Watching,
        p.1,
        p.2,
        p.3,
        p.4,
        p.5,
        if p.2 {
            p.6
        } else {
            p.6.push(no_welcome_clause())
        },
        if p.3 {
            p.7
        } else {
            p.7.push(no_pose_note())
        },
    )
}

/// One message read on the watching socket: its first `welcome` is checked as
/// an observer's, and every `pose` is counted.
pub open spec fn relay_watch_read(p: RelayProbeView, m: WireMsg) -> RelayProbeView {
    if opt_is(m.t, "welcome"@) && !p.4 {
        (p.0, p.1, p.2, p.3, true, p.5, p.6 + welcome_spec(m) + observer_extra_spec(m), p.7)
    } else if opt_is(m.t, "pose"@) {
        (p.0, p.1, p.2, p.3, p.4, if p.5 < u64::MAX {
            (p.5 + 1) as u64
        } else {
            p.5
        }, p.6, p.7)
    } else {
        p
    }
}

/// The relay probe's step: the state after `ev` and what to do next. An event
/// that does not belong to the current phase changes nothing.
pub open spec fn relay_probe_spec(p: RelayProbeView, ev: ProbeEvent) -> (RelayProbeView, ProbeAction) {
    match ev {
        ProbeEvent::Connected => if p.0 == ProbePhase::Connecting {
            (
                (ProbePhase::Reading, true, p.2, p.3, p.4, p.5, p.6.push(relay_reach_clause(true, Seq::empty())), p.7),
                ProbeAction::Open,
            )
        } else {
            (p, idle_action(p.0))
        },
        ProbeEvent::ConnectFailed(e) => if p.0 == ProbePhase::Connecting {
            (
                (ProbePhase::Done, false, p.2, p.3, p.4, p.5, p.6.push(relay_reach_clause(false, seq![e@])), p.7),
                ProbeAction::Finish,
            )
        } else {
            (p, idle_action(p.0))
        },
        ProbeEvent::Message(m, occupants) => if p.0 == ProbePhase::Reading {
            let q = relay_read(p, m, occupants);
            if q.2 && q.3 {
                (relay_end_reading(q), ProbeAction::Watch)
            } else {
                (q, ProbeAction::Read)
            }
        } else {
            (p, idle_action(p.0))
        },
        ProbeEvent::TimedOut => if p.0 == ProbePhase::Reading {
            (relay_end_reading(p), ProbeAction::Watch)
        } else {
            (p, idle_action(p.0))
        },
        ProbeEvent::WatchConnected => if p.0 == ProbePhase::Watching {
            ((ProbePhase::Observing, p.1, p.2, p.3, p.4, p.5, p.6, p.7), ProbeAction::Observe)
        } else {
            (p, idle_action(p.0))
        },
        ProbeEvent::WatchConnectFailed(e) => if p.0 == ProbePhase::Watching {
            ((ProbePhase::Done, p.1, p.2, p.3, p.4, p.5, p.6, p.7.push(watch_failed_note(e@))), ProbeAction::Finish)
        } else {
            (p, idle_action(p.0))
        },
        ProbeEvent::WatchMessage(m) => if p.0 == ProbePhase::Observing {
            (relay_watch_read(p, m), ProbeAction::Read)
        } else {
            (p, idle_action(p.0))
        },
        ProbeEvent::WatchTimedOut => if p.0 == ProbePhase::Observing {
            (
                (
                    ProbePhase::Done,
                    p.1,
                    p.2,
                    p.3,
                    p.4,
                    p.5,
                    if p.4 {
                        p.6.push(no_poses_clause(p.5))
                    } else {
                        p.6
                    },
                    if p.4 {
                        p.7
                    } else {
                        p.7.push(no_observe_note())
                    },
                ),
                ProbeAction::Finish,
            )
        } else {
            (p, idle_action(p.0))
        },
    }
}

/// What to do after an event that does not belong to the phase: keep waiting
/// where the probe waits, stop where it is done.
pub open spec fn idle_action(phase: ProbePhase) -> ProbeAction {
    match phase {
        ProbePhase::Connecting => ProbeAction::Read,
        ProbePhase::Reading => ProbeAction::Read,
        ProbePhase::Watching => ProbeAction::Read,
        ProbePhase::Observing => ProbeAction::Read,
        ProbePhase::Done => ProbeAction::Finish,
    }
}

fn idle_action_exec(phase: ProbePhase) -> (a: ProbeAction)
    ensures
        a == idle_action(phase),
{
    match phase {
        ProbePhase::Done => ProbeAction::Finish,
        _ => ProbeAction::Read,
    }
}

/// Appends `more` to `out`.
fn append_clauses(out: &mut Vec<Clause>, more: Vec<Clause>)
    ensures
        clauses_model(final(out)@) == clauses_model(old(out)@) + clauses_model(more@),
{
    let mut more = more;
    let ghost a = out@;
    let ghost b = more@;
    out.append(&mut more);
    assert(clauses_model(out@) =~= clauses_model(a) + clauses_model(b));
}

fn push_clause(out: &mut Vec<Clause>, c: Clause)
    ensures
        clauses_model(final(out)@) == clauses_model(old(out)@).push(clause_model(c)),
{
    let ghost a = out@;
    out.push(c);
    assert(clauses_model(out@) =~= clauses_model(a).push(clause_model(c)));
}

fn push_note(out: &mut Vec<String>, n: String)
    ensures
        texts(final(out)@) == texts(old(out)@).push(n@),
{
    let ghost a = out@;
    out.push(n);
    assert(texts(out@) =~= texts(a).push(n@));
}

fn copy_string(s: &String) -> (r: String)
    ensures
        r@ == s@,
{
    text(s.as_str())
}

fn copy_clause(c: &Clause) -> (r: Clause)
    ensures
        clause_model(r) == clause_model(*c),
{
    let mut notes: Vec<String> = Vec::new();
    let mut i: usize = 0;
    while i < c.notes.len()
        invariant
            i <= c.notes.len(),
            notes@.len() == i,
            forall|k: int| 0 <= k < i ==> #[trigger] notes@[k]@ == c.notes@[k]@,
        decreases c.notes.len() - i,
    {
        notes.push(copy_string(&c.notes[i]));
        i += 1;
    }
    let r = Clause { name: copy_string(&c.name), severity: c.severity, pass: c.pass, notes };
    assert(clause_model(r).3 =~= clause_model(*c).3);
    r
}

fn copy_clauses(v: &Vec<Clause>) -> (r: Vec<Clause>)
    ensures
        clauses_model(r@) == clauses_model(v@),
{
    let mut r: Vec<Clause> = Vec::new();
    let mut i: usize = 0;
    while i < v.len()
        invariant
            i <= v.len(),
            clauses_model(r@) == clauses_model(v@).take(i as int),
        decreases v.len() - i,
    {
        let ghost before = r@;
        r.push(copy_clause(&v[i]));
        proof {
            assert(clauses_model(r@) =~= clauses_model(before).push(clause_model(v@[i as int])));
            assert(clauses_model(v@).take(i + 1) =~= clauses_model(v@).take(i as int).push(
                clause_model(v@[i as int]),
            ));
        }
        i += 1;
    }
    assert(clauses_model(v@).take(v.len() as int) =~= clauses_model(v@));
    r
}

fn copy_notes(v: &Vec<String>) -> (r: Vec<String>)
    ensures
        texts(r@) == texts(v@),
{
    let mut r: Vec<String> = Vec::new();
    let mut i: usize = 0;
    while i < v.len()
        invariant
            i <= v.len(),
            r@.len() == i,
            forall|k: int| 0 <= k < i ==> #[trigger] r@[k]@ == v@[k]@,
        decreases v.len() - i,
    {
        r.push(copy_string(&v[i]));
        i += 1;
    }
    assert(texts(r@) =~= texts(v@));
    r
}

/// `<prefix><n><suffix>`.
fn number_note(prefix: &str, n: u64, suffix: &str) -> (r: String)
    ensures
        r@ == prefix@ + dec_digits(n as nat) + suffix@,
{
    let mut t = text(prefix);
    let d = decimal(n);
    push_all(&mut t, &d);
    push_str(&mut t, suffix);
    t
}

impl RelayProbe {
    pub open spec fn view(&self) -> RelayProbeView {
        (
            self.phase,
            self.connected,
            self.saw_welcome,
            self.saw_pose,
            self.watch_welcomed,
            self.poses_leaked,
            clauses_model(self.clauses@),
            texts(self.notes@),
        )
    }

    /// A probe about to connect.
    pub fn new() -> (r: Self)
        ensures
            r.view() == relay_probe_start(),
    {
        let r = RelayProbe {
            phase: ProbePhase::Connecting,
            connected: false,
            saw_welcome: false,
            saw_pose: false,
            watch_welcomed: false,
            poses_leaked: 0,
            clauses: Vec::new(),
            notes: Vec::new(),
        };
        assert(r.view().6 =~= Seq::<ClauseModel>::empty());
        assert(r.view().7 =~= Seq::<Seq<char>>::empty());
        r
    }
}

/// The relay probe's decisions: the probe after `ev`, and what the caller
/// does next.
pub fn relay_probe_step(p: RelayProbe, ev: ProbeEvent) -> (r: (RelayProbe, ProbeAction))
    ensures
        (r.0.view(), r.1) == relay_probe_spec(p.view(), ev),
{
    let mut p = p;
    let ghost v = p.view();
    match ev {
        ProbeEvent::Connected => {
            match p.phase {
                ProbePhase::Connecting => {
                    push_clause(&mut p.clauses, plain_clause("relay reachable (WebSocket)", Severity::Error, true));
                    assert(clauses_model(p.clauses@) =~= v.6.push(relay_reach_clause(true, Seq::empty())));
                    p.phase = ProbePhase::Reading;
                    p.connected = true;
                    (p, ProbeAction::Open)
                },
                _ => {
                    let a = idle_action_exec(p.phase);
                    (p, a)
                },
            }
        },
        ProbeEvent::ConnectFailed(e) => {
            match p.phase {
                ProbePhase::Connecting => {
                    push_clause(&mut p.clauses, noted_clause("relay reachable (WebSocket)", Severity::Error, false, e.as_str()));
                    p.phase = ProbePhase::Done;
                    p.connected = false;
                    (p, ProbeAction::Finish)
                },
                _ => {
                    let a = idle_action_exec(p.phase);
                    (p, a)
                },
            }
        },
        ProbeEvent::Message(m, occupants) => {
            match p.phase {
                ProbePhase::Reading => {
                    if tag_is(&m.t, "welcome") && !p.saw_welcome {
                        p.saw_welcome = true;
                        append_clauses(&mut p.clauses, check_welcome(&m));
                        match occupants {
                            Some(n) => push_note(&mut p.notes, number_note("relay reports ", n, " occupant(s)")),
                            None => {},
                        }
                    } else if tag_is(&m.t, "pose") && !p.saw_pose {
                        p.saw_pose = true;
                        append_clauses(&mut p.clauses, check_pose(&m));
                    }
                    assert(p.view() == relay_read(v, m, occupants));
                    if p.saw_welcome && p.saw_pose {
                        relay_end_reading_exec(&mut p);
                        (p, ProbeAction::Watch)
                    } else {
                        (p, ProbeAction::Read)
                    }
                },
                _ => {
                    let a = idle_action_exec(p.phase);
                    (p, a)
                },
            }
        },
        ProbeEvent::TimedOut => {
            match p.phase {
                ProbePhase::Reading => {
                    relay_end_reading_exec(&mut p);
                    (p, ProbeAction::Watch)
                },
                _ => {
                    let a = idle_action_exec(p.phase);
                    (p, a)
                },
            }
        },
        ProbeEvent::WatchConnected => {
            match p.phase {
                ProbePhase::Watching => {
                    p.phase = ProbePhase::Observing;
                    (p, ProbeAction::Observe)
                },
                _ => {
                    let a = idle_action_exec(p.phase);
                    (p, a)
                },
            }
        },
        ProbeEvent::WatchConnectFailed(e) => {
            match p.phase {
                ProbePhase::Watching => {
                    let mut n = text("could not open a second socket to watch: ");
                    push_str(&mut n, e.as_str());
                    push_note(&mut p.notes, n);
                    p.phase = ProbePhase::Done;
                    (p, ProbeAction::Finish)
                },
                _ => {
                    let a = idle_action_exec(p.phase);
                    (p, a)
                },
            }
        },
        ProbeEvent::WatchMessage(m) => {
            match p.phase {
                ProbePhase::Observing => {
                    if tag_is(&m.t, "welcome") && !p.watch_welcomed {
                        p.watch_welcomed = true;
                        append_clauses(&mut p.clauses, check_observer_welcome(&m));
                        assert(v.6 + (welcome_spec(m) + observer_extra_spec(m)) =~= v.6 + welcome_spec(m)
                            + observer_extra_spec(m));
                    } else if tag_is(&m.t, "pose") {
                        if p.poses_leaked < u64::MAX {
                            p.poses_leaked = p.poses_leaked + 1;
                        }
                    }
                    (p, ProbeAction::Read)
                },
                _ => {
                    let a = idle_action_exec(p.phase);
                    (p, a)
                },
            }
        },
        ProbeEvent::WatchTimedOut => {
            match p.phase {
                ProbePhase::Observing => {
                    if p.watch_welcomed {
                        let c = if p.poses_leaked == 0 {
                            plain_clause("observers are sent no poses", Severity::Error, true)
                        } else {
                            let n = number_note("", p.poses_leaked, " pose frame(s) reached a watcher");
                            proof {
                                reveal_strlit("");
                            }
                            assert(n@ =~= dec_digits(p.poses_leaked as nat) + " pose frame(s) reached a watcher"@);
                            noted_clause("observers are sent no poses", Severity::Error, false, n.as_str())
                        };
                        push_clause(&mut p.clauses, c);
                    } else {
                        push_note(
                            &mut p.notes,
                            text(
                                "relay did not answer `observe` \u{2014} watching without entering is unsupported (presence-wire \u{a7}2)",
                            ),
                        );
                    }
                    p.phase = ProbePhase::Done;
                    (p, ProbeAction::Finish)
                },
                _ => {
                    let a = idle_action_exec(p.phase);
                    (p, a)
                },
            }
        },
    }
}

fn relay_end_reading_exec(p: &mut RelayProbe)
    ensures
        final(p).view() == relay_end_reading(old(p).view()),
{
    if !p.saw_welcome {
        let c = noted_clause(
            "relay replies welcome on join",
            Severity::Error,
            false,
            "no welcome within timeout (Passport rejected? wrong path?)",
        );
        push_clause(&mut p.clauses, c);
    }
    if !p.saw_pose {
        push_note(&mut p.notes, text("no pose fan-out observed (expected with a lone probe client)"));
    }
    p.phase = ProbePhase::Watching;
}

/// The relay probe's outcome: whether the relay connected, the clauses and
/// the notes gathered.
pub fn relay_probe_outcome(p: &RelayProbe) -> (o: RelayOutcome)
    ensures
        o.connected == p.connected,
        clauses_model(o.clauses@) == probe_clauses(p.view()),
        texts(o.notes@) == probe_notes(p.view()),
{
    RelayOutcome { connected: p.connected, clauses: copy_clauses(&p.clauses), notes: copy_notes(&p.notes) }
}

/// A rendezvous probe in progress.
pub struct RendezvousProbe {
    pub phase: ProbePhase,
    pub connected: bool,
    pub saw_welcome: bool,
    pub saw_peers: bool,
    pub clauses: Vec<Clause>,
    pub notes: Vec<String>,
}

/// A rendezvous probe as plain values: phase, connected, welcome seen, peers
/// seen, clauses, notes.
pub type RendezvousProbeView = (ProbePhase, bool, bool, bool, Seq<ClauseModel>, Seq<Seq<char>>);

pub open spec fn rendezvous_reach_clause(pass: bool, notes: Seq<Seq<char>>) -> ClauseModel {
    ("rendezvous reachable (WebSocket)"@, Severity::Error, pass, notes)
}

pub open spec fn peers_note(n: u64) -> Seq<char> {
    "room reports "@ + dec_digits(n as nat) + " peer(s) present"@
}

pub open spec fn no_peers_clause() -> ClauseModel {
    (
        "rendezvous replies peers on announce"@,
        Severity::Error,
        false,
        seq!["no peers within timeout (wrong path? not a rendezvous?)"@],
    )
}

pub open spec fn no_id_note() -> Seq<char> {
    "no welcome{id} \u{2014} minimal rendezvous, clients keep provisional ids (allowed)"@
}

pub open spec fn rendezvous_probe_start() -> RendezvousProbeView {
    (ProbePhase::Connecting, false, false, false, Seq::empty(), Seq::empty())
}

/// One message of the introduction: the first `welcome` is checked, along
/// with whether it came before `peers`; the first `peers` is checked and its
/// size noted.
pub open spec fn rendezvous_read(p: RendezvousProbeView, m: WireMsg, peers: Option<u64>) -> RendezvousProbeView {
    if opt_is(m.t, "welcome"@) && !p.2 {
        (p.0, p.1, true, p.3, p.4 + crate::rendezvous_wire::welcome_spec(m) + seq![
            ("welcome arrives before peers"@, Severity::Error, !p.3, Seq::empty()),
        ], p.5)
    } else if opt_is(m.t, "peers"@) && !p.3 {
        (p.0, p.1, p.2, true, p.4 + peers_spec(m), match peers {
            Some(n) => p.5.push(peers_note(n)),
            None => p.5,
        })
    } else {
        p
    }
}

/// The introduction is over (after `peers`, or at the timeout): a missing
/// `peers` fails, a missing `welcome` is only noted.
pub open spec fn rendezvous_end(p: RendezvousProbeView) -> RendezvousProbeView {
    (ProbePhase::Done, p.1, p.2, p.3, if p.3 {
        p.4
    } else {
        p.4.push(no_peers_clause())
    }, if p.2 {
        p.5
    } else {
        p.5.push(no_id_note())
    })
}

/// The rendezvous probe's step: the state after `ev` and what to do next. An
/// event that does not belong to the current phase changes nothing.
pub open spec fn rendezvous_probe_spec(p: RendezvousProbeView, ev: ProbeEvent) -> (RendezvousProbeView, ProbeAction) {
    match ev {
        ProbeEvent::Connected => if p.0 == ProbePhase::Connecting {
            (
                (ProbePhase::Reading, true, p.2, p.3, p.4.push(rendezvous_reach_clause(true, Seq::empty())), p.5),
                ProbeAction::Open,
            )
        } else {
            (p, idle_action(p.0))
        },
        ProbeEvent::ConnectFailed(e) => if p.0 == ProbePhase::Connecting {
            (
                (ProbePhase::Done, false, p.2, p.3, p.4.push(rendezvous_reach_clause(false, seq![e@])), p.5),
                ProbeAction::Finish,
            )
        } else {
            (p, idle_action(p.0))
        },
        ProbeEvent::Message(m, peers) => if p.0 == ProbePhase::Reading {
            let q = rendezvous_read(p, m, peers);
            if q.3 {
                (rendezvous_end(q), ProbeAction::Finish)
            } else {
                (q, ProbeAction::Read)
            }
        } else {
            (p, idle_action(p.0))
        },
        ProbeEvent::TimedOut => if p.0 == ProbePhase::Reading {
            (rendezvous_end(p), ProbeAction::Finish)
        } else {
            (p, idle_action(p.0))
        },
        _ => (p, idle_action(p.0)),
    }
}

impl RendezvousProbe {
    pub open spec fn view(&self) -> RendezvousProbeView {
        (self.phase, self.connected, self.saw_welcome, self.saw_peers, clauses_model(self.clauses@), texts(self.notes@))
    }

    /// A probe about to connect.
    pub fn new() -> (r: Self)
        ensures
            r.view() == rendezvous_probe_start(),
    {
        let r = RendezvousProbe {
            phase: ProbePhase::Connecting,
            connected: false,
            saw_welcome: false,
            saw_peers: false,
            clauses: Vec::new(),
            notes: Vec::new(),
        };
        assert(r.view().4 =~= Seq::<ClauseModel>::empty());
        assert(r.view().5 =~= Seq::<Seq<char>>::empty());
        r
    }
}

fn rendezvous_end_exec(p: &mut RendezvousProbe)
    ensures
        final(p).view() == rendezvous_end(old(p).view()),
{
    if !p.saw_peers {
        let c = noted_clause(
            "rendezvous replies peers on announce",
            Severity::Error,
            false,
            "no peers within timeout (wrong path? not a rendezvous?)",
        );
        push_clause(&mut p.clauses, c);
    }
    if !p.saw_welcome {
        push_note(
            &mut p.notes,
            text("no welcome{id} \u{2014} minimal rendezvous, clients keep provisional ids (allowed)"),
        );
    }
    p.phase = ProbePhase::Done;
}

/// The rendezvous probe's decisions: the probe after `ev`, and what the
/// caller does next.
pub fn rendezvous_probe_step(p: RendezvousProbe, ev: ProbeEvent) -> (r: (RendezvousProbe, ProbeAction))
    ensures
        (r.0.view(), r.1) == rendezvous_probe_spec(p.view(), ev),
{
    let mut p = p;
    let ghost v = p.view();
    let reading = match p.phase {
        ProbePhase::Reading => true,
        _ => false,
    };
    let connecting = match p.phase {
        ProbePhase::Connecting => true,
        _ => false,
    };
    match ev {
        ProbeEvent::Connected => {
            if connecting {
                push_clause(&mut p.clauses, plain_clause("rendezvous reachable (WebSocket)", Severity::Error, true));
                p.phase = ProbePhase::Reading;
                p.connected = true;
                (p, ProbeAction::Open)
            } else {
                let a = idle_action_exec(p.phase);
                (p, a)
            }
        },
        ProbeEvent::ConnectFailed(e) => {
            if connecting {
                push_clause(
                    &mut p.clauses,
                    noted_clause("rendezvous reachable (WebSocket)", Severity::Error, false, e.as_str()),
                );
                p.phase = ProbePhase::Done;
                p.connected = false;
                (p, ProbeAction::Finish)
            } else {
                let a = idle_action_exec(p.phase);
                (p, a)
            }
        },
        ProbeEvent::Message(m, peers) => {
            if reading {
                if tag_is(&m.t, "welcome") && !p.saw_welcome {
                    let before = p.saw_peers;
                    p.saw_welcome = true;
                    append_clauses(&mut p.clauses, crate::rendezvous_wire::check_welcome(&m));
                    push_clause(&mut p.clauses, plain_clause("welcome arrives before peers", Severity::Error, !before));
                    assert(p.view().4 =~= v.4 + crate::rendezvous_wire::welcome_spec(m) + seq![
                        ("welcome arrives before peers"@, Severity::Error, !v.3, Seq::<Seq<char>>::empty()),
                    ]);
                } else if tag_is(&m.t, "peers") && !p.saw_peers {
                    p.saw_peers = true;
                    append_clauses(&mut p.clauses, check_peers(&m));
                    match peers {
                        Some(n) => push_note(&mut p.notes, number_note("room reports ", n, " peer(s) present")),
                        None => {},
                    }
                }
                assert(p.view() == rendezvous_read(v, m, peers));
                if p.saw_peers {
                    rendezvous_end_exec(&mut p);
                    (p, ProbeAction::Finish)
                } else {
                    (p, ProbeAction::Read)
                }
            } else {
                let a = idle_action_exec(p.phase);
                (p, a)
            }
        },
        ProbeEvent::TimedOut => {
            if reading {
                rendezvous_end_exec(&mut p);
                (p, ProbeAction::Finish)
            } else {
                let a = idle_action_exec(p.phase);
                (p, a)
            }
        },
        _ => {
            let a = idle_action_exec(p.phase);
            (p, a)
        },
    }
}

/// The rendezvous probe's outcome: whether it connected, the clauses and the
/// notes gathered.
pub fn rendezvous_probe_outcome(p: &RendezvousProbe) -> (o: RendezvousOutcome)
    ensures
        o.connected == p.connected,
        clauses_model(o.clauses@) == p.view().4,
        texts(o.notes@) == p.view().5,
{
    RendezvousOutcome { connected: p.connected, clauses: copy_clauses(&p.clauses), notes: copy_notes(&p.notes) }
}

/// A relay probe never takes back a clause: each step keeps every clause it
/// had, in place, so a failure once recorded stays in the outcome.
pub proof fn lemma_relay_probe_keeps_clauses(p: RelayProbeView, ev: ProbeEvent)
    ensures
        relay_probe_spec(p, ev).0.6.len() >= p.6.len(),
        forall|i: int| 0 <= i < p.6.len() ==> #[trigger] relay_probe_spec(p, ev).0.6[i] == p.6[i],
{
}

/// An unreachable relay fails the probe, and the probe stops there.
pub proof fn lemma_unreachable_relay_fails(e: String)
    ensures
        !models_ok(relay_probe_spec(relay_probe_start(), ProbeEvent::ConnectFailed(e)).0.6),
        relay_probe_spec(relay_probe_start(), ProbeEvent::ConnectFailed(e)).1 == ProbeAction::Finish,
{
    let q = relay_probe_spec(relay_probe_start(), ProbeEvent::ConnectFailed(e)).0.6;
    assert(q[0] == relay_reach_clause(false, seq![e@]));
}

/// A relay that connects but sends no `welcome` before the deadline fails the
/// probe.
pub proof fn lemma_silent_relay_fails(p: RelayProbeView)
    requires
        p.0 == ProbePhase::Reading,
        !p.2,
    ensures
        !models_ok(relay_probe_spec(p, ProbeEvent::TimedOut).0.6),
{
    let q = relay_probe_spec(p, ProbeEvent::TimedOut).0.6;
    assert(q[p.6.len() as int] == no_welcome_clause());
}

/// A rendezvous probe never takes back a clause.
pub proof fn lemma_rendezvous_probe_keeps_clauses(p: RendezvousProbeView, ev: ProbeEvent)
    ensures
        rendezvous_probe_spec(p, ev).0.4.len() >= p.4.len(),
        forall|i: int| 0 <= i < p.4.len() ==> #[trigger] rendezvous_probe_spec(p, ev).0.4[i] == p.4[i],
{
}

} // verus!
