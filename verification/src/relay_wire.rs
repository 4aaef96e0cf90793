//! Relay conformance: the pure validators of the presence wire. Each turns a
//! wire message (as read into a [`WireMsg`]) into conformance clauses.

use vstd::prelude::*;
use crate::conformance::{
    clause_model, clauses_model, noted_clause, plain_clause, tag_clause, tag_clause_exec, text, Clause,
    ClauseModel, Severity, WireMsg, models_ok, opt_is,
};
use crate::text::push_str;

verus! {

/// The clauses of a relay `welcome`: tagged, assigns an occupant id, lists
/// occupants, declares a positive `tick_hz` (the last only a warning).
pub open spec fn welcome_spec(m: WireMsg) -> Seq<ClauseModel> {
    seq![
        tag_clause("welcome tagged t=welcome"@, m, "welcome"@),
        ("welcome assigns an occupant id"@, Severity::Error, m.id is Some, Seq::empty()),
        ("welcome lists occupants"@, Severity::Error, m.occupants_listed, Seq::empty()),
        ("welcome declares tick_hz"@, Severity::Warn, m.tick_hz matches Some(h) && h > 0, Seq::empty()),
    ]
}

/// Validate a `welcome` message (relay to client, in reply to `join`).
pub fn check_welcome(msg: &WireMsg) -> (r: Vec<Clause>)
    ensures
        clauses_model(r@) == welcome_spec(*msg),
{
    let tick_ok = match msg.tick_hz {
        Some(h) => h > 0,
        None => false,
    };
    let r = vec![
        tag_clause_exec("welcome tagged t=welcome", msg, "welcome"),
        plain_clause("welcome assigns an occupant id", Severity::Error, msg.id.is_some()),
        plain_clause("welcome lists occupants", Severity::Error, msg.occupants_listed),
        plain_clause("welcome declares tick_hz", Severity::Warn, tick_ok),
    ];
    assert(clauses_model(r@) =~= welcome_spec(*msg));
    r
}

/// The two clauses an observer's welcome adds: it says it is one, and it
/// holds the non-occupant id 0.
pub open spec fn observer_extra_spec(m: WireMsg) -> Seq<ClauseModel> {
    seq![
        ("observe welcome is marked observer"@, Severity::Error, m.observer == Some(true), match m.observer_text {
            Some(v) => seq!["observer = "@ + v@],
            None => seq!["no `observer` field \u{2014} a watcher cannot tell it is one"@],
        }),
        ("observer is not an occupant (id 0)"@, Severity::Error, m.id == Some(0u64), Seq::empty()),
    ]
}

/// Validate the `welcome` a relay sends in reply to `observe`: a welcome, and
/// marked as an observer's, with id 0.
pub fn check_observer_welcome(msg: &WireMsg) -> (r: Vec<Clause>)
    ensures
        clauses_model(r@) == welcome_spec(*msg) + observer_extra_spec(*msg),
{
    let mut r = check_welcome(msg);
    let marked = match msg.observer {
        Some(b) => b,
        None => false,
    };
    let notes: Vec<String> = match &msg.observer_text {
        Some(v) => {
            let mut n = text("observer = ");
            push_str(&mut n, v.as_str());
            vec![n]
        },
        None => vec![text("no `observer` field \u{2014} a watcher cannot tell it is one")],
    };
    let c1 = Clause { name: text("observe welcome is marked observer"), severity: Severity::Error, pass: marked, notes };
    assert(clause_model(c1) == observer_extra_spec(*msg)[0]) by {
        assert(clause_model(c1).3 =~= observer_extra_spec(*msg)[0].3);
    }
    let is_zero = match msg.id {
        Some(i) => i == 0,
        None => false,
    };
    let c2 = plain_clause("observer is not an occupant (id 0)", Severity::Error, is_zero);
    let ghost head = r@;
    r.push(c1);
    r.push(c2);
    assert(r@ =~= head.push(c1).push(c2));
    assert(clauses_model(r@) =~= welcome_spec(*msg) + observer_extra_spec(*msg));
    r
}

/// The clauses of a `pose`: tagged, carries an id, server-stamped, has a
/// position, a velocity and an orientation (all errors when missing); a full
/// quaternion should be a unit one, and an animation state should be given
/// (warnings).
pub open spec fn pose_spec(m: WireMsg) -> Seq<ClauseModel> {
    seq![
        tag_clause("pose tagged t=pose"@, m, "pose"@),
        ("pose carries an occupant id"@, Severity::Error, m.id is Some, Seq::empty()),
        ("pose is server-stamped (ts)"@, Severity::Error, m.ts is Some,
            seq!["ts is mandatory: the single clock source for interpolation"@]),
        ("pose has a position [f32;3]"@, Severity::Error, m.position, Seq::empty()),
        ("pose has a velocity [f32;3]"@, Severity::Error, m.velocity,
            seq!["v is mandatory: enables gap extrapolation"@]),
        ("pose has an orientation (r xyzw or yaw y)"@, Severity::Error, m.quaternion is Some || m.yaw,
            Seq::empty()),
        ("orientation is a unit quaternion"@, Severity::Warn, match m.quaternion {
            Some(u) => u,
            None => true,
        }, Seq::empty()),
        ("pose carries an animation state (a)"@, Severity::Warn, m.anim is Some, Seq::empty()),
    ]
}

/// Validate a `pose` message (the hot path).
pub fn check_pose(msg: &WireMsg) -> (r: Vec<Clause>)
    ensures
        clauses_model(r@) == pose_spec(*msg),
{
    let unit = match msg.quaternion {
        Some(u) => u,
        None => true,
    };
    let r = vec![
        tag_clause_exec("pose tagged t=pose", msg, "pose"),
        plain_clause("pose carries an occupant id", Severity::Error, msg.id.is_some()),
        noted_clause("pose is server-stamped (ts)", Severity::Error, msg.ts.is_some(),
            "ts is mandatory: the single clock source for interpolation"),
        plain_clause("pose has a position [f32;3]", Severity::Error, msg.position),
        noted_clause("pose has a velocity [f32;3]", Severity::Error, msg.velocity,
            "v is mandatory: enables gap extrapolation"),
        plain_clause("pose has an orientation (r xyzw or yaw y)", Severity::Error,
            msg.quaternion.is_some() || msg.yaw),
        plain_clause("orientation is a unit quaternion", Severity::Warn, unit),
        plain_clause("pose carries an animation state (a)", Severity::Warn, msg.anim.is_some()),
    ];
    assert(clauses_model(r@) =~= pose_spec(*msg));
    r
}

/// A welcome passes exactly when it is tagged, assigns an id and lists
/// occupants; a missing or zero `tick_hz` only warns.
pub proof fn lemma_welcome_passes(m: WireMsg)
    ensures
        models_ok(welcome_spec(m)) == (opt_is(m.t, "welcome"@) && m.id is Some && m.occupants_listed),
{
    let s = welcome_spec(m);
    if opt_is(m.t, "welcome"@) && m.id is Some && m.occupants_listed {
        assert forall|i: int| 0 <= i < s.len() implies (#[trigger] s[i]).2 || s[i].1 == Severity::Warn by {
            assert(i == 0 || i == 1 || i == 2 || i == 3);
        }
    } else {
        assert(!(s[0].2 || s[0].1 == Severity::Warn) || !(s[1].2 || s[1].1 == Severity::Warn)
            || !(s[2].2 || s[2].1 == Severity::Warn));
    }
}

/// A pose passes exactly when it is tagged and carries an id, a server
/// stamp, a position, a velocity and some orientation; a non-unit quaternion
/// or a missing animation state only warns.
pub proof fn lemma_pose_passes(m: WireMsg)
    ensures
        models_ok(pose_spec(m)) == (opt_is(m.t, "pose"@) && m.id is Some && m.ts is Some && m.position
            && m.velocity && (m.quaternion is Some || m.yaw)),
{
    let s = pose_spec(m);
    if opt_is(m.t, "pose"@) && m.id is Some && m.ts is Some && m.position && m.velocity && (m.quaternion is Some
        || m.yaw) {
        assert forall|i: int| 0 <= i < s.len() implies (#[trigger] s[i]).2 || s[i].1 == Severity::Warn by {
            assert(0 <= i < 8);
        }
    } else {
        assert(!(s[0].2 || s[0].1 == Severity::Warn) || !(s[1].2 || s[1].1 == Severity::Warn)
            || !(s[2].2 || s[2].1 == Severity::Warn) || !(s[3].2 || s[3].1 == Severity::Warn)
            || !(s[4].2 || s[4].1 == Severity::Warn) || !(s[5].2 || s[5].1 == Severity::Warn));
    }
}

/// An observer's welcome passes exactly when it passes as a welcome, says it
/// is an observer's, and carries id 0 — so a joiner's ordinary welcome (an
/// occupant id, no marker) never passes for one.
pub proof fn lemma_observer_welcome_passes(m: WireMsg)
    ensures
        models_ok(welcome_spec(m) + observer_extra_spec(m)) == (opt_is(m.t, "welcome"@) && m.occupants_listed
            && m.observer == Some(true) && m.id == Some(0u64)),
{
    let s = welcome_spec(m) + observer_extra_spec(m);
    assert(s.len() == 6);
    assert(s[0] == welcome_spec(m)[0] && s[1] == welcome_spec(m)[1] && s[2] == welcome_spec(m)[2]
        && s[3] == welcome_spec(m)[3]);
    assert(s[4] == observer_extra_spec(m)[0] && s[5] == observer_extra_spec(m)[1]);
    if opt_is(m.t, "welcome"@) && m.occupants_listed && m.observer == Some(true) && m.id == Some(0u64) {
        assert forall|i: int| 0 <= i < s.len() implies (#[trigger] s[i]).2 || s[i].1 == Severity::Warn by {
            assert(0 <= i < 6);
        }
    } else {
        assert(!(s[0].2 || s[0].1 == Severity::Warn) || !(s[2].2 || s[2].1 == Severity::Warn)
            || !(s[4].2 || s[4].1 == Severity::Warn) || !(s[5].2 || s[5].1 == Severity::Warn));
    }
}

} // verus!
