//! Rendezvous conformance: the pure validators of the introduction sequence
//! a P2P rendezvous sends (`welcome{id}`, then `peers`).

use vstd::prelude::*;
use crate::conformance::{
    clauses_model, noted_clause, plain_clause, tag_clause, tag_clause_exec, Clause, ClauseModel, Severity,
    WireMsg, models_ok, opt_is,
};

verus! {

/// The clauses of a rendezvous `welcome`: tagged, and assigns a peer id.
pub open spec fn welcome_spec(m: WireMsg) -> Seq<ClauseModel> {
    seq![
        tag_clause("welcome tagged t=welcome"@, m, "welcome"@),
        ("welcome assigns a peer id"@, Severity::Error, m.id is Some,
            seq!["clients MUST adopt the assigned id before negotiating"@]),
    ]
}

/// Validate a rendezvous `welcome` (in reply to `announce`).
pub fn check_welcome(msg: &WireMsg) -> (r: Vec<Clause>)
    ensures
        clauses_model(r@) == welcome_spec(*msg),
{
    let r = vec![
        tag_clause_exec("welcome tagged t=welcome", msg, "welcome"),
        noted_clause("welcome assigns a peer id", Severity::Error, msg.id.is_some(),
            "clients MUST adopt the assigned id before negotiating"),
    ];
    assert(clauses_model(r@) =~= welcome_spec(*msg));
    r
}

/// The clauses of a `peers` message: tagged, and an array of peer ids.
pub open spec fn peers_spec(m: WireMsg) -> Seq<ClauseModel> {
    seq![
        tag_clause("peers tagged t=peers"@, m, "peers"@),
        ("peers is an array of peer ids"@, Severity::Error, m.peer_ids, Seq::empty()),
    ]
}

/// Validate a `peers` message (who is present, or a join delta).
pub fn check_peers(msg: &WireMsg) -> (r: Vec<Clause>)
    ensures
        clauses_model(r@) == peers_spec(*msg),
{
    let r = vec![
        tag_clause_exec("peers tagged t=peers", msg, "peers"),
        plain_clause("peers is an array of peer ids", Severity::Error, msg.peer_ids),
    ];
    assert(clauses_model(r@) =~= peers_spec(*msg));
    r
}

/// A rendezvous welcome passes exactly when it is tagged and assigns an id;
/// a peers message exactly when it is tagged and lists peer ids.
pub proof fn lemma_introductions_pass(m: WireMsg)
    ensures
        models_ok(welcome_spec(m)) == (opt_is(m.t, "welcome"@) && m.id is Some),
        models_ok(peers_spec(m)) == (opt_is(m.t, "peers"@) && m.peer_ids),
{
    let w = welcome_spec(m);
    let p = peers_spec(m);
    if opt_is(m.t, "welcome"@) && m.id is Some {
        assert forall|i: int| 0 <= i < w.len() implies (#[trigger] w[i]).2 || w[i].1 == Severity::Warn by {
            assert(i == 0 || i == 1);
        }
    } else {
        assert(!(w[0].2 || w[0].1 == Severity::Warn) || !(w[1].2 || w[1].1 == Severity::Warn));
    }
    if opt_is(m.t, "peers"@) && m.peer_ids {
        assert forall|i: int| 0 <= i < p.len() implies (#[trigger] p[i]).2 || p[i].1 == Severity::Warn by {
            assert(i == 0 || i == 1);
        }
    } else {
        assert(!(p[0].2 || p[0].1 == Severity::Warn) || !(p[1].2 || p[1].1 == Severity::Warn));
    }
}

} // verus!
