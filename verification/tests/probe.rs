use serde_json::Value;
use thread_engine::conformance::{clauses_pass, Clause, WireMsg};
use thread_engine::probe::{
    relay_probe_outcome, relay_probe_step, rendezvous_probe_outcome, rendezvous_probe_step, ProbeAction, ProbeEvent,
    ProbePhase, RelayProbe, RendezvousProbe,
};

/// An array of exactly `n` finite numbers at `key`.
fn floats(v: &Value, key: &str, n: usize) -> Option<Vec<f64>> {
    let arr = v.get(key)?.as_array()?;
    if arr.len() != n {
        return None;
    }
    let out: Vec<f64> = arr.iter().filter_map(Value::as_f64).filter(|f| f.is_finite()).collect();
    (out.len() == n).then_some(out)
}

/// Read a wire message the way the checkers see it.
fn wire(msg: &Value) -> WireMsg {
    WireMsg {
        t: msg.get("t").and_then(Value::as_str).map(str::to_string),
        t_text: format!("{:?}", msg.get("t")),
        id: msg.get("id").and_then(Value::as_u64),
        ts: msg.get("ts").and_then(Value::as_u64),
        occupants_listed: msg.get("occupants").map(Value::is_array).unwrap_or(false),
        tick_hz: msg.get("tick_hz").and_then(Value::as_u64),
        observer: msg.get("observer").and_then(Value::as_bool),
        observer_text: msg.get("observer").map(|v| format!("{v}")),
        peer_ids: msg
            .get("peers")
            .and_then(Value::as_array)
            .map(|a| a.iter().all(|p| p.as_u64().is_some()))
            .unwrap_or(false),
        position: floats(msg, "p", 3).is_some(),
        velocity: floats(msg, "v", 3).is_some(),
        quaternion: floats(msg, "r", 4).map(|r| {
            let len2 = r.iter().map(|x| x * x).sum::<f64>();
            (len2 - 1.0).abs() < 0.05
        }),
        yaw: msg.get("y").and_then(Value::as_f64).is_some(),
        anim: msg.get("a").and_then(Value::as_u64),
    }
}


fn msg(text: &str) -> WireMsg {
    wire(&serde_json::from_str::<Value>(text).unwrap())
}

fn relay(events: Vec<ProbeEvent>) -> (RelayProbe, Vec<ProbeAction>) {
    let mut p = RelayProbe::new();
    let mut actions = Vec::new();
    for ev in events {
        let (q, a) = relay_probe_step(p, ev);
        p = q;
        actions.push(a);
    }
    (p, actions)
}

fn find<'a>(cs: &'a [Clause], name: &str) -> Option<&'a Clause> {
    cs.iter().find(|c| c.name == name)
}

const WELCOME: &str = r#"{"t":"welcome","id":3,"occupants":[{"id":1},{"id":2}],"tick_hz":15}"#;
const POSE: &str = r#"{"t":"pose","id":1,"ts":9,"p":[0,0,0],"r":[0,0,0,1],"v":[0,0,0],"a":0}"#;
const OBSERVER_WELCOME: &str = r#"{"t":"welcome","id":0,"observer":true,"occupants":[],"tick_hz":15}"#;

#[test]
fn probe_an_unreachable_relay_fails_with_the_error() {
    let (p, actions) = relay(vec![ProbeEvent::ConnectFailed("connection refused".into())]);
    assert_eq!(actions, vec![ProbeAction::Finish]);
    let o = relay_probe_outcome(&p);
    assert!(!o.connected);
    assert_eq!(o.clauses.len(), 1);
    assert_eq!(o.clauses[0].name, "relay reachable (WebSocket)");
    assert_eq!(o.clauses[0].notes, vec!["connection refused".to_string()]);
    assert!(!clauses_pass(&o.clauses));
}

#[test]
fn probe_a_conformant_relay_passes_end_to_end() {
    let (p, actions) = relay(vec![
        ProbeEvent::Connected,
        ProbeEvent::Message(msg(WELCOME), Some(2)),
        ProbeEvent::Message(msg(POSE), None),
        ProbeEvent::WatchConnected,
        ProbeEvent::WatchMessage(msg(OBSERVER_WELCOME)),
        ProbeEvent::WatchTimedOut,
    ]);
    assert_eq!(
        actions,
        vec![ProbeAction::Open, ProbeAction::Read, ProbeAction::Watch, ProbeAction::Observe, ProbeAction::Read, ProbeAction::Finish]
    );
    assert_eq!(p.phase, ProbePhase::Done);
    let o = relay_probe_outcome(&p);
    assert!(o.connected);
    assert!(clauses_pass(&o.clauses), "{:?}", o.clauses);
    assert!(find(&o.clauses, "observers are sent no poses").unwrap().pass);
    assert!(find(&o.clauses, "relay replies welcome on join").is_none());
    assert_eq!(o.notes, vec!["relay reports 2 occupant(s)".to_string()]);
}

#[test]
fn probe_a_silent_relay_fails_for_want_of_a_welcome() {
    let (p, _) = relay(vec![
        ProbeEvent::Connected,
        ProbeEvent::TimedOut,
        ProbeEvent::WatchConnectFailed("refused".into()),
    ]);
    let o = relay_probe_outcome(&p);
    let c = find(&o.clauses, "relay replies welcome on join").unwrap();
    assert!(!c.pass);
    assert_eq!(c.notes, vec!["no welcome within timeout (Passport rejected? wrong path?)".to_string()]);
    assert!(!clauses_pass(&o.clauses));
    assert_eq!(
        o.notes,
        vec![
            "no pose fan-out observed (expected with a lone probe client)".to_string(),
            "could not open a second socket to watch: refused".to_string(),
        ]
    );
}

#[test]
fn probe_poses_leaking_to_a_watcher_fail() {
    let (p, _) = relay(vec![
        ProbeEvent::Connected,
        ProbeEvent::Message(msg(WELCOME), Some(2)),
        ProbeEvent::TimedOut,
        ProbeEvent::WatchConnected,
        ProbeEvent::WatchMessage(msg(OBSERVER_WELCOME)),
        ProbeEvent::WatchMessage(msg(POSE)),
        ProbeEvent::WatchMessage(msg(POSE)),
        ProbeEvent::WatchTimedOut,
    ]);
    let o = relay_probe_outcome(&p);
    let c = find(&o.clauses, "observers are sent no poses").unwrap();
    assert!(!c.pass);
    assert_eq!(c.notes, vec!["2 pose frame(s) reached a watcher".to_string()]);
    assert!(!clauses_pass(&o.clauses));
}

#[test]
fn probe_a_relay_that_ignores_observe_is_only_noted() {
    let (p, _) = relay(vec![
        ProbeEvent::Connected,
        ProbeEvent::Message(msg(WELCOME), None),
        ProbeEvent::TimedOut,
        ProbeEvent::WatchConnected,
        ProbeEvent::WatchTimedOut,
    ]);
    let o = relay_probe_outcome(&p);
    assert!(clauses_pass(&o.clauses));
    assert!(o.notes.iter().any(|n| n.starts_with("relay did not answer `observe`")));
}

#[test]
fn probe_rendezvous_introduction_is_checked_in_order() {
    let mut p = RendezvousProbe::new();
    let mut actions = Vec::new();
    for ev in vec![
        ProbeEvent::Connected,
        ProbeEvent::Message(msg(r#"{"t":"welcome","id":7}"#), None),
        ProbeEvent::Message(msg(r#"{"t":"peers","peers":[1,2]}"#), Some(2)),
    ] {
        let (q, a) = rendezvous_probe_step(p, ev);
        p = q;
        actions.push(a);
    }
    assert_eq!(actions, vec![ProbeAction::Open, ProbeAction::Read, ProbeAction::Finish]);
    let o = rendezvous_probe_outcome(&p);
    assert!(o.connected);
    assert!(clauses_pass(&o.clauses), "{:?}", o.clauses);
    assert!(find(&o.clauses, "welcome arrives before peers").unwrap().pass);
    assert_eq!(o.notes, vec!["room reports 2 peer(s) present".to_string()]);
}

#[test]
fn probe_rendezvous_without_peers_fails() {
    let mut p = RendezvousProbe::new();
    for ev in vec![ProbeEvent::Connected, ProbeEvent::TimedOut] {
        p = rendezvous_probe_step(p, ev).0;
    }
    let o = rendezvous_probe_outcome(&p);
    assert!(!find(&o.clauses, "rendezvous replies peers on announce").unwrap().pass);
    assert!(!clauses_pass(&o.clauses));
    assert_eq!(
        o.notes,
        vec!["no welcome{id} \u{2014} minimal rendezvous, clients keep provisional ids (allowed)".to_string()]
    );
}
