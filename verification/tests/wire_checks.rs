use serde_json::Value;
use thread_engine::conformance::{clauses_pass, Severity, WireMsg};
use thread_engine::relay_wire::{check_observer_welcome, check_pose, check_welcome as relay_check_welcome};
use thread_engine::rendezvous_wire::{check_peers, check_welcome as rendezvous_check_welcome};

/// An array of exactly `n` finite numbers at `key`.
fn floats(v: &Value, key: &str, n: usize) -> Option<Vec<f64>> {
    let arr = v.get(key)?.as_array()?;
    if arr.len() != n {
        return None;
    }
    let out: Vec<f64> = arr.iter().filter_map(Value::as_f64).filter(|f| f.is_finite()).collect();
    (out.len() == n).then_some(out)
}

/// Read a wire message the way the checkers see it.
fn wire(msg: &Value) -> WireMsg {
    WireMsg {
        t: msg.get("t").and_then(Value::as_str).map(str::to_string),
        t_text: format!("{:?}", msg.get("t")),
        id: msg.get("id").and_then(Value::as_u64),
        ts: msg.get("ts").and_then(Value::as_u64),
        occupants_listed: msg.get("occupants").map(Value::is_array).unwrap_or(false),
        tick_hz: msg.get("tick_hz").and_then(Value::as_u64),
        observer: msg.get("observer").and_then(Value::as_bool),
        observer_text: msg.get("observer").map(|v| format!("{v}")),
        peer_ids: msg
            .get("peers")
            .and_then(Value::as_array)
            .map(|a| a.iter().all(|p| p.as_u64().is_some()))
            .unwrap_or(false),
        position: floats(msg, "p", 3).is_some(),
        velocity: floats(msg, "v", 3).is_some(),
        quaternion: floats(msg, "r", 4).map(|r| {
            let len2 = r.iter().map(|x| x * x).sum::<f64>();
            (len2 - 1.0).abs() < 0.05
        }),
        yaw: msg.get("y").and_then(Value::as_f64).is_some(),
        anim: msg.get("a").and_then(Value::as_u64),
    }
}

fn json(text: &str) -> Value {
    serde_json::from_str(text).unwrap()
}

#[test]
fn a_spec_observer_welcome_passes_and_a_joiners_does_not() {
    let w = json(r#"{"t":"welcome","id":0,"observer":true,"occupants":[{"id":1}],"tick_hz":15}"#);
    let clauses = check_observer_welcome(&wire(&w));
    assert!(clauses_pass(&clauses), "{clauses:?}");
    assert_eq!(w["occupants"].as_array().unwrap().len(), 1, "the roster stands as it is");

    let joiner = json(r#"{"t":"welcome","id":3,"occupants":[],"tick_hz":15}"#);
    let clauses = check_observer_welcome(&wire(&joiner));
    assert!(!clauses_pass(&clauses));
    assert!(clauses.iter().any(|c| c.name == "observe welcome is marked observer" && !c.pass));
    assert!(clauses.iter().any(|c| c.name == "observer is not an occupant (id 0)" && !c.pass));
}

#[test]
fn relay_a_spec_welcome_passes() {
    let w = json(r#"{"t":"welcome","id":5,"occupants":[{"id":7},{"id":9}],"tick_hz":15}"#);
    let clauses = relay_check_welcome(&wire(&w));
    assert!(clauses_pass(&clauses), "{clauses:?}");
    assert!(clauses.iter().all(|c| c.pass));
}

#[test]
fn relay_a_welcome_without_an_id_fails() {
    let w = json(r#"{"t":"welcome","occupants":[]}"#);
    let clauses = relay_check_welcome(&wire(&w));
    assert!(!clauses_pass(&clauses));
    let id = clauses.iter().find(|c| c.name == "welcome assigns an occupant id").unwrap();
    assert!(!id.pass);
    assert_eq!(id.severity, Severity::Error);
}

#[test]
fn a_full_spec_pose_passes() {
    let p = json(r#"{"t":"pose","id":7,"ts":123456,"p":[3.0,0.0,-1.0],"r":[0.0,0.0,0.0,1.0],"v":[1.0,0.0,0.0],"a":2}"#);
    let clauses = check_pose(&wire(&p));
    assert!(clauses_pass(&clauses));
    assert!(clauses.iter().all(|c| c.pass), "{clauses:?}");
}

#[test]
fn a_pose_missing_ts_or_velocity_is_an_error() {
    let no_ts = json(r#"{"t":"pose","id":7,"p":[0.0,0.0,0.0],"r":[0.0,0.0,0.0,1.0],"v":[0.0,0.0,0.0],"a":0}"#);
    assert!(!clauses_pass(&check_pose(&wire(&no_ts))), "ts is mandatory");
    let no_v = json(r#"{"t":"pose","id":7,"ts":1,"p":[0.0,0.0,0.0],"r":[0.0,0.0,0.0,1.0],"a":0}"#);
    assert!(!clauses_pass(&check_pose(&wire(&no_v))), "v is mandatory");
}

#[test]
fn yaw_only_orientation_is_accepted() {
    let p = json(r#"{"t":"pose","id":7,"ts":1,"p":[0.0,0.0,0.0],"y":1.57,"v":[0.0,0.0,0.0],"a":1}"#);
    let clauses = check_pose(&wire(&p));
    assert!(clauses_pass(&clauses), "{clauses:?}");
    let orient = clauses.iter().find(|c| c.name.contains("orientation is a unit")).unwrap();
    assert!(orient.pass, "unit-quat check must not penalize a yaw-only pose");
}

#[test]
fn a_non_unit_quaternion_warns_but_does_not_fail() {
    let p = json(r#"{"t":"pose","id":7,"ts":1,"p":[0.0,0.0,0.0],"r":[1.0,1.0,0.0,0.0],"v":[0.0,0.0,0.0],"a":0}"#);
    let clauses = check_pose(&wire(&p));
    assert!(clauses_pass(&clauses), "non-unit quat is a warning, not a failure");
    let unit = clauses.iter().find(|c| c.name.contains("unit quaternion")).unwrap();
    assert!(!unit.pass);
    assert_eq!(unit.severity, Severity::Warn);
}

#[test]
fn rendezvous_a_spec_welcome_passes() {
    let w = json(r#"{"t":"welcome","id":3}"#);
    let clauses = rendezvous_check_welcome(&wire(&w));
    assert!(clauses_pass(&clauses), "{clauses:?}");
    assert!(clauses.iter().all(|c| c.pass));
}

#[test]
fn rendezvous_a_welcome_without_an_id_fails() {
    let clauses = rendezvous_check_welcome(&wire(&json(r#"{"t":"welcome"}"#)));
    assert!(!clauses_pass(&clauses));
}

#[test]
fn spec_peers_messages_pass_including_the_empty_room_and_the_join_delta() {
    for p in [
        json(r#"{"t":"peers","peers":[]}"#),
        json(r#"{"t":"peers","peers":[1,2]}"#),
        json(r#"{"t":"peers","peers":[7]}"#),
    ] {
        let clauses = check_peers(&wire(&p));
        assert!(clauses_pass(&clauses), "{p} → {clauses:?}");
    }
}

#[test]
fn malformed_peers_fail() {
    assert!(!clauses_pass(&check_peers(&wire(&json(r#"{"t":"peers","peers":["a"]}"#)))));
    assert!(!clauses_pass(&check_peers(&wire(&json(r#"{"t":"peers"}"#)))));
}

#[test]
fn a_wrong_tag_is_named_in_the_note() {
    let clauses = rendezvous_check_welcome(&wire(&json(r#"{"t":"hello","id":1}"#)));
    assert!(!clauses[0].pass);
    assert_eq!(clauses[0].notes, vec![r#"t = Some(String("hello"))"#.to_string()]);
    let clauses = check_observer_welcome(&wire(&json(r#"{"t":"welcome","id":0,"occupants":[]}"#)));
    let marked = clauses.iter().find(|c| c.name == "observe welcome is marked observer").unwrap();
    assert_eq!(marked.notes, vec!["no `observer` field — a watcher cannot tell it is one".to_string()]);
}
