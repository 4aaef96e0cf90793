use serde_json::Value;
use thread_engine::rendezvous::{socket_key, ConnId, Frame, Hub, Inbound, Outbound};

fn parse(out: &Outbound) -> Value {
    serde_json::from_str(&out.text).unwrap()
}

/// A raw wire message as the transport hands it to the hub.
fn text(conn: ConnId, raw: &str) -> Inbound {
    match serde_json::from_str::<Value>(raw) {
        Ok(v) => Inbound::Text(
            conn,
            Frame {
                t: v.get("t").and_then(Value::as_str).map(str::to_string),
                to: v.get("to").and_then(Value::as_u64),
                text: v.to_string(),
            },
        ),
        Err(_) => Inbound::Malformed(conn),
    }
}

fn announce(hub: &mut Hub, conn: ConnId, room: &str) -> Vec<Outbound> {
    hub.handle(Inbound::Connect(conn, room.into()));
    hub.handle(text(conn, r#"{"t":"announce","peer":99,"world":"x"}"#))
}

#[test]
fn announce_yields_welcome_before_peers_with_assigned_id() {
    let mut hub = Hub::new();
    let out = announce(&mut hub, 1, "plaza");
    assert_eq!(out.len(), 2, "welcome + peers to the newcomer");
    let welcome = parse(&out[0]);
    let peers = parse(&out[1]);
    // Ordering contract: welcome FIRST.
    assert_eq!(welcome["t"], "welcome");
    assert_eq!(welcome["id"], 1, "server-assigned, not the provisional 99");
    assert_eq!(peers["t"], "peers");
    assert_eq!(
        peers["peers"].as_array().unwrap().len(),
        0,
        "room was empty"
    );
    // The shape a conformant welcome and peers message carry.
    assert!(welcome["id"].as_u64().is_some(), "welcome not conformant: {welcome}");
    assert!(peers["peers"].is_array(), "peers not conformant: {peers}");
}

#[test]
fn newcomer_is_introduced_to_the_room_as_a_delta() {
    let mut hub = Hub::new();
    announce(&mut hub, 1, "plaza");
    let out = announce(&mut hub, 2, "plaza");
    // welcome{2} + peers{[1]} to the newcomer, peers{[2]} delta to member 1.
    assert_eq!(out.len(), 3);
    assert_eq!(parse(&out[0])["id"], 2);
    assert_eq!(parse(&out[1])["peers"], Value::Array(vec![Value::from(1)]));
    assert_eq!(out[2].conn, 1, "existing member gets the delta");
    assert_eq!(parse(&out[2])["peers"], Value::Array(vec![Value::from(2)]));
}

#[test]
fn signaling_is_relayed_verbatim_to_the_named_peer_only() {
    let mut hub = Hub::new();
    announce(&mut hub, 1, "plaza");
    announce(&mut hub, 2, "plaza");
    announce(&mut hub, 3, "plaza");
    let raw = r#"{"t":"offer","from":1,"to":2,"sdp":"v=0 fake"}"#;
    let out = hub.handle(text(1, raw));
    assert_eq!(out.len(), 1, "only the addressee");
    assert_eq!(out[0].conn, 2);
    // Verbatim: the rendezvous relays blindly, it never rewrites the SDP.
    assert_eq!(parse(&out[0]), serde_json::from_str::<Value>(raw).unwrap());
}

#[test]
fn rooms_are_isolated_from_each_other() {
    let mut hub = Hub::new();
    announce(&mut hub, 1, "room-a");
    let out = announce(&mut hub, 2, "room-b");
    assert_eq!(out.len(), 2, "no delta crosses rooms");
    assert_eq!(parse(&out[1])["peers"].as_array().unwrap().len(), 0);
    // Signaling addressed across rooms goes nowhere.
    let out = hub.handle(text(1, r#"{"t":"offer","from":1,"to":2,"sdp":"x"}"#));
    assert!(out.is_empty(), "cross-room signaling leak");
}

#[test]
fn lib_disconnect_broadcasts_a_leave() {
    let mut hub = Hub::new();
    announce(&mut hub, 1, "plaza");
    announce(&mut hub, 2, "plaza");
    let out = hub.handle(Inbound::Disconnect(1));
    assert_eq!(out.len(), 1);
    assert_eq!(out[0].conn, 2);
    let leave = parse(&out[0]);
    assert_eq!(leave["t"], "leave");
    assert_eq!(leave["peer"], 1);
    assert_eq!(hub.member_count(), 1);
}

#[test]
fn unannounced_or_malformed_traffic_is_ignored() {
    let mut hub = Hub::new();
    hub.handle(Inbound::Connect(1, "plaza".into()));
    // Signaling before announce: dropped (not a member yet).
    assert!(hub
        .handle(text(1, r#"{"t":"offer","from":9,"to":1,"sdp":"x"}"#))
        .is_empty());
    // Garbage frames: dropped, no panic.
    assert!(hub.handle(text(1, "not json")).is_empty());
    assert!(hub.handle(text(1, r#"{"nope":true}"#)).is_empty());
    assert_eq!(hub.member_count(), 0);
}

#[test]
fn rendezvous_texts_are_exact_json() {
    let mut hub = Hub::new();
    let out = announce(&mut hub, 1, "plaza");
    assert_eq!(out[0].text, r#"{"id":1,"t":"welcome"}"#);
    assert_eq!(out[1].text, r#"{"peers":[],"t":"peers"}"#);
    let out = announce(&mut hub, 2, "plaza");
    assert_eq!(out[1].text, r#"{"peers":[1],"t":"peers"}"#);
    assert_eq!(out[2].text, r#"{"peers":[2],"t":"peers"}"#);
    let out = hub.handle(text(2, r#"{"t":"leave"}"#));
    assert_eq!(out.len(), 1);
    assert_eq!(out[0].text, r#"{"peer":2,"t":"leave"}"#);
}

#[test]
fn double_announce_is_ignored() {
    let mut hub = Hub::new();
    announce(&mut hub, 1, "plaza");
    let again = hub.handle(text(1, r#"{"t":"announce","peer":5}"#));
    assert!(again.is_empty());
    assert_eq!(hub.member_count(), 1);
}

#[test]
fn socket_paths_name_their_room() {
    assert_eq!(socket_key("/rtc/lobby", "/rtc/"), "lobby");
    assert_eq!(socket_key("/thread/gallery/east", "/thread/"), "gallery/east");
    assert_eq!(socket_key("//lobby", "/rtc/"), "lobby");
    assert_eq!(socket_key("/rtc", "/rtc/"), "rtc");
    assert_eq!(socket_key("/", "/rtc/"), "");
}
