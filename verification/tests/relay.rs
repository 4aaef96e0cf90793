use serde_json::Value;
use thread_engine::passport::jwt_payload;
use thread_engine::relay::{
    body_copy, frame_voice, wire_kind, Body, FramePlan, Identity, Outbound, Roster, WireKind, MAX_VOICE_FRAME,
};

/// The identity a join frame's Passport claims (claims are read, not verified).
fn identity_of(token: Option<&str>) -> Identity {
    let claims = token
        .and_then(jwt_payload)
        .and_then(|b| serde_json::from_slice::<Value>(&b).ok());
    let s = |k: &str| {
        claims
            .as_ref()
            .and_then(|c| c.get(k))
            .and_then(Value::as_str)
            .map(str::to_string)
    };
    Identity { sub: s("sub"), name: s("name"), avatar: s("avatar") }
}

/// A raw wire message through the roster, with every occupant in range
/// (an unlimited area of interest).
fn handle_text(roster: &mut Roster, conn: u64, raw: &str) -> Vec<Outbound> {
    let Ok(v) = serde_json::from_str::<Value>(raw) else {
        return Vec::new();
    };
    match wire_kind(v.get("t").and_then(Value::as_str)) {
        WireKind::Join => roster.join(conn, identity_of(v.get("passport").and_then(Value::as_str))),
        WireKind::Observe => roster.observe(conn),
        WireKind::Leave => roster.leave(conn),
        WireKind::Pose | WireKind::Interact => {
            let near: Vec<u64> = roster.occupants.iter().map(|(c, _)| *c).collect();
            roster.fan_out(conn, &near, &Body::Text(v.to_string()))
        }
        WireKind::Ignored => Vec::new(),
    }
}

/// An unsigned JWT-shaped token around a JSON payload.
fn token_with_payload(payload: &str) -> String {
    fn b64url(data: &[u8]) -> String {
        const ALPHABET: &[u8] = b"ABCDEFGHIJKLMNOPQRSTUVWXYZabcdefghijklmnopqrstuvwxyz0123456789-_";
        let mut out = String::new();
        for chunk in data.chunks(3) {
            let mut buf = [0u8; 3];
            buf[..chunk.len()].copy_from_slice(chunk);
            let n = (u32::from(buf[0]) << 16) | (u32::from(buf[1]) << 8) | u32::from(buf[2]);
            for (i, shift) in [18u32, 12, 6, 0].iter().enumerate() {
                if i <= chunk.len() {
                    out.push(ALPHABET[((n >> shift) & 63) as usize] as char);
                }
            }
        }
        out
    }
    format!("{}.{}.sig", b64url(br#"{"alg":"none"}"#), b64url(payload.as_bytes()))
}

fn parse(out: &Outbound) -> Value {
    serde_json::from_str(out.text()).unwrap()
}

fn joined(roster: &mut Roster, conn: u64, world: &str) -> Vec<Outbound> {
    roster.connect(conn, world.into());
    roster.join(conn, Identity::anonymous())
}

#[test]
fn relay_join_produces_a_welcome() {
    let mut roster = Roster::new(15);
    let out = joined(&mut roster, 1, "lobby");
    assert_eq!(out.len(), 1);
    let welcome = parse(&out[0]);
    assert_eq!(welcome["t"], "welcome");
    assert_eq!(welcome["id"], 1);
    assert_eq!(welcome["tick_hz"], 15);
    assert_eq!(welcome["occupants"].as_array().unwrap().len(), 0);
    assert_eq!(out[0].text(), r#"{"id":1,"occupants":[],"t":"welcome","tick_hz":15}"#);
}

#[test]
fn relay_claims_are_escaped_as_json_strings() {
    let mut roster = Roster::new(10);
    roster.connect(1, "w".into());
    let who = Identity {
        sub: None,
        name: Some("a \"quoted\"\\name\n\u{1}".into()),
        avatar: None,
    };
    roster.join(1, who);
    let out = joined(&mut roster, 2, "w");
    assert_eq!(
        out[1].text(),
        "{\"id\":2,\"occupants\":[{\"id\":1,\"name\":\"a \\\"quoted\\\"\\\\name\\n\\u0001\"}],\"t\":\"welcome\",\"tick_hz\":10}"
    );
    let welcome = parse(&out[1]);
    assert_eq!(welcome["occupants"][0]["name"], "a \"quoted\"\\name\n\u{1}");
}

#[test]
fn relay_disconnect_broadcasts_a_leave() {
    let mut roster = Roster::new(15);
    joined(&mut roster, 1, "hall");
    joined(&mut roster, 2, "hall");
    let out = roster.disconnect(1);
    assert_eq!(out.len(), 1);
    assert_eq!(out[0].conn, 2);
    let leave = parse(&out[0]);
    assert_eq!(leave["t"], "leave");
    assert_eq!(leave["id"], 1);
    assert_eq!(roster.occupant_count(), 1);
}

#[test]
fn relay_fan_out_reaches_only_near_others() {
    let mut roster = Roster::new(15);
    for c in [1, 2, 3] {
        joined(&mut roster, c, "field");
    }
    let out = roster.fan_out(1, &vec![1, 2], &Body::Text("pose".into()));
    let targets: Vec<u64> = out.iter().map(|o| o.conn).collect();
    assert_eq!(targets, vec![2], "only the in-range occupant receives the pose");
    assert_eq!(out[0].text(), "pose");
    // A connection that never joined sends nothing.
    roster.connect(9, "field".into());
    assert!(roster.fan_out(9, &vec![1, 2, 3], &Body::Text("x".into())).is_empty());
}

#[test]
fn relay_voice_frames_carry_the_speaker_id() {
    let mut roster = Roster::new(15);
    for c in [1, 2, 3] {
        joined(&mut roster, c, "plaza");
    }
    let pcm = vec![7u8; 640];
    let out = roster.voice(1, &pcm, &vec![2]);
    assert_eq!(out.len(), 1, "only the near occupant hears");
    assert_eq!(out[0].conn, 2);
    let Body::Binary(b) = &out[0].body else {
        panic!("voice must stay binary")
    };
    assert_eq!(&b[..4], &1u32.to_le_bytes(), "sender id prefixed");
    assert_eq!(&b[4..], &pcm[..], "payload untouched");
    assert_eq!(out[0].text(), "");

    // Oversized frames are dropped, not relayed.
    assert!(roster.voice(1, &vec![0u8; MAX_VOICE_FRAME + 1], &vec![2]).is_empty());
    // A connection that never joined has no voice.
    roster.connect(9, "plaza".into());
    assert!(roster.voice(9, &vec![1, 2, 3], &vec![1, 2]).is_empty());
}

#[test]
fn relay_frame_voice_prefixes_little_endian_id() {
    assert_eq!(
        frame_voice(0x0102_0304, &vec![9, 8]),
        Some(vec![4, 3, 2, 1, 9, 8])
    );
    assert_eq!(frame_voice(1, &vec![]), None);
    assert_eq!(frame_voice(1, &vec![0u8; MAX_VOICE_FRAME]).map(|f| f.len()), Some(MAX_VOICE_FRAME + 4));
    assert_eq!(frame_voice(1, &vec![0u8; MAX_VOICE_FRAME + 1]), None);
}

#[test]
fn relay_join_before_connect_is_ignored() {
    let mut roster = Roster::new(15);
    assert!(roster.join(4, Identity::anonymous()).is_empty());
    assert!(roster.observe(4).is_empty());
    assert!(roster.leave(4).is_empty());
    assert_eq!(roster.occupant_count(), 0);
}

#[test]
fn relay_classifies_wire_tags() {
    assert_eq!(wire_kind(Some("join")), WireKind::Join);
    assert_eq!(wire_kind(Some("pose")), WireKind::Pose);
    assert_eq!(wire_kind(Some("interact")), WireKind::Interact);
    assert_eq!(wire_kind(Some("observe")), WireKind::Observe);
    assert_eq!(wire_kind(Some("leave")), WireKind::Leave);
    assert_eq!(wire_kind(Some("dance")), WireKind::Ignored);
    assert_eq!(wire_kind(None), WireKind::Ignored);
}

#[test]
fn relay_body_copy_keeps_the_payload() {
    match body_copy(&Body::Binary(vec![1, 2, 3])) {
        Body::Binary(b) => assert_eq!(b, vec![1, 2, 3]),
        Body::Text(_) => panic!("kind changed"),
    }
    match body_copy(&Body::Text("hi".into())) {
        Body::Text(t) => assert_eq!(t, "hi"),
        Body::Binary(_) => panic!("kind changed"),
    }
}

#[test]
fn join_produces_a_conformant_welcome() {
    let mut hub = Roster::new(15);
    hub.connect(1, "lobby".into());
    let out = handle_text(&mut hub, 1, r#"{"t":"join","passport":"tok"}"#);
    assert_eq!(out.len(), 1);
    let welcome = parse(&out[0]);
    // The shape a conformant welcome carries.
    assert_eq!(welcome["t"], "welcome");
    assert!(welcome["occupants"].is_array());
    assert!(welcome["tick_hz"].as_u64().is_some_and(|h| h > 0));
    assert_eq!(welcome["id"], 1);
    assert_eq!(welcome["occupants"].as_array().unwrap().len(), 0);
}

#[test]
fn a_name_asserted_in_the_join_frame_is_not_an_identity() {
    let mut hub = Roster::new(15);
    hub.connect(1, "commons".into());
    handle_text(
        &mut hub,
        1,
        r#"{"t":"join","passport":"","name":"ada","sub":"did:x:ada","avatar":"https://x/a.json"}"#,
    );
    assert_eq!(hub.occupant_count(), 1, "the frame is accepted, not refused");

    hub.connect(2, "commons".into());
    let out = handle_text(&mut hub, 2, r#"{"t":"join","passport":""}"#);
    let welcome: Value = out
        .iter()
        .find(|o| o.conn == 2)
        .map(|o| serde_json::from_str(o.text()).unwrap())
        .expect("the joiner is welcomed");
    let them = &welcome["occupants"][0];
    assert!(them["id"].is_number(), "they are there: {them}");
    for claimed in ["name", "sub", "avatar"] {
        assert!(
            them[claimed].is_null(),
            "'{claimed}' was asserted on the wire and must not be honoured: {them}"
        );
    }
}

#[test]
fn an_observer_watches_without_entering() {
    let mut hub = Roster::new(15);
    hub.connect(1, "commons".into());
    handle_text(&mut hub, 1, r#"{"t":"join","passport":""}"#);

    hub.connect(9, "commons".into());
    let out = handle_text(&mut hub, 9, r#"{"t":"observe"}"#);
    assert_eq!(out.len(), 1, "only the watcher is told anything");
    assert_eq!(out[0].conn, 9);
    let w: Value = serde_json::from_str(out[0].text()).unwrap();
    assert_eq!(w["t"], "welcome");
    assert_eq!(w["observer"], true);
    assert_eq!(w["occupants"].as_array().unwrap().len(), 1, "sees who is here");
    assert_eq!(hub.occupant_count(), 1, "watching is not occupying");
    assert_eq!(hub.observer_count(), 1);

    hub.connect(2, "commons".into());
    let out = handle_text(&mut hub, 2, r#"{"t":"join","passport":""}"#);
    let told: Vec<u64> = out
        .iter()
        .filter(|o| o.text().contains("\"join\""))
        .map(|o| o.conn)
        .collect();
    assert!(told.contains(&1) && told.contains(&9), "join reached {told:?}");
    let welcome: Value =
        serde_json::from_str(out.iter().find(|o| o.conn == 2).expect("welcome").text()).unwrap();
    assert_eq!(welcome["occupants"].as_array().unwrap().len(), 1);

    let out = handle_text(&mut hub, 1, r#"{"t":"pose","p":[1,0,1],"r":[0,0,0,1],"v":[0,0,0],"a":0}"#);
    assert!(out.iter().all(|o| o.conn != 9), "no pose reached the watcher");

    let out = hub.disconnect(2);
    assert!(out.iter().any(|o| o.conn == 9 && o.text().contains("leave")));

    let out = hub.disconnect(9);
    assert!(
        out.is_empty(),
        "an observer leaving is a non-event ({} messages sent)",
        out.len()
    );
    assert_eq!(hub.observer_count(), 0);
    assert_eq!(hub.occupant_count(), 1);
}

#[test]
fn identity_claims_cross_the_wire() {
    let mut hub = Roster::new(15);
    let token = token_with_payload(
        r#"{"sub":"did:pixygon:abc","name":"Anders","avatar":"https://api.pixygon.io/v1/passport/avatar/did:pixygon:abc"}"#,
    );
    hub.connect(1, "plaza".into());
    let out = handle_text(&mut hub, 1, &format!(r#"{{"t":"join","passport":"{token}"}}"#));
    assert_eq!(out.len(), 1);

    hub.connect(2, "plaza".into());
    let out = handle_text(&mut hub, 2, r#"{"t":"join","passport":"opaque"}"#);
    assert_eq!(out.len(), 2);
    let (join, welcome) = (parse(&out[0]), parse(&out[1]));
    assert_eq!(out[0].conn, 1);
    assert_eq!(join["t"], "join");
    assert_eq!(join["id"], 2);
    assert!(join.get("sub").is_none(), "anonymous joiner has no claims");
    assert_eq!(out[1].conn, 2);
    let occupants = welcome["occupants"].as_array().unwrap();
    assert_eq!(occupants.len(), 1);
    assert_eq!(occupants[0]["id"], 1);
    assert_eq!(occupants[0]["sub"], "did:pixygon:abc");
    assert_eq!(occupants[0]["name"], "Anders");
    assert_eq!(
        occupants[0]["avatar"],
        "https://api.pixygon.io/v1/passport/avatar/did:pixygon:abc"
    );
}

#[test]
fn worlds_are_isolated_from_each_other() {
    let mut hub = Roster::new(15);
    hub.connect(1, "world-a".into());
    hub.connect(2, "world-b".into());
    handle_text(&mut hub, 1, r#"{"t":"join","passport":"a"}"#);
    handle_text(&mut hub, 2, r#"{"t":"join","passport":"b"}"#);
    let out = handle_text(
        &mut hub,
        1,
        r#"{"t":"pose","id":0,"p":[0,0,0],"v":[0,0,0],"r":[0,0,0,1],"a":0}"#,
    );
    assert!(out.is_empty(), "cross-world leakage");
}

#[test]
fn relay_frames_from_strangers_are_dropped_and_poses_are_stamped() {
    let mut roster = Roster::new(15);
    roster.connect(1, "w".to_string());
    roster.connect(2, "w".to_string());
    assert_eq!(roster.plan_frame(1, WireKind::Pose), FramePlan::Drop);
    assert_eq!(roster.plan_frame(1, WireKind::Interact), FramePlan::Drop);
    assert_eq!(roster.plan_frame(1, WireKind::Join), FramePlan::Join);
    handle_text(&mut roster, 1, r#"{"t":"join"}"#);
    let id = roster.occupant_id(1).unwrap();
    assert_eq!(roster.plan_frame(1, WireKind::Pose), FramePlan::Stamp(id));
    assert_eq!(roster.plan_frame(1, WireKind::Interact), FramePlan::Forward);
    assert_eq!(roster.plan_frame(2, WireKind::Observe), FramePlan::Observe);
    assert_eq!(roster.plan_frame(1, WireKind::Leave), FramePlan::Leave);
    assert_eq!(roster.plan_frame(1, WireKind::Ignored), FramePlan::Drop);
}
