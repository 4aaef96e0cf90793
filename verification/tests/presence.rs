use thread_engine::presence::{join_message, relay_url, split_voice_frame, traveler_name};
use thread_engine::records::TravelerHello;
use thread_engine::relay::frame_voice;

#[test]
fn relay_urls_name_the_world_unless_they_already_do() {
    assert_eq!(relay_url("wss://relay.example/", "w1"), "wss://relay.example/thread/w1");
    assert_eq!(relay_url("wss://relay.example", "w1"), "wss://relay.example/thread/w1");
    assert_eq!(relay_url("wss://r.example/thread/lobby", "w1"), "wss://r.example/thread/lobby");
}

#[test]
fn the_join_message_carries_the_passport_and_spawn() {
    assert_eq!(
        join_message("tok", &None),
        r#"{"t":"join","passport":"tok","spawn":null}"#
    );
    assert_eq!(
        join_message("a\"b", &Some("entry".into())),
        r#"{"t":"join","passport":"a\"b","spawn":"entry"}"#
    );
    let v: serde_json::Value = serde_json::from_str(&join_message("x\ny", &None)).unwrap();
    assert_eq!(v["passport"], "x\ny");
}

#[test]
fn travelers_are_named_by_claim_then_sub_then_id() {
    let mut h = TravelerHello { id: 7, sub: Some("did:x:7".into()), name: Some("Ada".into()), avatar: None };
    assert_eq!(traveler_name(&h), "Ada");
    h.name = None;
    assert_eq!(traveler_name(&h), "did:x:7");
    h.sub = None;
    assert_eq!(traveler_name(&h), "traveler 7");
}

#[test]
fn a_relayed_voice_frame_reads_back_its_speaker_and_payload() {
    let framed = frame_voice(0xA1B2_C3D4, &vec![5, 6, 7]).unwrap();
    assert_eq!(split_voice_frame(&framed), Some((0xA1B2_C3D4, vec![5, 6, 7])));
    assert_eq!(split_voice_frame(&vec![1, 0, 0, 0]), None, "no payload");
    assert_eq!(split_voice_frame(&vec![2, 1, 0, 0, 9]), Some((258, vec![9])));
}
