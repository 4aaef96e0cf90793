use thread_engine::assets::{cache_name, join_path, AssetLocation, AssetSource};
use thread_engine::cli::{slug, slug_name, split_plain_target, title_case, titleize, urlencode as cli_urlencode};
use thread_engine::conformance::{Clause, Report, Severity};
use thread_engine::home::{home_description, is_home, world_path, FRONT_DOOR, HOME_LOCATOR};
use thread_engine::navigator::short_error;
use thread_engine::passport::{base64url_decode, color_bytes, display_name, is_blank, jwt_payload, sub_of, Claims, DescriptorIdentity};
use thread_engine::resolver::{markup_url, resolve_url};
use thread_engine::structured_id::StructuredId;
use thread_engine::urls::{dir_url, normalize_locator, percent_encode};
use thread_engine::walk::{choose_veil, Step, VeilChoice, WalkOutcome};

/// An unsigned JWT-shaped token around a payload.
fn token_with_payload(payload: &str) -> String {
    fn b64url(data: &[u8]) -> String {
        const ALPHABET: &[u8] = b"ABCDEFGHIJKLMNOPQRSTUVWXYZabcdefghijklmnopqrstuvwxyz0123456789-_";
        let mut out = String::new();
        for chunk in data.chunks(3) {
            let mut buf = [0u8; 3];
            buf[..chunk.len()].copy_from_slice(chunk);
            let n = (u32::from(buf[0]) << 16) | (u32::from(buf[1]) << 8) | u32::from(buf[2]);
            for (i, shift) in [18u32, 12, 6, 0].iter().enumerate() {
                if i <= chunk.len() {
                    out.push(ALPHABET[((n >> shift) & 63) as usize] as char);
                }
            }
        }
        out
    }
    format!("{}.{}.sig", b64url(br#"{"alg":"none"}"#), b64url(payload.as_bytes()))
}

#[test]
fn jwt_payload_reads_the_second_segment() {
    let payload = r#"{"sub":"did:x:1","name":"OldName"}"#;
    let token = token_with_payload(payload);
    assert_eq!(jwt_payload(&token).as_deref(), Some(payload.as_bytes()));
    assert!(jwt_payload("not-a-jwt").is_none(), "opaque tokens have no payload");
    assert!(jwt_payload("a.!!!.c").is_none());
    assert_eq!(jwt_payload("a.aGk").as_deref(), Some(b"hi".as_slice()));
}

#[test]
fn empty_token_is_blank() {
    assert!(is_blank(""));
    assert!(is_blank("   "));
    assert!(!is_blank("not-a-jwt"));
}

#[test]
fn descriptor_name_wins_over_claim() {
    let claims = Claims {
        sub: "did:x:1".into(),
        name: Some("OldName".into()),
        ..Default::default()
    };
    assert_eq!(display_name(None, &claims), Some("OldName"));
    let d = DescriptorIdentity { id: "did:x:1".into(), name: "Fresh".into() };
    assert_eq!(display_name(Some(&d), &claims), Some("Fresh"));
    let blank = DescriptorIdentity { id: "did:x:1".into(), name: String::new() };
    assert_eq!(display_name(Some(&blank), &claims), Some("OldName"));
    let only_sub = Claims { sub: "did:x:2".into(), ..Default::default() };
    assert_eq!(display_name(None, &only_sub), Some("did:x:2"));
    assert_eq!(display_name(None, &Claims::default()), None);
    assert_eq!(sub_of(&only_sub), Some("did:x:2"));
    assert_eq!(sub_of(&Claims::default()), None);
}

#[test]
fn base64url_decodes_exact_bytes() {
    assert_eq!(base64url_decode("").as_deref(), Some(b"".as_slice()));
    assert_eq!(base64url_decode("TWFu").as_deref(), Some(b"Man".as_slice()));
    assert_eq!(base64url_decode("TWE").as_deref(), Some(b"Ma".as_slice()));
    assert!(base64url_decode("TW+u").is_none(), "'+' is not url-safe");
}

#[test]
fn cli_names_and_slugs() {
    assert_eq!(titleize("my_world now"), "My World Now");
    assert_eq!(titleize("--"), "");
    assert_eq!(title_case("gallery"), "Gallery");
    assert_eq!(title_case(""), "");
    assert_eq!(slug("The Grand  Hall!"), "the-grand-hall");
    assert_eq!(slug_name("Crystal Cave 2"), "crystal-cave-2");
    assert_eq!(cli_urlencode("a b/é"), "a+b%2F%E9");
}

#[test]
fn home_paths_and_description() {
    assert_eq!(world_path("/home/me/.thread"), "/home/me/.thread/world.json");
    assert_eq!(world_path("/abs/"), "/abs/world.json");
    assert_eq!(HOME_LOCATOR, "thread://home");
    assert_eq!(FRONT_DOOR, "thread://pixygon.io");
    assert!(home_description().starts_with("Your own corner of the Thread"));
}

#[test]
fn short_errors_keep_the_head_of_the_message() {
    assert_eq!(
        short_error("no world at /w/x.json (HTTP 404)"),
        "couldn't reach that world (no world at /w/x.json)"
    );
    assert_eq!(short_error("(only parens)"), "couldn't reach that world ((only parens))");
    let long = "x".repeat(80);
    assert_eq!(short_error(&long), format!("couldn't reach that world ({})", "x".repeat(60)));
}

#[test]
fn walk_outcome_is_ok_without_an_error() {
    let ok = WalkOutcome { visited: vec!["thread://a".into()], error: None };
    assert!(ok.ok());
    let bad = WalkOutcome { visited: vec![], error: Some("no veil".into()) };
    assert!(!bad.ok());
}

#[test]
fn resolver_urls() {
    assert_eq!(
        resolve_url("https://api.example/v1//", "thread://a.b/c d"),
        "https://api.example/v1/thread/resolve?loc=thread%3A%2F%2Fa.b%2Fc%20d"
    );
    assert_eq!(
        markup_url("https://h.io/.well-known/thread/w/world.json"),
        "https://h.io/.well-known/thread/w/world.thread"
    );
    assert_eq!(markup_url("https://h.io/x/"), "https://h.io/x/world.thread");
    assert_eq!(markup_url("world.jsonworld.json"), "world.thread");
}

#[test]
fn url_helpers() {
    assert_eq!(dir_url("https://h.io/a/world.json").as_deref(), Some("https://h.io/a/"));
    assert!(dir_url("no-slash").is_none());
    assert_eq!(normalize_locator("thread://a.b/c#entry"), "thread://a.b/c");
    assert_eq!(normalize_locator("thread://a.b/c/@2024"), "thread://a.b/c");
    assert_eq!(percent_encode("a b~", true), "a+b~");
    assert_eq!(percent_encode("a b~", false), "a%20b~");
    assert_eq!(percent_encode("é", false), "%C3%A9");
}

#[test]
fn asset_paths_and_remote_resolution() {
    assert_eq!(join_path("/w", "m/a.glb"), "/w/m/a.glb");
    assert_eq!(join_path("/w", "/abs/a.glb"), "/abs/a.glb");
    let src = AssetSource::hosted("/cache", Some("https://s.example/w/".into()), "/cache");
    match src.resolve("a.glb") {
        AssetLocation::Remote { url, cache_dir, file_name } => {
            assert_eq!(url, "https://s.example/w/a.glb");
            assert_eq!(cache_dir.as_deref(), Some("/cache"));
            assert_eq!(file_name, cache_name("https://s.example/w/a.glb"));
        }
        AssetLocation::Local(p) => panic!("hosted relative asset resolved locally: {p}"),
    }
}

#[test]
fn cache_name_is_the_fnv_hash_and_extension() {
    // FNV-1a 64 of the empty string is the offset basis itself.
    assert_eq!(cache_name(""), "cbf29ce484222325.bin");
    assert_eq!(cache_name("a"), "af63dc4c8601ec8c.bin");
}

#[test]
fn structured_ids_round_trip_through_text() {
    for raw in [10_00_0001u32, 21_01_0023, 99_99_9999] {
        let id = StructuredId::from_raw(raw).unwrap();
        assert_eq!(StructuredId::parse(&id.to_id_string()), Some(id));
        assert_eq!(StructuredId::new(id.category(), id.subcategory(), id.number()), id);
    }
    // An id is eight digits: nothing past 99_999_999 is one.
    assert!(StructuredId::from_raw(300_000_001).is_none());
    assert!(StructuredId::from_raw(257_000_001).is_none());
    assert!(StructuredId::parse("257000001").is_none());
    assert!(StructuredId::from_raw(0).is_none());
    assert!(StructuredId::from_raw(21_00_0000).is_none(), "number 0 is invalid");
    assert!(StructuredId::parse("abc").is_none());
}

#[test]
fn a_report_passes_unless_an_error_fails() {
    let warn = Clause { name: "w".into(), severity: Severity::Warn, pass: false, notes: vec![] };
    let err = Clause { name: "e".into(), severity: Severity::Error, pass: false, notes: vec![] };
    assert!(Report { clauses: vec![warn.clone()], worlds: 1 }.passed());
    assert!(!Report { clauses: vec![warn, err], worlds: 1 }.passed());
}

#[test]
fn plain_doctor_targets_split_into_host_and_path() {
    let pair = |a: &str, b: &str| (a.to_string(), b.to_string());
    assert_eq!(split_plain_target("example.com"), pair("example.com", ""));
    assert_eq!(split_plain_target("example.com/gallery"), pair("example.com", "gallery"));
    assert_eq!(split_plain_target("https://x.org/y"), pair("x.org", "y"));
    assert_eq!(split_plain_target("http://x.org/a/b/"), pair("x.org", "a/b"));
}

#[test]
fn steps_choose_veils_by_index_label_and_host() {
    let veils = vec![
        VeilChoice { label: "The Forge".into(), host: Some("pixiel.ai".into()) },
        VeilChoice { label: "Grove".into(), host: None },
        VeilChoice { label: "the forge".into(), host: Some("garden.io".into()) },
    ];
    assert_eq!(choose_veil(&veils, &Step::ByIndex(1)), Some(1));
    assert_eq!(choose_veil(&veils, &Step::ByIndex(3)), None);
    assert_eq!(choose_veil(&veils, &Step::ByLabel("THE FORGE".into())), Some(0));
    assert_eq!(choose_veil(&veils, &Step::ByLabel("grove".into())), Some(1));
    assert_eq!(choose_veil(&veils, &Step::ByLabel("nowhere".into())), None);
    assert_eq!(choose_veil(&veils, &Step::ToHost("garden.io".into())), Some(2));
    assert_eq!(choose_veil(&veils, &Step::ToHost("elsewhere".into())), None);
}

#[test]
fn thread_home_is_recognized_in_all_its_spellings() {
    assert!(is_home("thread://home"));
    assert!(is_home("thread://home#entry"));
    assert!(is_home("thread://home@1200"));
    // A world *named* home on a real host is not the home-space.
    assert!(!is_home("thread://example.com/home"));
    assert!(!is_home("thread://homestead.io"));
    assert!(!is_home("not a locator"));
}

fn parse_color(hex: &str) -> Option<[f32; 4]> {
    let (r, g, b) = color_bytes(hex)?;
    Some([f32::from(r) / 255.0, f32::from(g) / 255.0, f32::from(b) / 255.0, 1.0])
}

#[test]
fn parses_descriptor_colors() {
    let c = parse_color("#c8956c").unwrap();
    assert!((c[0] - 200.0 / 255.0).abs() < 1e-6);
    assert!((c[1] - 149.0 / 255.0).abs() < 1e-6);
    assert!((c[2] - 108.0 / 255.0).abs() < 1e-6);
    assert_eq!(c[3], 1.0);
    assert!(parse_color("c8956c").is_none(), "requires the # prefix");
    assert!(parse_color("#fff").is_none(), "short form unsupported");
    assert!(parse_color("#zzzzzz").is_none());
}

#[test]
fn passport_color_bytes_read_pairs() {
    assert_eq!(color_bytes("#C8956c"), Some((200, 149, 108)));
    assert_eq!(color_bytes("#+f00ff"), Some((15, 0, 255)));
    assert_eq!(color_bytes("#\u{e9}12345"), None);
}
