use thread_engine::assets::{cache_name, AssetLocation, AssetSource};
use thread_engine::cli::titleize;
use thread_engine::codex::CodexClient;
use thread_engine::conformance::{clauses_pass, transport_clauses, Severity};
use thread_engine::directory::urlencode as directory_urlencode;
use thread_engine::mesh::should_offer;
use thread_engine::passport::base64url_decode;
use thread_engine::resolver::urlencode as resolver_urlencode;
use thread_engine::structured_id::{IdDomain, StructuredId};
use thread_engine::urls::entry_url;
use thread_engine::web::{decode_entities, read_html};

#[test]
fn local_relative_uris_join_the_base_dir() {
    let src = AssetSource::local("/worlds/gallery");
    assert_eq!(
        src.resolve("meshes/statue.glb"),
        AssetLocation::Local("/worlds/gallery/meshes/statue.glb".to_string())
    );
    // A local world with no base URL never treats a relative path as remote.
    assert!(src.absolute_url("meshes/statue.glb").is_none());
}

#[test]
fn absolute_and_ipfs_uris_become_urls() {
    let src = AssetSource::local("/w");
    assert_eq!(
        src.absolute_url("https://cdn.example/tree.glb").as_deref(),
        Some("https://cdn.example/tree.glb")
    );
    assert_eq!(
        src.absolute_url("ipfs://Qm123/model.glb").as_deref(),
        Some("https://ipfs.io/ipfs/Qm123/model.glb")
    );
}

#[test]
fn hosted_relative_uris_resolve_against_the_world_url() {
    let src = AssetSource::hosted(
        "/cache",
        Some("https://studio.example/.well-known/thread/gallery/".into()),
        "/cache",
    );
    assert_eq!(
        src.absolute_url("meshes/statue.glb").as_deref(),
        Some("https://studio.example/.well-known/thread/gallery/meshes/statue.glb")
    );
}

#[test]
fn cache_names_are_stable_and_keep_the_extension() {
    let a = cache_name("https://cdn/tree.glb");
    assert_eq!(a, cache_name("https://cdn/tree.glb"), "deterministic");
    assert!(a.ends_with(".glb"));
    assert!(
        cache_name("https://cdn/img.png?v=2").ends_with(".png"),
        "strips query"
    );
    assert!(
        cache_name("https://cdn/noext").ends_with(".bin"),
        "falls back"
    );
    assert_ne!(
        cache_name("https://cdn/a.glb"),
        cache_name("https://cdn/b.glb")
    );
}

#[test]
fn builds_entry_url() {
    assert_eq!(
        entry_url("https://api.pixygon.io/v1", "the-veil"),
        "https://api.pixygon.io/v1/codex/entities/the-veil"
    );
    // Trailing slash is normalized.
    assert_eq!(
        entry_url("https://api.pixygon.io/v1/", "amebrak"),
        "https://api.pixygon.io/v1/codex/entities/amebrak"
    );
}

#[test]
fn blank_tokens_read_as_anonymous() {
    assert!(CodexClient::new("x").with_token(None).token.is_none());
    assert!(CodexClient::new("x")
        .with_token(Some("  ".into()))
        .token
        .is_none());
    assert_eq!(
        CodexClient::new("x")
            .with_token(Some("tok".into()))
            .token
            .as_deref(),
        Some("tok")
    );
}

#[test]
fn urlencode_covers_query_text() {
    assert_eq!(directory_urlencode("the weavery"), "the+weavery");
    assert_eq!(directory_urlencode("a/b?c"), "a%2Fb%3Fc");
    assert_eq!(directory_urlencode("plain-text_1.0~x"), "plain-text_1.0~x");
}

#[test]
fn exactly_one_side_offers() {
    // For any distinct pair, exactly one peer initiates — no glare.
    assert!(should_offer(1, 2));
    assert!(!should_offer(2, 1));
    assert_ne!(should_offer(3, 8), should_offer(8, 3));
}

#[test]
fn base64url_handles_padding_and_url_chars() {
    assert_eq!(
        base64url_decode("aGVsbG8").as_deref(),
        Some(b"hello".as_slice())
    );
    assert_eq!(
        base64url_decode("aGVsbG8=").as_deref(),
        Some(b"hello".as_slice())
    );
    // '-' and '_' are the url-safe 62/63.
    assert_eq!(
        base64url_decode("-_8").as_deref(),
        Some([0xfb, 0xff].as_slice())
    );
    assert!(base64url_decode("not base64!").is_none());
}

#[test]
fn percent_encodes_locators() {
    assert_eq!(
        resolver_urlencode("thread://market.pixygon.io/market#entry"),
        "thread%3A%2F%2Fmarket.pixygon.io%2Fmarket%23entry"
    );
}

#[test]
fn reads_title_text_and_absolute_links() {
    let html = r##"
          <html><head><title>Pixiel &amp; Co</title>
          <style>body{color:red}</style></head>
          <body>
            <script>var x = '<not text>';</script>
            <h1>The Forge</h1>
            <p>Where prompts are hammered into worlds.</p>
            <a href="/about">About us</a>
            <a href="https://pixygon.io/thread">The Thread</a>
            <a href="#top">skip</a>
          </body></html>
        "##;
    let doc = read_html(html, "https://pixiel.ai/forge");
    assert_eq!(doc.title, "Pixiel & Co");
    assert!(doc.text.contains("The Forge"));
    assert!(doc.text.contains("hammered into worlds"));
    assert!(!doc.text.contains("var x"), "script contents stripped");
    assert!(!doc.text.contains("color:red"), "style contents stripped");
    // Relative link resolved to absolute; fragment link dropped.
    assert!(doc
        .links
        .iter()
        .any(|(t, u)| t == "About us" && u == "https://pixiel.ai/about"));
    assert!(doc
        .links
        .iter()
        .any(|(_, u)| u == "https://pixygon.io/thread"));
    assert!(!doc.links.iter().any(|(t, _)| t == "skip"));
}

#[test]
fn decodes_entities() {
    assert_eq!(
        decode_entities("a &amp; b &lt;c&gt; &#39;d&#39; &mdash; e"),
        "a & b <c> 'd' — e"
    );
}

#[test]
fn titleizes_names() {
    assert_eq!(titleize("the-grand-hall"), "The Grand Hall");
    assert_eq!(titleize("gallery"), "Gallery");
}

#[test]
fn transport_contract_flags_missing_cors_as_error() {
    let ok = transport_clauses(true, 200, "application/json", "*");
    assert!(clauses_pass(&ok));

    let no_cors = transport_clauses(true, 200, "application/json", "");
    assert!(
        !clauses_pass(&no_cors),
        "missing CORS breaks cross-origin browsers"
    );
    let cors_clause = no_cors
        .iter()
        .find(|c| c.name == "serves any-origin CORS")
        .unwrap();
    assert_eq!(cors_clause.severity, Severity::Error);

    // Wrong content-type is only a warning — the manifest still parses.
    let text_plain = transport_clauses(true, 200, "text/plain", "*");
    assert!(clauses_pass(&text_plain));
    assert!(
        !text_plain
            .iter()
            .find(|c| c.name == "declares JSON content-type")
            .unwrap()
            .pass
    );
}

#[test]
fn encodes_and_decodes_components() {
    let id = StructuredId::new(21, 1, 23);
    assert_eq!(id.0, 21_01_0023);
    assert_eq!(id.category(), 21);
    assert_eq!(id.subcategory(), 1);
    assert_eq!(id.number(), 23);
    assert_eq!(id.to_id_string(), "21010023");
}

#[test]
fn parses_and_validates_raw() {
    assert_eq!(
        StructuredId::parse("21010023"),
        Some(StructuredId(21010023))
    );
    assert!(StructuredId::from_raw(0).is_none(), "category 0 is invalid");
    assert!(StructuredId::try_new(0, 0, 1).is_none());
}

#[test]
fn domain_follows_category_ranges() {
    assert_eq!(StructuredId::new(11, 0, 1).domain(), IdDomain::Actors);
    assert_eq!(StructuredId::new(21, 0, 1).domain(), IdDomain::Items);
    assert_eq!(StructuredId::new(99, 0, 1).domain(), IdDomain::Unknown);
}
