use thread_engine::cli::{readme, template_world_markup};
use thread_engine::web::{decodable, decode_entities};

fn expected_readme(name: &str, title: &str, file: &str) -> String {
    let ctype = if file.ends_with(".thread") { "text/plain" } else { "application/json" };
    format!(
        "# {title}\n\nA world on the Thread.\n\n\
         ## Edit\n\nEdit `{file}` (spec: World Manifest v0.1 / Thread Markup v0.1). `thread validate` checks it.\n\n\
         ## Preview\n\n```\nthread preview {file}\n```\n\n\
         ## Publish\n\nPut this folder at `https://<yourdomain>/.well-known/thread/` on any static host\n\
         (Netlify, S3, GitHub Pages, nginx\u{2026}). Serve `{file}` with:\n\
         - `Content-Type: {ctype}`\n- `Access-Control-Allow-Origin: *`\n\n\
         Then check it and share:\n\n```\nthread doctor <yourdomain>\n# \u{2192} walk  thread://<yourdomain>\n```\n\n\
         _World id: `{name}`._\n"
    )
}

#[test]
fn scaffold_readme_names_the_file_and_its_content_type() {
    assert_eq!(readme("my-world", "My World", "world.json"), expected_readme("my-world", "My World", "world.json"));
    assert_eq!(
        readme("my-world", "My World", "world.thread"),
        expected_readme("my-world", "My World", "world.thread")
    );
    assert!(readme("a", "A", "world.thread").contains("`Content-Type: text/plain`"));
    assert!(readme("a", "A", "world.json").contains("`Content-Type: application/json`"));
}

#[test]
fn scaffold_markup_carries_the_id_and_title() {
    let t = template_world_markup("garden", "The Garden");
    assert!(t.starts_with("<!-- The Garden \u{2014} a world on the Thread. This file IS the world:\n"));
    assert!(t.contains("<world id=\"garden\" title=\"The Garden\" description=\"A world on the Thread. Edit me!\""));
    assert!(t.contains("<portal to=\"thread://pixygon.io#entry\" at=\"-8 1.2 0\" scale=\"2 3 0.2\" label=\"The Nexus\"/>"));
    assert!(t.contains("  .floor { color: 0.14 0.13 0.18; roughness: 0.9 }\n"));
    assert!(t.ends_with("</style>\n"));
}

#[test]
fn web_decodable_text_decodes() {
    let s = "caf\u{e9} &amp; tea";
    assert!(decodable(s));
    assert_eq!(decode_entities(s), "caf\u{e9} & tea");
    assert!(decodable("plain"));
    // An ampersand whose twelve-byte window would end inside a character.
    assert!(!decodable("&xxxxxxxxxx\u{e9}"));
}
