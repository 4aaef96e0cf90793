use thread_engine::conformance::{clauses_pass, Clause, LoadError, Report, Severity};
use thread_engine::constellation::{analyze_graph, GraphWorld};
use thread_engine::suite::{asset_path, run, AssetFacts, Corpus, ManifestFacts, PortalFacts, World};

/// The corpus key a `thread://host/path` destination resolves to: its path,
/// or its host when path-less.
fn key(to: &str) -> Option<String> {
    let rest = to.strip_prefix("thread://")?;
    let (host, path) = match rest.find('/') {
        Some(i) => (&rest[..i], rest[i + 1..].trim_end_matches('/')),
        None => (rest, ""),
    };
    if host.is_empty() {
        return None;
    }
    Some(if path.is_empty() { host.to_string() } else { path.to_string() })
}

fn portal(id: &str, to: &str, label: &str) -> PortalFacts {
    PortalFacts { id: id.into(), to: to.into(), label: label.into(), dest: key(to) }
}

fn world(name: &str, spawns: bool, portals: &[(&str, &str, &str)]) -> World {
    World {
        name: name.into(),
        manifest: ManifestFacts {
            spawns: if spawns { 1 } else { 0 },
            portals: portals.iter().map(|(i, t, l)| portal(i, t, l)).collect(),
            assets: Vec::new(),
            sunk: Vec::new(),
        },
        on_disk: true,
    }
}

fn corpus_from(worlds: Vec<World>) -> Corpus {
    Corpus { worlds, load_errors: Vec::new() }
}

fn clause<'a>(r: &'a Report, name: &str) -> &'a Clause {
    r.clauses.iter().find(|c| c.name == name).unwrap()
}

fn gw(name: &str, dests: &[Option<&str>]) -> GraphWorld {
    GraphWorld { name: name.into(), dests: dests.iter().map(|d| d.map(str::to_string)).collect() }
}

#[test]
fn a_connected_labeled_corpus_passes_cleanly() {
    let c = corpus_from(vec![
        world("nexus", true, &[("to-a", "thread://a.io/alpha", "Alpha")]),
        world("alpha", true, &[("to-n", "thread://x.io/nexus", "Nexus")]),
    ]);
    let r = run(&c);
    assert!(r.passed(), "no error clauses should fail");
    assert!(r.clauses.iter().all(|cl| cl.pass), "and no warnings either: {:?}", r.clauses);
}

#[test]
fn a_missing_spawn_is_an_error_and_fails_the_suite() {
    let c = corpus_from(vec![world("alpha", false, &[])]);
    let r = run(&c);
    assert!(!r.passed());
    let spawn_clause = clause(&r, "worlds declare a spawn");
    assert!(!spawn_clause.pass);
    assert_eq!(spawn_clause.severity, Severity::Error);
}

#[test]
fn an_orphan_world_warns_but_still_passes() {
    // 'lonely' is in the corpus but nothing links to it.
    let c = corpus_from(vec![
        world("nexus", true, &[("to-a", "thread://a.io/alpha", "Alpha")]),
        world("alpha", true, &[]),
        world("lonely", true, &[]),
    ]);
    let r = run(&c);
    assert!(r.passed(), "an orphan is a warning, not a conformance failure");
    let conn = clause(&r, "constellation is connected");
    assert!(!conn.pass);
    assert_eq!(conn.severity, Severity::Warn);
    assert!(conn.notes.iter().any(|n| n.contains("lonely")));
}

#[test]
fn external_links_are_counted_not_penalized() {
    let c = corpus_from(vec![world(
        "nexus",
        true,
        &[("out", "thread://someone-elses-host.com/room", "Elsewhere")],
    )]);
    let r = run(&c);
    assert!(r.passed());
    let conn = clause(&r, "constellation is connected");
    assert!(conn.notes.iter().any(|n| n.contains("1 external link")));
}

#[test]
fn a_world_missing_its_own_files_fails_and_links_out_are_left_alone() {
    let asset = |id: &str, uri: &str, wasm: bool, present: bool| AssetFacts {
        id: id.into(),
        uri: uri.into(),
        wasm,
        present,
    };
    let mut w = world("w", true, &[]);
    w.manifest.assets = vec![
        asset("a", "models/here.glb", false, true),
        asset("b", "models/gone.glb", false, false),
        asset("c", "https://cdn.example/x.glb", false, false),
        asset("d", "behaviors/absent.wasm", true, false),
    ];
    let corpus = corpus_from(vec![w]);
    let report = run(&corpus);
    let c = clause(&report, "declared files are present");
    assert_eq!(c.severity, Severity::Error);
    assert!(!c.pass);
    assert_eq!(c.notes.len(), 1, "{:?}", c.notes);
    assert!(c.notes[0].contains("gone.glb"), "{:?}", c.notes);
    assert!(!report.passed(), "a room without its models is not conformant");

    // A world fetched over the wire has no tree to inspect: skipped, not failed.
    let mut fetched = corpus;
    fetched.worlds[0].on_disk = false;
    let r = run(&fetched);
    let c = clause(&r, "declared files are present");
    assert!(c.pass, "nothing to check without a directory: {:?}", c.notes);
}

#[test]
fn suite_the_missing_file_note_names_the_asset_and_its_path() {
    let mut w = world("hall", true, &[]);
    w.manifest.assets = vec![AssetFacts {
        id: "cols".into(),
        uri: " models/columns.glb?v=2 ".into(),
        wasm: false,
        present: false,
    }];
    let r = run(&corpus_from(vec![w]));
    let c = clause(&r, "declared files are present");
    assert_eq!(c.notes, vec!["hall: asset 'cols' \u{2192} models/columns.glb is not there".to_string()]);
}

#[test]
fn suite_asset_paths_are_relative_files_only() {
    assert_eq!(asset_path("models/here.glb"), Some("models/here.glb".to_string()));
    assert_eq!(asset_path("  a/b.png#frag "), Some("a/b.png".to_string()));
    assert_eq!(asset_path("a/b.png?x#y"), Some("a/b.png".to_string()));
    assert_eq!(asset_path("https://cdn.example/x.glb"), None);
    assert_eq!(asset_path("//cdn.example/x.glb"), None);
    assert_eq!(asset_path("   "), None);
    assert_eq!(asset_path(""), None);
}

#[test]
fn suite_load_errors_fail_and_are_named() {
    let c = Corpus {
        worlds: Vec::new(),
        load_errors: vec![LoadError { name: "broken".into(), error: "expected value".into() }],
    };
    let r = run(&c);
    assert!(!r.passed());
    let c1 = clause(&r, "world manifests validate");
    assert_eq!(c1.severity, Severity::Error);
    assert_eq!(c1.notes, vec!["broken: expected value".to_string()]);
    assert_eq!(r.worlds, 0);
    let conn = clause(&r, "constellation is connected");
    assert!(conn.pass);
    assert_eq!(conn.notes, vec!["entry '\u{2014}' \u{b7} 0 internal link(s) \u{b7} 0 external link(s)".to_string()]);
}

#[test]
fn suite_bad_locators_and_blank_labels_are_reported() {
    let c = corpus_from(vec![world(
        "nexus",
        true,
        &[("p1", "not a locator", "Somewhere"), ("p2", "thread://a.io/nexus", "  \t ")],
    )]);
    let r = run(&c);
    assert!(!r.passed());
    let c3 = clause(&r, "portal destinations are valid Locators");
    assert_eq!(c3.notes, vec!["nexus: portal 'p1' \u{2192} 'not a locator'".to_string()]);
    let c5 = clause(&r, "veils carry labels");
    assert_eq!(c5.severity, Severity::Warn);
    assert_eq!(c5.notes, vec!["nexus: portal 'p2' has no label".to_string()]);
    let conn = clause(&r, "constellation is connected");
    assert_eq!(conn.notes, vec!["entry 'nexus' \u{b7} 1 internal link(s) \u{b7} 1 external link(s)".to_string()]);
}

#[test]
fn suite_ground_notes_stop_at_twelve() {
    let mut w = world("w", true, &[]);
    w.manifest.sunk = (0..15).map(|i| format!("w: 'post {i}' sits 0.20 m below the ground plane")).collect();
    let r = run(&corpus_from(vec![w]));
    let c = clause(&r, "geometry rests on the ground plane");
    assert_eq!(c.severity, Severity::Warn);
    assert!(!c.pass);
    assert_eq!(c.notes.len(), 13);
    assert_eq!(c.notes[12], "\u{2026} and 3 more");
    assert!(r.passed(), "a Warn clause never breaks conformance");
}

#[test]
fn suite_clauses_come_in_report_order() {
    let r = run(&corpus_from(vec![world("nexus", true, &[])]));
    let names: Vec<&str> = r.clauses.iter().map(|c| c.name.as_str()).collect();
    assert_eq!(
        names,
        vec![
            "world manifests validate",
            "worlds declare a spawn",
            "portal destinations are valid Locators",
            "constellation is connected",
            "veils carry labels",
            "declared files are present",
            "geometry rests on the ground plane",
        ]
    );
    assert!(clauses_pass(&r.clauses));
}

#[test]
fn graph_entry_prefers_nexus_then_the_last_busiest_world() {
    let g = analyze_graph(&vec![gw("a", &[None]), gw("nexus", &[]), gw("b", &[None, None])]);
    assert_eq!(g.entry.as_deref(), Some("nexus"));
    let g = analyze_graph(&vec![gw("a", &[None, None]), gw("b", &[None]), gw("c", &[None, None])]);
    assert_eq!(g.entry.as_deref(), Some("c"));
    let g = analyze_graph(&Vec::new());
    assert_eq!(g.entry, None);
    assert!(g.orphans.is_empty());
    assert_eq!((g.internal, g.external), (0, 0));
}

#[test]
fn graph_orphans_are_the_unreached_worlds_in_order() {
    let g = analyze_graph(&vec![
        gw("nexus", &[Some("hall"), Some("elsewhere"), None]),
        gw("zeta", &[Some("nexus")]),
        gw("hall", &[Some("garden")]),
        gw("garden", &[Some("hall")]),
        gw("attic", &[]),
    ]);
    assert_eq!(g.entry.as_deref(), Some("nexus"));
    assert_eq!(g.orphans, vec!["attic".to_string(), "zeta".to_string()]);
    assert_eq!(g.internal, 4);
    assert_eq!(g.external, 2);
}
