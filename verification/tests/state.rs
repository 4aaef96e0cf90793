use thread_engine::bookmarks::{Bookmark, Bookmarks};
use thread_engine::codex::{CodexClient, CodexEntry, CodexState};
use thread_engine::directory::{Directory, SearchHit, WorldEntry};
use thread_engine::fetch::Delivery;
use thread_engine::home::HOME_LOCATOR;
use thread_engine::mesh::{MeshCoordinator, MeshEvent, PeerChange, MAX_MESH_PEERS};
use thread_engine::recents::{Recents, CAP};
use thread_engine::web::{ReaderDoc, WebReader};

#[test]
fn bookmarks_add_toggle_and_contains() {
    let mut b = Bookmarks::new();
    assert!(b.entries().is_empty());
    b.add("The Nexus", "thread://nexus.pixygon.io/nexus");
    assert!(b.contains("thread://nexus.pixygon.io/nexus"));
    assert!(b.toggle("The Forge", "thread://pixiel.ai/forge"), "first toggle bookmarks it");
    assert!(!b.toggle("The Forge", "thread://pixiel.ai/forge"), "second removes it");
    assert_eq!(b.entries().len(), 1);
    assert_eq!(b.entries()[0].label, "The Nexus");
}

#[test]
fn re_adding_refreshes_the_label_without_duplicating() {
    let mut b = Bookmarks::new();
    b.add("Old Title", "thread://a/x");
    b.add("New Title", "thread://a/x");
    assert_eq!(b.entries().len(), 1);
    assert_eq!(b.entries()[0].label, "New Title");
}

#[test]
fn bookmarks_remove_reports_what_it_did() {
    let mut b = Bookmarks::from_entries(vec![
        Bookmark { label: "A".into(), locator: "thread://a".into() },
        Bookmark { label: "B".into(), locator: "thread://b".into() },
    ]);
    assert!(b.remove("thread://a"));
    assert!(!b.remove("thread://a"));
    assert_eq!(b.entries().len(), 1);
    assert_eq!(b.entries()[0].locator, "thread://b");
}

#[test]
fn visits_dedupe_reorder_and_cap() {
    let mut r = Recents::new();
    assert!(r.visit("The Nexus", "thread://pixygon.io#entry"));
    assert!(r.visit("The Commons", "thread://commons.pixygon.io"));
    // Re-visiting moves to the front and strips the anchor; no duplicate.
    assert!(r.visit("The Nexus", "thread://pixygon.io"));
    assert_eq!(r.entries().len(), 2);
    assert_eq!(r.entries()[0].locator, "thread://pixygon.io");
    // Freshest repeat is a no-op.
    assert!(!r.visit("The Nexus", "thread://pixygon.io"));
    // Home is never recorded.
    assert!(!r.visit("Home", HOME_LOCATOR));
    // Cap holds.
    for i in 0..10 {
        r.visit(&format!("W{i}"), &format!("thread://w{i}.example"));
    }
    assert_eq!(r.entries().len(), CAP);
    assert_eq!(r.entries()[0].label, "W9");
}

fn veil_entry() -> CodexEntry {
    CodexEntry {
        name: "The Veil".into(),
        slug: "the-veil".into(),
        kind: "concept".into(),
        subkind: Some("membrane".into()),
        summary: Some("A temporary membrane.".into()),
        description: Some("The magical, temporary membrane...".into()),
        tags: vec!["wardenship".into()],
        access_tier: Some("public".into()),
    }
}

#[test]
fn codex_panel_titles_a_loaded_entry() {
    let mut c = CodexClient::new("https://api.example/v1/");
    assert!(!c.is_open());
    let fetch = c.open("the-veil").expect("not cached yet");
    assert_eq!(fetch.url, "https://api.example/v1/codex/entities/the-veil");
    assert!(fetch.token.is_none());
    assert!(c.panel().unwrap().loading);
    c.poll(Delivery::Arrived(veil_entry()));
    let panel = c.panel().unwrap();
    assert_eq!(panel.title, "The Veil");
    assert_eq!(panel.subtitle, "concept · membrane");
    assert!(!panel.loading);
    // Cached now: reopening shows at once.
    c.close();
    assert!(c.open("the-veil").is_none());
    assert!(matches!(c.state, CodexState::Loaded(_)));
}

#[test]
fn codex_failures_surface_and_stop_loading() {
    let mut c = CodexClient::new("https://api.example/v1").with_token(Some("tok".into()));
    let fetch = c.open("amebrak").unwrap();
    assert_eq!(fetch.token.as_deref(), Some("tok"));
    c.poll(Delivery::Failed("HTTP 403".into()));
    assert!(matches!(&c.state, CodexState::Error(s, m) if s == "amebrak" && m == "HTTP 403"));
    // Nothing in flight: a late delivery changes nothing.
    c.poll(Delivery::Arrived(veil_entry()));
    assert!(matches!(&c.state, CodexState::Error(_, _)));
}

#[test]
fn directory_loads_once_and_looks_up_by_base_locator() {
    let mut d = Directory::new("https://api.example/v1/");
    let url = d.toggle().expect("first open starts the fetch");
    assert_eq!(url, "https://api.example/v1/thread/worlds");
    assert!(d.is_open());
    assert!(d.is_loading());
    assert!(d.toggle().is_none(), "in flight: no second fetch");
    d.poll(
        Delivery::Pending,
        Delivery::Arrived(vec![WorldEntry {
            title: "The Forge".into(),
            locator: "thread://pixiel.ai/forge".into(),
            description: "workshop".into(),
        }]),
    );
    assert!(!d.is_loading());
    assert_eq!(d.entries().unwrap().len(), 1);
    assert_eq!(d.lookup("thread://pixiel.ai/forge#entry").unwrap().title, "The Forge");
    assert!(d.lookup("thread://elsewhere").is_none());
}

#[test]
fn directory_search_keeps_only_the_current_answer() {
    let mut d = Directory::new("https://api.example/v1");
    let url = d.search("  the weavery ").unwrap();
    assert_eq!(url, "https://api.example/v1/thread/search?q=the+weavery");
    assert!(d.search("the weavery").is_none(), "same query: nothing new");
    assert!(d.search_loading());
    let hit = SearchHit {
        title: "Weavery".into(),
        locator: "thread://w".into(),
        snippet: "loom".into(),
        veils_in: 3,
    };
    d.poll(Delivery::Arrived(vec![hit]), Delivery::Pending);
    assert!(!d.search_loading());
    assert_eq!(d.search_results().unwrap()[0].veils_in, 3);
    assert!(d.search("").is_none());
    assert!(d.search_results().is_none());
}

#[test]
fn directory_errors_are_recorded() {
    let mut d = Directory::new("b");
    d.ensure_loaded();
    d.poll(Delivery::Pending, Delivery::Stopped);
    assert_eq!(d.error(), Some("fetch stopped"));
    assert!(!d.is_loading());
}

#[test]
fn web_reader_history_works_like_back() {
    let mut r = WebReader::new();
    assert!(r.view().is_none());
    assert_eq!(r.open("https://a.example/"), "https://a.example/");
    assert!(r.view().unwrap().loading);
    r.poll(Delivery::Arrived(ReaderDoc {
        title: String::new(),
        text: "hello".into(),
        links: vec![],
    }));
    let v = r.view().unwrap();
    assert_eq!(v.title, "https://a.example/", "untitled pages show their URL");
    assert_eq!(v.text, "hello");
    assert!(!r.can_go_back());
    r.open("https://b.example/");
    assert!(r.can_go_back());
    assert_eq!(r.back().as_deref(), Some("https://a.example/"));
    assert!(r.back().is_none(), "nothing before the first page");
    r.poll(Delivery::Failed("offline".into()));
    assert_eq!(r.view().unwrap().error.as_deref(), Some("offline"));
    r.close();
    assert!(!r.is_open());
}

#[test]
fn mesh_refuses_peers_past_capacity() {
    let mut c = MeshCoordinator::new(0);
    let events: Vec<MeshEvent> = (1..=(MAX_MESH_PEERS as u32 + 5))
        .map(MeshEvent::Connected)
        .collect();
    let changes = c.apply_events(&events);
    assert_eq!(c.peer_count(), MAX_MESH_PEERS, "capped at MAX_MESH_PEERS");
    assert_eq!(changes.len(), MAX_MESH_PEERS);
    assert!(c.is_full());
}

#[test]
fn a_disconnect_drops_the_peer() {
    let mut c = MeshCoordinator::new(1);
    c.apply_events(&vec![MeshEvent::Connected(2)]);
    assert_eq!(c.peer_count(), 1);
    let changes = c.apply_events(&vec![MeshEvent::Disconnected(2)]);
    assert_eq!(c.peer_count(), 0, "peer removed on disconnect");
    assert_eq!(changes, vec![PeerChange::Left(2)]);
}

#[test]
fn mesh_ignores_self_and_repeats() {
    let mut c = MeshCoordinator::new(7);
    let changes = c.apply_events(&vec![
        MeshEvent::Connected(7),
        MeshEvent::Connected(3),
        MeshEvent::Connected(3),
        MeshEvent::Disconnected(9),
    ]);
    assert_eq!(
        changes,
        vec![PeerChange::Joined { id: 3, name: "peer 3".into() }]
    );
    assert!(c.accepts(3));
    assert!(!c.accepts(7), "never self-echo");
    assert!(!c.accepts(4), "never strangers");
    c.set_id(8);
    assert_eq!(c.id(), 8);
    assert_eq!(c.peer_count(), 1);
}

#[test]
fn inbound_packets_come_only_from_known_peers() {
    let mut c = MeshCoordinator::new(1);
    c.apply_events(&vec![MeshEvent::Connected(2), MeshEvent::Connected(3)]);
    let kept = c.accept_packets(vec![
        (2, vec![1]),
        (1, vec![2]),
        (9, vec![3]),
        (3, vec![4]),
        (2, vec![5]),
    ]);
    assert_eq!(kept, vec![(2, vec![1]), (3, vec![4]), (2, vec![5])]);
}
