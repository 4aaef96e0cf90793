use thread_engine::fetch::Delivery;
use thread_engine::navigator::{NavKind, SessionHistory};

fn arrive(nav: &mut SessionHistory, loc: &str, kind: NavKind) {
    nav.arrive(Some(loc.into()), kind);
}

fn back_history(nav: &SessionHistory) -> Vec<&str> {
    nav.back_stack.iter().map(String::as_str).collect()
}

#[test]
fn history_works_like_the_webs_back_and_forward() {
    let mut nav = SessionHistory::new();
    // Walk A → B → C: two entries behind us, none ahead.
    arrive(&mut nav, "thread://a", NavKind::Normal);
    arrive(&mut nav, "thread://b", NavKind::Normal);
    arrive(&mut nav, "thread://c", NavKind::Normal);
    assert_eq!(back_history(&nav), ["thread://a", "thread://b"]);
    assert!(nav.can_go_back() && !nav.can_go_forward());
    assert_eq!(nav.current.as_deref(), Some("thread://c"));

    // Going back to B: C moves to the forward stack.
    assert_eq!(nav.back_stack.pop().as_deref(), Some("thread://b"));
    arrive(&mut nav, "thread://b", NavKind::Back);
    assert_eq!(back_history(&nav), ["thread://a"]);
    assert!(nav.can_go_forward());

    // A fresh navigation from B forks history — forward is gone.
    arrive(&mut nav, "thread://d", NavKind::Normal);
    assert_eq!(back_history(&nav), ["thread://a", "thread://b"]);
    assert!(!nav.can_go_forward());
}

#[test]
fn a_reload_is_not_a_navigation() {
    let mut nav = SessionHistory::new();
    arrive(&mut nav, "thread://a", NavKind::Normal);
    arrive(&mut nav, "thread://home", NavKind::Normal);
    assert_eq!(back_history(&nav), ["thread://a"]);
    arrive(&mut nav, "thread://home", NavKind::Reload);
    assert_eq!(back_history(&nav), ["thread://a"], "history didn't fork");
    assert!(!nav.can_go_forward());
    assert_eq!(nav.current.as_deref(), Some("thread://home"), "the address survives");
}

#[test]
fn back_with_empty_history_is_a_safe_no_op() {
    let mut nav = SessionHistory::new();
    assert!(nav.back().is_none());
    assert!(nav.forward().is_none());
    assert!(nav.go_home().is_none(), "no home set → no walk");
}

#[test]
fn set_actor_keeps_only_real_subs() {
    let mut nav = SessionHistory::new();
    nav.set_actor(Some("  ".into()));
    assert!(nav.actor_sub.is_none(), "blank subs read as anonymous");
    nav.set_actor(Some("did:pixygon:abc".into()));
    assert_eq!(nav.actor_sub.as_deref(), Some("did:pixygon:abc"));
    nav.set_actor(None);
    assert!(nav.actor_sub.is_none());
}

#[test]
fn home_is_where_you_opened_and_going_home_from_home_stays() {
    let mut nav = SessionHistory::new();
    assert!(nav.home.is_none());
    assert_eq!(nav.open("thread://a"), "thread://a");
    assert_eq!(nav.home.as_deref(), Some("thread://a"));
    assert!(nav.is_traveling());
    assert!(nav.go_home().is_none(), "a walk is in flight");
    let (result, loc, kind) = nav.land(Delivery::Arrived(7u8)).unwrap();
    assert_eq!((result, loc.as_str(), kind), (7, "thread://a", NavKind::Normal));
    nav.arrive(Some(loc), kind);
    assert!(nav.go_home().is_none(), "already home → no walk begins");
    nav.set_home("thread://b");
    assert_eq!(nav.go_home().as_deref(), Some("thread://b"));
}

#[test]
fn back_then_forward_round_trips_through_landing() {
    let mut nav = SessionHistory::new();
    arrive(&mut nav, "thread://a", NavKind::Normal);
    arrive(&mut nav, "thread://b", NavKind::Normal);
    let dest = nav.back().unwrap();
    assert_eq!(dest, "thread://a");
    let (_, loc, kind) = nav.land(Delivery::Arrived(())).unwrap();
    nav.arrive(Some(loc), kind);
    assert_eq!(nav.current.as_deref(), Some("thread://a"));
    let dest = nav.forward().unwrap();
    assert_eq!(dest, "thread://b");
    let (_, loc, kind) = nav.land(Delivery::Arrived(())).unwrap();
    nav.arrive(Some(loc), kind);
    assert_eq!(nav.current.as_deref(), Some("thread://b"));
    assert_eq!(back_history(&nav), ["thread://a"]);
    assert!(!nav.can_go_forward());
}

#[test]
fn a_failed_back_keeps_its_history_entry() {
    let mut nav = SessionHistory::new();
    arrive(&mut nav, "thread://a", NavKind::Normal);
    arrive(&mut nav, "thread://b", NavKind::Normal);
    nav.back().unwrap();
    assert!(nav.land::<()>(Delivery::Pending).is_none());
    assert!(nav.land::<()>(Delivery::Failed("no world at x (HTTP 404)".into())).is_none());
    assert_eq!(back_history(&nav), ["thread://a"]);
    assert_eq!(nav.last_error.as_deref(), Some("couldn't reach that world (no world at x)"));
    assert!(!nav.is_traveling());
    // A stopped fetch just ends the walk.
    nav.walk_to("thread://c");
    assert!(nav.land::<()>(Delivery::Stopped).is_none());
    assert!(!nav.is_traveling());
    assert_eq!(nav.current.as_deref(), Some("thread://b"));
}
