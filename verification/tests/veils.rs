use thread_engine::bookmarks::Bookmarks;
use thread_engine::home::{FRONT_DOOR, HOME_LOCATOR};
use thread_engine::recents::Recents;
use thread_engine::veils::{plan_fav_veils, plan_recent_veils, VeilRef};

fn veil(id: &str, to: &str) -> VeilRef {
    VeilRef { id: id.into(), to: to.into() }
}

/// The home's veils after a star sync, as the home writes them.
fn sync_favs(veils: &Vec<VeilRef>, b: &Bookmarks) -> Vec<VeilRef> {
    let (mut kept, favs) = plan_fav_veils(veils, b.entries());
    for (_, loc) in favs {
        kept.push(veil(&format!("fav:{loc}"), &loc));
    }
    kept
}

fn sync_recent(veils: &Vec<VeilRef>, r: &Recents) -> Vec<VeilRef> {
    let (mut kept, fresh) = plan_recent_veils(veils, r.entries());
    for (_, loc) in fresh {
        kept.push(veil(&format!("recent:{loc}"), &loc));
    }
    kept
}

fn starter() -> Vec<VeilRef> {
    vec![veil("front-door", FRONT_DOOR)]
}

#[test]
fn starring_and_unstarring_worlds_grows_and_prunes_the_veils() {
    let mut b = Bookmarks::new();
    b.add("The Forge", "thread://pixiel.ai/forge");
    b.add("The Grove", "thread://garden.pixygon.io/grove");
    b.add("Home itself", HOME_LOCATOR);
    b.add("Front door", FRONT_DOOR);
    let v = sync_favs(&starter(), &b);
    let favs: Vec<_> = v.iter().filter(|p| p.id.starts_with("fav:")).collect();
    assert_eq!(favs.len(), 2);
    assert!(favs.iter().any(|p| p.to == "thread://pixiel.ai/forge"));
    assert_eq!(v.iter().filter(|p| p.to == FRONT_DOOR).count(), 1);

    b.remove("thread://pixiel.ai/forge");
    let v = sync_favs(&v, &b);
    assert!(!v.iter().any(|p| p.to == "thread://pixiel.ai/forge"));
    assert!(v.iter().any(|p| p.to == FRONT_DOOR));
    assert_eq!(v.len(), 2);
}

#[test]
fn recent_walks_become_veils_and_never_double_a_fav() {
    let mut r = Recents::new();
    r.visit("The Weavery", "thread://weft.pixygon.io");
    r.visit("The Commons", "thread://commons.pixygon.io");
    r.visit("Front door", FRONT_DOOR);
    let v = sync_recent(&starter(), &r);
    assert_eq!(v.iter().filter(|p| p.id.starts_with("recent:")).count(), 2);
    assert_eq!(v.iter().filter(|p| p.to == FRONT_DOOR).count(), 1, "no doubles");

    // A world both starred and recent appears once (the star wins).
    let mut b = Bookmarks::new();
    b.add("The Commons", "thread://commons.pixygon.io");
    let v = sync_favs(&v, &b);
    let v = sync_recent(&v, &r);
    assert_eq!(
        v.iter().filter(|p| p.to == "thread://commons.pixygon.io").count(),
        1,
        "starred+recent world keeps a single veil"
    );
    assert!(v.iter().any(|p| p.id == "fav:thread://commons.pixygon.io"));
}

#[test]
fn recent_veils_are_capped_and_hand_authored_veils_survive() {
    let mut r = Recents::new();
    for i in 0..10 {
        r.visit(&format!("W{i}"), &format!("thread://w{i}.example"));
    }
    let mut veils = starter();
    veils.push(veil("authored", "thread://w9.example"));
    let v = sync_recent(&veils, &r);
    assert!(v.iter().any(|p| p.id == "authored"));
    let recents: Vec<_> = v.iter().filter(|p| p.id.starts_with("recent:")).collect();
    // w9 is already reachable by hand; the rest fill up to the cap.
    assert!(recents.iter().all(|p| p.to != "thread://w9.example"));
    assert!(recents.len() <= 6);
}
