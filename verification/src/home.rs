//! The home-space — the browser's `about:home`, a world the traveler owns. Its
//! Locator is `thread://home`, resolved to a local file and never the network.

use vstd::prelude::*;
use crate::assets::{join_path, path_join};
use crate::text::{push_str, chars_of, prefix_before_any, same_chars, before_any};

verus! {

/// The home-space's well-known Locator (the Thread's `localhost`).
pub const HOME_LOCATOR: &'static str = "thread://home";

/// The Thread's public front door — the home's one permanent veil.
pub const FRONT_DOOR: &'static str = "thread://pixygon.io";

/// Whether a Locator addresses the traveler's own home-space: `thread://home`
/// (the host `home` with an empty path), with or without a `#place` or
/// `@when` suffix.
pub open spec fn is_home_spec(locator: Seq<char>) -> bool {
    let base = before_any(locator, '#', '@');
    base == "thread://home"@ || base == "thread://home/"@
}

/// Whether a Locator addresses the traveler's own home-space. The resolver
/// uses this to keep home off the network; recents never record it.
pub fn is_home(locator: &str) -> (r: bool)
    ensures
        r == is_home_spec(locator@),
{
    let v = chars_of(locator);
    let base = prefix_before_any(&v, '#', '@');
    let a = chars_of("thread://home");
    let b = chars_of("thread://home/");
    same_chars(&base, &a) || same_chars(&base, &b)
}

/// The home world's manifest file within its directory.
pub fn world_path(dir: &str) -> (r: String)
    ensures
        r@ == path_join(dir@, "world.json"@),
{
    join_path(dir, "world.json")
}

/// The description the home world carries.
pub open spec fn home_description_spec() -> Seq<char> {
    "Your own corner of the Thread \u{2014} the place every session begins. Starred worlds gather as veils to the west, your recent walks to the east; the waystone searches everything, and build mode (F) grows the place block by block."@
}

pub fn home_description() -> (r: String)
    ensures
        r@ == home_description_spec(),
{
    let mut r = String::new();
    push_str(
        &mut r,
        "Your own corner of the Thread \u{2014} the place every session begins. Starred worlds gather as veils to the west, your recent walks to the east; the waystone searches everything, and build mode (F) grows the place block by block.",
    );
    r
}

} // verus!
