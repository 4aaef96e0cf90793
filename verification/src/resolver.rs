//! Locator resolution support: the resolved-world record and the query
//! encoding used when asking a resolver about a Locator.

use vstd::prelude::*;
use vstd::string::StringSliceAdditionalSpecFns;
use crate::urls::{encode_bytes, percent_encode};
use crate::text::{chars_of, ends_with, has_suffix, push_all, push_str, trim_end_char, trim_end_matching, string_of};

verus! {

/// A resolved world: its manifest text + where its assets resolve.
pub struct TravelResult {
    pub manifest_text: String,
    /// Local base for relative asset URIs (a local `world.json` dir), or the cache
    /// dir for a hosted world.
    pub asset_base: String,
    /// Base URL for relative asset URIs when the world is hosted; `None` for a
    /// local world.
    pub asset_base_url: Option<String>,
}

/// Percent-encode a Locator for use as a query value (space as `%20`).
pub fn urlencode(s: &str) -> (out: String)
    ensures
        out@ == encode_bytes(s.spec_bytes(), false),
{
    percent_encode(s, false)
}

/// The resolver query for `locator` against resolver base `base`:
/// `<base without trailing slashes>/thread/resolve?loc=<locator, percent-encoded>`.
pub open spec fn resolve_url_spec(base: Seq<char>, locator: Seq<u8>) -> Seq<char> {
    trim_end_char(base, '/') + "/thread/resolve?loc="@ + encode_bytes(locator, false)
}

pub fn resolve_url(base: &str, locator: &str) -> (r: String)
    ensures
        r@ == resolve_url_spec(base@, locator.spec_bytes()),
{
    let b = trim_end_matching(&chars_of(base), '/');
    let mut r = String::new();
    push_all(&mut r, &b);
    push_str(&mut r, "/thread/resolve?loc=");
    let q = urlencode(locator);
    push_str(&mut r, q.as_str());
    r
}

/// `s` with every trailing copy of `p` removed (`str::trim_end_matches`).
pub open spec fn trim_end_all(s: Seq<char>, p: Seq<char>) -> Seq<char>
    decreases s.len(),
{
    if p.len() > 0 && has_suffix(s, p) {
        trim_end_all(s.take(s.len() - p.len()), p)
    } else {
        s
    }
}

/// Where a host serves its world as markup when it has no JSON manifest: the
/// manifest URL with its trailing `world.json` swapped for `world.thread`.
pub open spec fn markup_url_spec(manifest_url: Seq<char>) -> Seq<char> {
    trim_end_all(manifest_url, "world.json"@) + "world.thread"@
}

pub fn markup_url(manifest_url: &str) -> (r: String)
    ensures
        r@ == markup_url_spec(manifest_url@),
{
    let v = chars_of(manifest_url);
    let p = chars_of("world.json");
    proof {
        reveal_strlit("world.json");
    }
    let mut j: usize = v.len();
    assert(v@.take(j as int) =~= v@);
    loop
        invariant
            j <= v.len(),
            p@ == "world.json"@,
            p@.len() == 10,
            trim_end_all(v@, p@) == trim_end_all(v@.take(j as int), p@),
        ensures
            j <= v.len(),
            trim_end_all(v@, p@) == v@.take(j as int),
        decreases j,
    {
        let head = string_of(&v, 0, j);
        let hv = chars_of(head.as_str());
        if !ends_with(&hv, &p) {
            assert(hv@ =~= v@.take(j as int));
            break;
        }
        assert(v@.take(j as int).take(j - p.len()) =~= v@.take(j - p.len()));
        j = j - p.len();
    }
    let mut r = string_of(&v, 0, j);
    push_str(&mut r, "world.thread");
    r
}

} // verus!
