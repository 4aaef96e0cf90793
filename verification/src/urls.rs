//! URL joining (through the `url` parser that reqwest re-exports) and the small
//! locator / URL string helpers used across the engine.

use vstd::prelude::*;
use vstd::string::StringSliceAdditionalSpecFns;
use crate::text::{
    before_any, chars_of, extend_chars, hex, hex_digits, pad_zeros, prefix_before_any, push_str,
    string_of, string_of_all, trim_end_char, trim_end_matching, zero_pad,
};

verus! {

/// What `reqwest::Url::parse(base)` followed by `join(reference)` and
/// `to_string()` gives: the absolute URL text, or `None` when either step fails.
pub uninterp spec fn url_join(base: Seq<char>, reference: Seq<char>) -> Option<Seq<char>>;

/// Parses `base` with `reqwest::Url::parse`, resolves `reference` against it
/// with `Url::join` (RFC 3986 reference resolution as the `url` crate does it)
/// and renders the result with `to_string`. Nothing is claimed of the text
/// beyond its being a function of the two arguments.
#[verifier::external_body]
pub(crate) fn join_url(base: &str, reference: &str) -> (r: Option<String>)
    ensures
        r matches Some(s) ==> url_join(base@, reference@) == Some(s@),
        r is None ==> url_join(base@, reference@) is None,
{
    reqwest::Url::parse(base).ok()?.join(reference).ok().map(|u| u.to_string())
}

} // verus!

verus! {

/// Bytes left as they are by percent-encoding (RFC 3986 unreserved).
pub open spec fn unreserved(b: u8) -> bool {
    (65 <= b <= 90) || (97 <= b <= 122) || (48 <= b <= 57) || b == 45 || b == 95 || b == 46 || b
        == 126
}

/// `%XX` with two upper-case hex digits.
pub open spec fn pct(n: nat) -> Seq<char> {
    seq!['%'] + zero_pad(hex_digits(n, true), 2)
}

/// How one byte is written in a query value: unreserved bytes as themselves,
/// a space as `+` when `plus_space` is set, everything else as `%XX`.
pub open spec fn encode_byte(b: u8, plus_space: bool) -> Seq<char> {
    if unreserved(b) {
        seq![b as char]
    } else if plus_space && b == 32 {
        seq!['+']
    } else {
        pct(b as nat)
    }
}

/// Percent-encoding of a byte string.
pub open spec fn encode_bytes(bs: Seq<u8>, plus_space: bool) -> Seq<char>
    decreases bs.len(),
{
    if bs.len() == 0 {
        Seq::empty()
    } else {
        encode_bytes(bs.drop_last(), plus_space) + encode_byte(bs.last(), plus_space)
    }
}

fn encode_one(b: u8, plus_space: bool) -> (out: Vec<char>)
    ensures
        out@ == encode_byte(b, plus_space),
{
    if (65 <= b && b <= 90) || (97 <= b && b <= 122) || (48 <= b && b <= 57) || b == 45 || b == 95
        || b == 46 || b == 126 {
        vec![b as char]
    } else if plus_space && b == 32 {
        vec!['+']
    } else {
        let h = hex(b as u64, true);
        let p = pad_zeros(&h, 2);
        let mut out = vec!['%'];
        extend_chars(&mut out, &p, 0, p.len());
        assert(p@.subrange(0, p.len() as int) == p@);
        out
    }
}

/// Percent-encodes the UTF-8 bytes of `s`.
pub fn percent_encode(s: &str, plus_space: bool) -> (out: String)
    ensures
        out@ == encode_bytes(s.spec_bytes(), plus_space),
{
    let bytes = s.as_bytes();
    let mut out: Vec<char> = Vec::new();
    let mut i: usize = 0;
    while i < bytes.len()
        invariant
            i <= bytes@.len(),
            bytes@ == s.spec_bytes(),
            out@ == encode_bytes(bytes@.take(i as int), plus_space),
        decreases bytes@.len() - i,
    {
        let e = encode_one(bytes[i], plus_space);
        extend_chars(&mut out, &e, 0, e.len());
        assert(e@.subrange(0, e.len() as int) == e@);
        assert(bytes@.take(i + 1).drop_last() == bytes@.take(i as int));
        i += 1;
    }
    assert(bytes@.take(bytes@.len() as int) == bytes@);
    string_of_all(&out)
}

/// A Locator's base (`thread://host/path`): everything before the first `#` or
/// `@`, with trailing `/` removed.
pub open spec fn normalize_locator_spec(loc: Seq<char>) -> Seq<char> {
    trim_end_char(before_any(loc, '#', '@'), '/')
}

/// Strip a Locator to its base (`thread://host/path`) for comparison.
pub fn normalize_locator(loc: &str) -> (out: String)
    ensures
        out@ == normalize_locator_spec(loc@),
{
    let v = chars_of(loc);
    let p = prefix_before_any(&v, '#', '@');
    let t = trim_end_matching(&p, '/');
    string_of_all(&t)
}

/// The directory of a URL: everything up to and including its last `/`.
pub open spec fn dir_url_spec(url: Seq<char>) -> Option<Seq<char>> {
    if exists|i: int| 0 <= i < url.len() && url[i] == '/' {
        let i = choose|i: int|
            0 <= i < url.len() && url[i] == '/' && forall|j: int|
                i < j < url.len() ==> url[j] != '/';
        Some(url.take(i + 1))
    } else {
        None
    }
}

/// The directory URL of a manifest URL (everything up to and including the last `/`).
pub fn dir_url(manifest_url: &str) -> (r: Option<String>)
    ensures
        match r {
            Some(s) => dir_url_spec(manifest_url@) == Some(s@),
            None => dir_url_spec(manifest_url@) is None,
        },
{
    let v = chars_of(manifest_url);
    let mut j = v.len();
    while j > 0 && v[j - 1] != '/'
        invariant
            j <= v.len(),
            forall|k: int| j <= k < v.len() ==> v@[k] != '/',
        decreases j,
    {
        j -= 1;
    }
    if j == 0 {
        assert(!exists|i: int| 0 <= i < v@.len() && v@[i] == '/');
        return None;
    }
    let ghost last = (j - 1) as int;
    assert(0 <= last < v@.len() && v@[last] == '/' && forall|k: int|
        last < k < v@.len() ==> v@[k] != '/');
    let ghost chosen = choose|i: int|
        0 <= i < v@.len() && v@[i] == '/' && forall|k: int| i < k < v@.len() ==> v@[k] != '/';
    assert(chosen == last) by {
        if chosen < last {
        } else if chosen > last {
        }
    }
    Some(string_of(&v, 0, j))
}

/// `base` with trailing `/` removed, then `/codex/entities/`, then `slug`.
pub open spec fn entry_url_spec(base: Seq<char>, slug: Seq<char>) -> Seq<char> {
    trim_end_char(base, '/') + "/codex/entities/"@ + slug
}

/// Build the Codex read URL for a slug.
pub fn entry_url(base: &str, slug: &str) -> (r: String)
    ensures
        r@ == entry_url_spec(base@, slug@),
{
    let b = chars_of(base);
    let t = trim_end_matching(&b, '/');
    let mut r = string_of_all(&t);
    push_str(&mut r, "/codex/entities/");
    push_str(&mut r, slug);
    r
}

} // verus!
