//! The `thread` command line's text work: world names to titles and slugs, and
//! the scaffold a new world starts from (its manifest, in JSON or markup, and
//! its README). Reading and writing files is the command line's own job.

use vstd::prelude::*;
use crate::text::{chars_of, ends_with, has_suffix, is_ascii_alnum, push_all, push_str, string_of_all, to_lowercase, to_uppercase, unicode_lower, unicode_upper, dec_digits, hex, hex_digits, pad_zeros, zero_pad};

verus! {

broadcast use vstd::string::group_string_axioms;

pub open spec fn is_title_sep(c: char) -> bool {
    c == '-' || c == '_' || c == ' '
}

/// Title-casing of `s[i..]`: the words between separators (`-`, `_`, space),
/// empty ones skipped, each with its first character upper-cased, joined by
/// single spaces. `in_word` says whether `s[i - 1]` belongs to a word, `wrote`
/// whether a word has been written already.
pub open spec fn titleize_from(s: Seq<char>, i: int, in_word: bool, wrote: bool) -> Seq<char>
    decreases s.len() - i,
{
    if i < 0 || i >= s.len() {
        Seq::empty()
    } else if is_title_sep(s[i]) {
        titleize_from(s, i + 1, false, wrote)
    } else if in_word {
        seq![s[i]] + titleize_from(s, i + 1, true, wrote)
    } else {
        (if wrote {
            " "@
        } else {
            Seq::empty()
        }) + unicode_upper(s[i]) + titleize_from(s, i + 1, true, true)
    }
}

/// `the-grand-hall` → `The Grand Hall`.
pub fn titleize(name: &str) -> (r: String)
    ensures
        r@ == titleize_from(name@, 0, false, false),
{
    let v = chars_of(name);
    let mut r = String::new();
    let mut in_word = false;
    let mut wrote = false;
    let mut i: usize = 0;
    while i < v.len()
        invariant
            i <= v.len(),
            v@ == name@,
            titleize_from(name@, 0, false, false) == r@ + titleize_from(name@, i as int, in_word, wrote),
        decreases v.len() - i,
    {
        let c = v[i];
        if c == '-' || c == '_' || c == ' ' {
            in_word = false;
        } else if in_word {
            crate::text::push_char(&mut r, c);
        } else {
            if wrote {
                push_str(&mut r, " ");
            }
            let u = to_uppercase(c);
            push_str(&mut r, u.as_str());
            in_word = true;
            wrote = true;
        }
        i += 1;
    }
    r
}

/// `s` with its first character upper-cased.
pub open spec fn title_case_spec(s: Seq<char>) -> Seq<char> {
    if s.len() == 0 {
        s
    } else {
        unicode_upper(s[0]) + s.drop_first()
    }
}

/// Upper-case the first character of `s`.
pub fn title_case(s: &str) -> (r: String)
    ensures
        r@ == title_case_spec(s@),
{
    let v = chars_of(s);
    if v.len() == 0 {
        return String::new();
    }
    let u = to_uppercase(v[0]);
    let mut r = String::new();
    push_str(&mut r, u.as_str());
    let mut rest: Vec<char> = Vec::new();
    crate::text::extend_chars(&mut rest, &v, 1, v.len());
    push_all(&mut r, &rest);
    assert(rest@ == v@.drop_first());
    r
}

/// Slug of `s[i..]` (already lower-cased): ASCII letters and digits kept, every
/// other character a separator; the pieces between separators, empty ones
/// skipped, joined by single `-`. `dash` says whether a separator has been seen
/// since the last kept character, `wrote` whether anything has been written.
pub open spec fn slug_from(s: Seq<char>, i: int, dash: bool, wrote: bool) -> Seq<char>
    decreases s.len() - i,
{
    if i < 0 || i >= s.len() {
        Seq::empty()
    } else if !is_ascii_alnum(s[i]) {
        slug_from(s, i + 1, true, wrote)
    } else {
        (if dash && wrote {
            "-"@
        } else {
            Seq::empty()
        }) + seq![s[i]] + slug_from(s, i + 1, false, true)
    }
}

/// The slug of a name: lower-cased (Unicode), then runs of anything but ASCII
/// letters and digits collapsed to single `-`, none at either end.
pub open spec fn slug_spec(name: Seq<char>) -> Seq<char> {
    slug_from(unicode_lower(name), 0, false, false)
}

/// `My Grand Hall!` → `my-grand-hall`.
pub fn slug(name: &str) -> (r: String)
    ensures
        r@ == slug_spec(name@),
{
    let low = to_lowercase(name);
    let v = chars_of(low.as_str());
    let mut r = String::new();
    let mut dash = false;
    let mut wrote = false;
    let mut i: usize = 0;
    while i < v.len()
        invariant
            i <= v.len(),
            slug_from(v@, 0, false, false) == r@ + slug_from(v@, i as int, dash, wrote),
        decreases v.len() - i,
    {
        let c = v[i];
        if !(('0' <= c && c <= '9') || ('a' <= c && c <= 'z') || ('A' <= c && c <= 'Z')) {
            dash = true;
        } else {
            if dash && wrote {
                push_str(&mut r, "-");
            }
            crate::text::push_char(&mut r, c);
            dash = false;
            wrote = true;
        }
        i += 1;
    }
    r
}

/// The file-name slug a built level is written under (the same rule as [`slug`]).
pub fn slug_name(name: &str) -> (r: String)
    ensures
        r@ == slug_spec(name@),
{
    slug(name)
}

/// How one character is written in a catalog query: ASCII letters, digits, `-`,
/// `_` and `.` as themselves, a space as `+`, anything else as `%` and its code
/// point in (at least two) upper-case hex digits.
pub open spec fn encode_char(c: char) -> Seq<char> {
    if is_ascii_alnum(c) || c == '-' || c == '_' || c == '.' {
        seq![c]
    } else if c == ' ' {
        "+"@
    } else {
        "%"@ + zero_pad(hex_digits((c as u32) as nat, true), 2)
    }
}

pub open spec fn encode_chars(s: Seq<char>) -> Seq<char>
    decreases s.len(),
{
    if s.len() == 0 {
        Seq::empty()
    } else {
        encode_chars(s.drop_last()) + encode_char(s.last())
    }
}

/// Percent-encode a catalog query, character by character.
pub fn urlencode(s: &str) -> (r: String)
    ensures
        r@ == encode_chars(s@),
{
    let v = chars_of(s);
    let mut r = String::new();
    let mut i: usize = 0;
    while i < v.len()
        invariant
            i <= v.len(),
            v@ == s@,
            r@ == encode_chars(v@.take(i as int)),
        decreases v.len() - i,
    {
        let c = v[i];
        assert(v@.take(i + 1).drop_last() == v@.take(i as int));
        if ('0' <= c && c <= '9') || ('a' <= c && c <= 'z') || ('A' <= c && c <= 'Z') || c == '-'
            || c == '_' || c == '.' {
            crate::text::push_char(&mut r, c);
        } else if c == ' ' {
            push_str(&mut r, "+");
        } else {
            push_str(&mut r, "%");
            let code: u32 = c as u32;
            let h = hex(code as u64, true);
            assert(code as u64 as nat == (c as u32) as nat);
            let p = pad_zeros(&h, 2);
            push_all(&mut r, &p);
        }
        i += 1;
    }
    assert(v@.take(v.len() as int) == v@);
    r
}

/// The `--markup` scaffold text: the starter place authored in Thread markup.
pub open spec fn template_world_markup_spec(id: Seq<char>, title: Seq<char>) -> Seq<char> {
    "<!-- "@
        + title
        + " \u{2014} a world on the Thread. This file IS the world:\n     browsers compile it on arrival. `thread validate` checks it. -->\n<world id=\""@
        + id
        + "\" title=\""@
        + title
        + "\" description=\"A world on the Thread. Edit me!\"\n       sky=\"0.05 0.06 0.12 / 0.18 0.16 0.24\">\n  <spawn at=\"0 0 8\" yaw=\"180\"/>\n\n  <plane class=\"floor\" at=\"0 0 0\" scale=\"24 1 24\"/>\n  <cube id=\"pedestal\" at=\"0 0.5 0\" scale=\"0.8 1 0.8\" codex=\"the-thread\"/>\n  <quad id=\"sign\" at=\"0 1.4 -6\" scale=\"5 2 0.2\"\n        url=\"https://example.com\" data-tagline=\"Your site, inside the Thread.\"/>\n\n  <portal to=\"thread://pixygon.io#entry\" at=\"-8 1.2 0\" scale=\"2 3 0.2\" label=\"The Nexus\"/>\n</world>\n<style>\n  .floor { color: 0.14 0.13 0.18; roughness: 0.9 }\n  #pedestal { color: 0.45 0.5 0.7; roughness: 0.5; metallic: 0.1 }\n  #sign { color: 0.2 0.25 0.35; roughness: 0.8 }\n</style>\n"@
}

/// The `--markup` scaffold — the same starter place as [`template_world`], but
/// authored in Thread markup (the "HTML" form).
pub fn template_world_markup(id: &str, title: &str) -> (r: String)
    ensures
        r@ == template_world_markup_spec(id@, title@),
{
    let mut r = String::new();
    push_str(&mut r, "<!-- ");
    push_str(&mut r, title);
    push_str(&mut r, " \u{2014} a world on the Thread. This file IS the world:\n     browsers compile it on arrival. `thread validate` checks it. -->\n<world id=\"");
    push_str(&mut r, id);
    push_str(&mut r, "\" title=\"");
    push_str(&mut r, title);
    push_str(&mut r, "\" description=\"A world on the Thread. Edit me!\"\n       sky=\"0.05 0.06 0.12 / 0.18 0.16 0.24\">\n  <spawn at=\"0 0 8\" yaw=\"180\"/>\n\n  <plane class=\"floor\" at=\"0 0 0\" scale=\"24 1 24\"/>\n  <cube id=\"pedestal\" at=\"0 0.5 0\" scale=\"0.8 1 0.8\" codex=\"the-thread\"/>\n  <quad id=\"sign\" at=\"0 1.4 -6\" scale=\"5 2 0.2\"\n        url=\"https://example.com\" data-tagline=\"Your site, inside the Thread.\"/>\n\n  <portal to=\"thread://pixygon.io#entry\" at=\"-8 1.2 0\" scale=\"2 3 0.2\" label=\"The Nexus\"/>\n</world>\n<style>\n  .floor { color: 0.14 0.13 0.18; roughness: 0.9 }\n  #pedestal { color: 0.45 0.5 0.7; roughness: 0.5; metallic: 0.1 }\n  #sign { color: 0.2 0.25 0.35; roughness: 0.8 }\n</style>\n");
    r
}

/// The JSON scaffold text: a starter World Manifest.
pub open spec fn template_world_spec(id: Seq<char>, title: Seq<char>) -> Seq<char> {
    "{\n  \"thread\": \"thread/0.1\",\n  \"world\": {\n    \"id\": \""@
        + id
        + "\",\n    \"title\": \""@
        + title
        + "\",\n    \"description\": \"A world on the Thread. Edit me!\",\n    \"author\": { \"id\": \"did:web:example.com\", \"name\": \"You\" },\n    \"license\": \"CC-BY-4.0\"\n  },\n  \"environment\": {\n    \"year\": 0,\n    \"sky\": { \"zenith\": [0.05, 0.06, 0.12], \"horizon\": [0.18, 0.16, 0.24], \"sun_dir\": [0.3, 0.7, 0.2] }\n  },\n  \"spawns\": [{ \"name\": \"entry\", \"position\": [0, 0, 8], \"yaw\": 3.14159 }],\n  \"prefabs\": [\n    { \"id\": \"60000001\", \"mesh\": { \"builtin\": \"plane\" }, \"material\": { \"base_color\": [0.14, 0.13, 0.18, 1], \"roughness\": 0.9 } },\n    { \"id\": \"60000002\", \"mesh\": { \"builtin\": \"cube\" }, \"material\": { \"base_color\": [0.45, 0.5, 0.7, 1], \"roughness\": 0.5, \"metallic\": 0.1 } },\n    { \"id\": \"60000003\", \"mesh\": { \"builtin\": \"quad\" }, \"material\": { \"base_color\": [0.2, 0.25, 0.35, 1], \"roughness\": 0.8 } }\n  ],\n  \"placements\": [\n    { \"prefab\": \"60000001\", \"name\": \"floor\", \"position\": [0, 0, 0], \"scale\": [24, 1, 24] },\n    { \"prefab\": \"60000002\", \"name\": \"pedestal\", \"position\": [0, 0.5, 0], \"scale\": [0.8, 1, 0.8], \"codex\": \"the-thread\", \"behavior\": \"codex-viewer\" },\n    { \"prefab\": \"60000003\", \"name\": \"signboard\", \"position\": [0, 1.4, -6], \"scale\": [5, 2, 0.2], \"behavior\": \"open-link\", \"data\": { \"kind\": \"signboard\", \"url\": \"https://example.com\", \"tagline\": \"Your site, inside the Thread.\" } }\n  ],\n  \"portals\": [\n    { \"id\": \"to-nexus\", \"position\": [-8, 1.2, 0], \"scale\": [2, 3, 0.2], \"to\": \"thread://pixygon.io#entry\", \"label\": \"The Nexus\", \"preview\": \"live\" }\n  ],\n  \"behaviors\": [\n    { \"id\": \"codex-viewer\", \"wasm\": \"codex-viewer-wasm\", \"on\": [\"interact\"] },\n    { \"id\": \"open-link\", \"wasm\": \"open-link-wasm\", \"on\": [\"interact\"] }\n  ],\n  \"assets\": [\n    { \"id\": \"codex-viewer-wasm\", \"uri\": \"behaviors/codex-viewer.wasm\", \"kind\": \"wasm\" },\n    { \"id\": \"open-link-wasm\", \"uri\": \"behaviors/open-link.wasm\", \"kind\": \"wasm\" }\n  ],\n  \"presence\": { \"relay\": null, \"max_occupants\": 32, \"voice\": true }\n}\n"@
}

/// The JSON scaffold: a starter World Manifest with a floor, a pedestal, a
/// signboard and a veil to the Nexus.
pub fn template_world(id: &str, title: &str) -> (r: String)
    ensures
        r@ == template_world_spec(id@, title@),
{
    let mut r = String::new();
    push_str(&mut r, "{\n  \"thread\": \"thread/0.1\",\n  \"world\": {\n    \"id\": \"");
    push_str(&mut r, id);
    push_str(&mut r, "\",\n    \"title\": \"");
    push_str(&mut r, title);
    push_str(&mut r, "\",\n    \"description\": \"A world on the Thread. Edit me!\",\n    \"author\": { \"id\": \"did:web:example.com\", \"name\": \"You\" },\n    \"license\": \"CC-BY-4.0\"\n  },\n  \"environment\": {\n    \"year\": 0,\n    \"sky\": { \"zenith\": [0.05, 0.06, 0.12], \"horizon\": [0.18, 0.16, 0.24], \"sun_dir\": [0.3, 0.7, 0.2] }\n  },\n  \"spawns\": [{ \"name\": \"entry\", \"position\": [0, 0, 8], \"yaw\": 3.14159 }],\n  \"prefabs\": [\n    { \"id\": \"60000001\", \"mesh\": { \"builtin\": \"plane\" }, \"material\": { \"base_color\": [0.14, 0.13, 0.18, 1], \"roughness\": 0.9 } },\n    { \"id\": \"60000002\", \"mesh\": { \"builtin\": \"cube\" }, \"material\": { \"base_color\": [0.45, 0.5, 0.7, 1], \"roughness\": 0.5, \"metallic\": 0.1 } },\n    { \"id\": \"60000003\", \"mesh\": { \"builtin\": \"quad\" }, \"material\": { \"base_color\": [0.2, 0.25, 0.35, 1], \"roughness\": 0.8 } }\n  ],\n  \"placements\": [\n    { \"prefab\": \"60000001\", \"name\": \"floor\", \"position\": [0, 0, 0], \"scale\": [24, 1, 24] },\n    { \"prefab\": \"60000002\", \"name\": \"pedestal\", \"position\": [0, 0.5, 0], \"scale\": [0.8, 1, 0.8], \"codex\": \"the-thread\", \"behavior\": \"codex-viewer\" },\n    { \"prefab\": \"60000003\", \"name\": \"signboard\", \"position\": [0, 1.4, -6], \"scale\": [5, 2, 0.2], \"behavior\": \"open-link\", \"data\": { \"kind\": \"signboard\", \"url\": \"https://example.com\", \"tagline\": \"Your site, inside the Thread.\" } }\n  ],\n  \"portals\": [\n    { \"id\": \"to-nexus\", \"position\": [-8, 1.2, 0], \"scale\": [2, 3, 0.2], \"to\": \"thread://pixygon.io#entry\", \"label\": \"The Nexus\", \"preview\": \"live\" }\n  ],\n  \"behaviors\": [\n    { \"id\": \"codex-viewer\", \"wasm\": \"codex-viewer-wasm\", \"on\": [\"interact\"] },\n    { \"id\": \"open-link\", \"wasm\": \"open-link-wasm\", \"on\": [\"interact\"] }\n  ],\n  \"assets\": [\n    { \"id\": \"codex-viewer-wasm\", \"uri\": \"behaviors/codex-viewer.wasm\", \"kind\": \"wasm\" },\n    { \"id\": \"open-link-wasm\", \"uri\": \"behaviors/open-link.wasm\", \"kind\": \"wasm\" }\n  ],\n  \"presence\": { \"relay\": null, \"max_occupants\": 32, \"voice\": true }\n}\n");
    r
}

/// The content type a world file is served with: `text/plain` for `.thread`
/// markup, `application/json` otherwise.
pub open spec fn readme_ctype(file: Seq<char>) -> Seq<char> {
    if has_suffix(file, ".thread"@) {
        "text/plain"@
    } else {
        "application/json"@
    }
}

/// The scaffold's README text.
pub open spec fn readme_spec(name: Seq<char>, title: Seq<char>, file: Seq<char>) -> Seq<char> {
    "# "@
        + title
        + "\n\nA world on the Thread.\n\n## Edit\n\nEdit `"@
        + file
        + "` (spec: World Manifest v0.1 / Thread Markup v0.1). `thread validate` checks it.\n\n## Preview\n\n```\nthread preview "@
        + file
        + "\n```\n\n## Publish\n\nPut this folder at `https://<yourdomain>/.well-known/thread/` on any static host\n(Netlify, S3, GitHub Pages, nginx\u{2026}). Serve `"@
        + file
        + "` with:\n- `Content-Type: "@
        + readme_ctype(file)
        + "`\n- `Access-Control-Allow-Origin: *`\n\nThen check it and share:\n\n```\nthread doctor <yourdomain>\n# \u{2192} walk  thread://<yourdomain>\n```\n\n_World id: `"@
        + name
        + "`._\n"@
}

/// The scaffold's README: how to edit, preview and publish the world.
pub fn readme(name: &str, title: &str, file: &str) -> (r: String)
    ensures
        r@ == readme_spec(name@, title@, file@),
{
    let fv = chars_of(file);
    let ext = chars_of(".thread");
    let ctype: &str = if ends_with(&fv, &ext) {
        "text/plain"
    } else {
        "application/json"
    };
    let mut r = String::new();
    push_str(&mut r, "# ");
    push_str(&mut r, title);
    push_str(&mut r, "\n\nA world on the Thread.\n\n## Edit\n\nEdit `");
    push_str(&mut r, file);
    push_str(&mut r, "` (spec: World Manifest v0.1 / Thread Markup v0.1). `thread validate` checks it.\n\n## Preview\n\n```\nthread preview ");
    push_str(&mut r, file);
    push_str(&mut r, "\n```\n\n## Publish\n\nPut this folder at `https://<yourdomain>/.well-known/thread/` on any static host\n(Netlify, S3, GitHub Pages, nginx\u{2026}). Serve `");
    push_str(&mut r, file);
    push_str(&mut r, "` with:\n- `Content-Type: ");
    push_str(&mut r, ctype);
    push_str(&mut r, "`\n- `Access-Control-Allow-Origin: *`\n\nThen check it and share:\n\n```\nthread doctor <yourdomain>\n# \u{2192} walk  thread://<yourdomain>\n```\n\n_World id: `");
    push_str(&mut r, name);
    push_str(&mut r, "`._\n");
    r
}

/// `s` with every leading copy of `p` removed (`str::trim_start_matches`).
pub open spec fn trim_start_all(s: Seq<char>, p: Seq<char>) -> Seq<char>
    decreases s.len(),
{
    if p.len() > 0 && crate::text::has_prefix(s, p) {
        trim_start_all(s.skip(p.len() as int), p)
    } else {
        s
    }
}

/// A doctor target that is not a Locator, split into host and path: its
/// `https://` and `http://` prefixes and trailing slashes dropped, then cut at
/// the first `/` (no path when there is none).
pub open spec fn split_plain_spec(target: Seq<char>) -> (Seq<char>, Seq<char>) {
    let t = crate::text::trim_end_char(trim_start_all(trim_start_all(target, "https://"@), "http://"@), '/');
    match crate::text::find_char_from(t, '/', 0) {
        Some(i) => (t.take(i), t.skip(i + 1)),
        None => (t, Seq::empty()),
    }
}

fn strip_all_prefix(v: Vec<char>, p: &str) -> (r: Vec<char>)
    ensures
        r@ == trim_start_all(v@, p@),
{
    let pv = chars_of(p);
    let mut cur = v;
    let ghost start = cur@;
    loop
        invariant
            pv@ == p@,
            start == v@,
            trim_start_all(start, p@) == trim_start_all(cur@, p@),
        ensures
            cur@ == trim_start_all(start, p@),
        decreases cur.len(),
    {
        if pv.len() == 0 || !crate::text::starts_with(&cur, &pv) {
            return cur;
        }
        let mut rest: Vec<char> = Vec::new();
        crate::text::extend_chars(&mut rest, &cur, pv.len(), cur.len());
        assert(rest@ =~= cur@.skip(pv.len() as int));
        cur = rest;
    }
}

/// Split a plain doctor target into `(host, path)`.
pub fn split_plain_target(target: &str) -> (r: (String, String))
    ensures
        (r.0@, r.1@) == split_plain_spec(target@),
{
    let v = chars_of(target);
    let a = strip_all_prefix(v, "https://");
    let b = strip_all_prefix(a, "http://");
    let t = crate::text::trim_end_matching(&b, '/');
    match crate::text::find_char(&t, '/', 0) {
        Some(i) => {
            proof {
                crate::text::lemma_find_char_from_bounds(t@, '/', 0);
            }
            (crate::text::string_of(&t, 0, i), crate::text::string_of(&t, i + 1, t.len()))
        },
        None => (string_of_all(&t), String::new()),
    }
}

} // verus!
