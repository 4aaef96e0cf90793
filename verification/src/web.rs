//! In-world web reader — the old web, inside the Thread.
//!
//! Pages are rendered to a reader view (title + readable text + followable
//! links). The extraction is dependency-free HTML processing over characters;
//! the page fetch itself happens outside the library, which hands each result
//! to [`WebReader::poll`].

use vstd::prelude::*;
use crate::urls::{join_url, url_join};
use crate::fetch::{Delivery, opt_text};
use vstd::string::StrSliceExecFns;
use crate::text::{
    chars_of, find, find_char, find_char_from, find_from, has_prefix, is_ws, is_whitespace,
    lemma_find_char_from_bounds, lemma_find_from_bounds, lower_all, lower_seq, match_at,
    parse_u32, parse_u32_chars, push_char, string_of, string_of_all, extend_chars, trim,
    trimmed, utf8_len, lemma_trim_idempotent,
};

verus! {

broadcast use vstd::string::group_string_axioms;

// ---------------------------------------------------------------------------
// Entities
// ---------------------------------------------------------------------------

/// The character with code point `u`, if `u` is a Unicode scalar value (`char::from_u32`).
pub open spec fn scalar(u: u32) -> Option<char> {
    if u < 0xD800 || (0xE000 <= u && u < 0x110000) {
        Some(u as char)
    } else {
        None
    }
}

/// What an entity body (the text between `&` and `;`) decodes to.
pub open spec fn entity_char(ent: Seq<char>) -> Option<char> {
    if ent == "amp"@ {
        Some('&')
    } else if ent == "lt"@ {
        Some('<')
    } else if ent == "gt"@ {
        Some('>')
    } else if ent == "quot"@ {
        Some('"')
    } else if ent == "apos"@ || ent == "#39"@ {
        Some('\'')
    } else if ent == "nbsp"@ {
        Some(' ')
    } else if ent == "mdash"@ || ent == "#8212"@ {
        Some('\u{2014}')
    } else if ent == "ndash"@ || ent == "#8211"@ {
        Some('\u{2013}')
    } else if ent == "hellip"@ || ent == "#8230"@ {
        Some('\u{2026}')
    } else if ent == "rsquo"@ || ent == "#8217"@ {
        Some('\u{2019}')
    } else if ent == "lsquo"@ || ent == "#8216"@ {
        Some('\u{2018}')
    } else if ent == "ldquo"@ || ent == "#8220"@ {
        Some('\u{201C}')
    } else if ent == "rdquo"@ || ent == "#8221"@ {
        Some('\u{201D}')
    } else if ent.len() > 0 && ent[0] == '#' {
        match parse_u32(ent.drop_first()) {
            Some(n) => scalar(n),
            None => None,
        }
    } else {
        None
    }
}

/// Index (within `rest`, which starts at an `&`) of the first `;` that lies in
/// the first twelve bytes of `rest`; `off` is the byte offset of `rest[j]`.
pub open spec fn semi_in_window(rest: Seq<char>, j: int, off: int) -> Option<int>
    decreases rest.len() - j,
{
    if j < 0 || j >= rest.len() || off >= 12 {
        None
    } else if rest[j] == ';' {
        Some(j)
    } else {
        semi_in_window(rest, j + 1, off + utf8_len(rest[j]))
    }
}

/// The first twelve bytes of `rest` end on a character boundary (or `rest` is
/// shorter than that) — the decoder slices its window there.
pub open spec fn window_on_boundary(rest: Seq<char>, j: int, off: int) -> bool
    decreases rest.len() - j,
{
    if off >= 12 {
        off == 12
    } else if j < 0 || j >= rest.len() {
        true
    } else {
        window_on_boundary(rest, j + 1, off + utf8_len(rest[j]))
    }
}

/// Entity decoding of `s[i..]`: each `&name;` (or `&#n;`) whose `;` lies within
/// twelve bytes of the `&` and whose name is known becomes its character;
/// everything else is kept as it is.
pub open spec fn decode_from(s: Seq<char>, i: int) -> Seq<char>
    decreases s.len() - i,
{
    if i < 0 || i >= s.len() {
        Seq::empty()
    } else if s[i] != '&' {
        seq![s[i]] + decode_from(s, i + 1)
    } else {
        let rest = s.subrange(i, s.len() as int);
        proof {
            lemma_semi_in_window_bounds(rest, 0, 0);
        }
        match semi_in_window(rest, 0, 0) {
            Some(k) => match entity_char(rest.subrange(1, k)) {
                Some(d) => seq![d] + decode_from(s, i + k + 1),
                None => seq!['&'] + decode_from(s, i + 1),
            },
            None => seq!['&'] + decode_from(s, i + 1),
        }
    }
}

/// The decoder never slices inside a character on `s[i..]`.
pub open spec fn decode_ok_from(s: Seq<char>, i: int) -> bool
    decreases s.len() - i,
{
    if i < 0 || i >= s.len() {
        true
    } else if s[i] != '&' {
        decode_ok_from(s, i + 1)
    } else {
        let rest = s.subrange(i, s.len() as int);
        proof {
            lemma_semi_in_window_bounds(rest, 0, 0);
        }
        window_on_boundary(rest, 0, 0) && match semi_in_window(rest, 0, 0) {
            Some(k) => match entity_char(rest.subrange(1, k)) {
                Some(d) => decode_ok_from(s, i + k + 1),
                None => decode_ok_from(s, i + 1),
            },
            None => decode_ok_from(s, i + 1),
        }
    }
}

pub open spec fn decode_spec(s: Seq<char>) -> Seq<char> {
    decode_from(s, 0)
}

/// `s` can be entity-decoded without slicing inside a character.
pub open spec fn decode_ok(s: Seq<char>) -> bool {
    decode_ok_from(s, 0)
}

pub proof fn lemma_semi_in_window_bounds(rest: Seq<char>, j: int, off: int)
    ensures
        semi_in_window(rest, j, off) matches Some(k) ==> j <= k < rest.len() && rest[k] == ';'
            && (forall|m: int| j <= m < k ==> rest[m] != ';'),
    decreases rest.len() - j,
{
    if j < 0 || j >= rest.len() || off >= 12 {
    } else if rest[j] == ';' {
    } else {
        lemma_semi_in_window_bounds(rest, j + 1, off + utf8_len(rest[j]));
    }
}

fn utf8_width(c: char) -> (r: usize)
    ensures
        r == utf8_len(c),
{
    let u = c as u32;
    if u < 0x80 {
        1
    } else if u < 0x800 {
        2
    } else if u < 0x10000 {
        3
    } else {
        4
    }
}

/// The `;` of an entity starting at `s[i] == '&'`, if it lies in the window.
fn window_semi(s: &Vec<char>, i: usize) -> (r: Option<usize>)
    requires
        i < s.len(),
    ensures
        r matches Some(k) ==> semi_in_window(s@.subrange(i as int, s.len() as int), 0, 0) == Some(
            k as int,
        ),
        r is None ==> semi_in_window(s@.subrange(i as int, s.len() as int), 0, 0) is None,
{
    let ghost rest = s@.subrange(i as int, s.len() as int);
    let mut j: usize = 0;
    let mut off: usize = 0;
    while i + j < s.len() && off < 12
        invariant
            i < s.len(),
            i + j <= s.len(),
            off <= 12 + 4,
            rest == s@.subrange(i as int, s.len() as int),
            semi_in_window(rest, 0, 0) == semi_in_window(rest, j as int, off as int),
        decreases s.len() - i - j,
    {
        assert(rest[j as int] == s[(i + j) as int]);
        if s[i + j] == ';' {
            return Some(j);
        }
        off = off + utf8_width(s[i + j]);
        j += 1;
    }
    None
}

/// Whether `v[lo..hi]` spells `p`.
fn span_is(v: &Vec<char>, lo: usize, hi: usize, p: &str) -> (r: bool)
    requires
        lo <= hi <= v.len(),
    ensures
        r == (v@.subrange(lo as int, hi as int) == p@),
{
    let pv = chars_of(p);
    if hi - lo != pv.len() {
        return false;
    }
    let r = match_at(v, lo, &pv);
    r
}

/// The character an entity body `v[lo..hi]` decodes to.
fn entity_at(v: &Vec<char>, lo: usize, hi: usize) -> (r: Option<char>)
    requires
        lo <= hi <= v.len(),
    ensures
        r == entity_char(v@.subrange(lo as int, hi as int)),
{
    let ghost ent = v@.subrange(lo as int, hi as int);
    if span_is(v, lo, hi, "amp") {
        Some('&')
    } else if span_is(v, lo, hi, "lt") {
        Some('<')
    } else if span_is(v, lo, hi, "gt") {
        Some('>')
    } else if span_is(v, lo, hi, "quot") {
        Some('"')
    } else if span_is(v, lo, hi, "apos") || span_is(v, lo, hi, "#39") {
        Some('\'')
    } else if span_is(v, lo, hi, "nbsp") {
        Some(' ')
    } else if span_is(v, lo, hi, "mdash") || span_is(v, lo, hi, "#8212") {
        Some('\u{2014}')
    } else if span_is(v, lo, hi, "ndash") || span_is(v, lo, hi, "#8211") {
        Some('\u{2013}')
    } else if span_is(v, lo, hi, "hellip") || span_is(v, lo, hi, "#8230") {
        Some('\u{2026}')
    } else if span_is(v, lo, hi, "rsquo") || span_is(v, lo, hi, "#8217") {
        Some('\u{2019}')
    } else if span_is(v, lo, hi, "lsquo") || span_is(v, lo, hi, "#8216") {
        Some('\u{2018}')
    } else if span_is(v, lo, hi, "ldquo") || span_is(v, lo, hi, "#8220") {
        Some('\u{201C}')
    } else if span_is(v, lo, hi, "rdquo") || span_is(v, lo, hi, "#8221") {
        Some('\u{201D}')
    } else if hi > lo && v[lo] == '#' {
        let mut num: Vec<char> = Vec::new();
        extend_chars(&mut num, v, lo + 1, hi);
        assert(num@ == ent.drop_first());
        match parse_u32_chars(&num) {
            Some(n) => char::from_u32(n),
            None => None,
        }
    } else {
        None
    }
}

/// Entity decoding over characters (see [`decode_from`]).
fn decode_chars(s: &Vec<char>) -> (out: Vec<char>)
    requires
        decode_ok(s@),
    ensures
        out@ == decode_spec(s@),
{
    let mut out: Vec<char> = Vec::new();
    let mut i: usize = 0;
    while i < s.len()
        invariant
            i <= s.len(),
            decode_ok_from(s@, i as int),
            decode_spec(s@) == out@ + decode_from(s@, i as int),
        decreases s.len() - i,
    {
        let c = s[i];
        if c != '&' {
            out.push(c);
            i += 1;
            continue;
        }
        let ghost rest = s@.subrange(i as int, s.len() as int);
        match window_semi(s, i) {
            Some(k) => {
                proof {
                    lemma_semi_in_window_bounds(rest, 0, 0);
                }
                assert(rest.subrange(1, k as int) == s@.subrange(i + 1, i + k));
                match entity_at(s, i + 1, i + k) {
                    Some(d) => {
                        out.push(d);
                        i = i + k + 1;
                    },
                    None => {
                        out.push('&');
                        i += 1;
                    },
                }
            },
            None => {
                out.push('&');
                i += 1;
            },
        }
    }
    out
}

/// Whether the first twelve bytes of `s[i..]` end on a character boundary.
fn window_ends_on_boundary(s: &Vec<char>, i: usize) -> (r: bool)
    requires
        i < s.len(),
    ensures
        r == window_on_boundary(s@.subrange(i as int, s.len() as int), 0, 0),
{
    let ghost rest = s@.subrange(i as int, s.len() as int);
    let mut j: usize = 0;
    let mut off: usize = 0;
    while off < 12 && i + j < s.len()
        invariant
            i < s.len(),
            i + j <= s.len(),
            off <= 12 + 4,
            rest == s@.subrange(i as int, s.len() as int),
            window_on_boundary(rest, 0, 0) == window_on_boundary(rest, j as int, off as int),
        decreases s.len() - i - j,
    {
        assert(rest[j as int] == s[(i + j) as int]);
        off = off + utf8_width(s[i + j]);
        j += 1;
    }
    off < 12 || off == 12
}

/// Whether `s` can be entity-decoded (see [`decode_ok`]).
fn decodable_chars(s: &Vec<char>) -> (r: bool)
    ensures
        r == decode_ok(s@),
{
    let mut i: usize = 0;
    while i < s.len()
        invariant
            i <= s.len(),
            decode_ok(s@) == decode_ok_from(s@, i as int),
        decreases s.len() - i,
    {
        if s[i] != '&' {
            i += 1;
            continue;
        }
        let ghost rest = s@.subrange(i as int, s.len() as int);
        if !window_ends_on_boundary(s, i) {
            return false;
        }
        match window_semi(s, i) {
            Some(k) => {
                proof {
                    lemma_semi_in_window_bounds(rest, 0, 0);
                }
                assert(rest.subrange(1, k as int) == s@.subrange(i + 1, i + k));
                match entity_at(s, i + 1, i + k) {
                    Some(_) => {
                        i = i + k + 1;
                    },
                    None => {
                        i += 1;
                    },
                }
            },
            None => {
                i += 1;
            },
        }
    }
    true
}

/// Whether [`decode_entities`] can work on `s` without slicing inside a
/// character (its precondition).
pub fn decodable(s: &str) -> (r: bool)
    ensures
        r == decode_ok(s@),
{
    decodable_chars(&chars_of(s))
}

/// Decode the common HTML entities (named + numeric).
pub fn decode_entities(s: &str) -> (out: String)
    requires
        decode_ok(s@),
    ensures
        out@ == decode_spec(s@),
{
    let v = chars_of(s);
    let d = decode_chars(&v);
    string_of_all(&d)
}

} // verus!

verus! {

// ---------------------------------------------------------------------------
// Script / style / comment removal
// ---------------------------------------------------------------------------

/// Where a block that opens at the start of `rest` ends: just past the first
/// `close`, or the end of `rest` when it is never closed. `None` when `rest`
/// does not start with `open`.
pub open spec fn block_end_spec(rest: Seq<char>, open: Seq<char>, close: Seq<char>) -> Option<int> {
    if has_prefix(rest, open) {
        Some(
            match find_from(rest, close, 0) {
                Some(e) => e + close.len(),
                None => rest.len() as int,
            },
        )
    } else {
        None
    }
}

pub open spec fn comment_end_spec(rest: Seq<char>) -> Option<int> {
    block_end_spec(rest, "<!--"@, "-->"@)
}

/// How far a removable block (script, style or comment) starting at the head of
/// the lower-cased `rest` extends.
pub open spec fn removable_block(rest: Seq<char>) -> Option<int> {
    match block_end_spec(rest, "<script"@, "</script>"@) {
        Some(e) => Some(e),
        None => match block_end_spec(rest, "<style"@, "</style>"@) {
            Some(e) => Some(e),
            None => comment_end_spec(rest),
        },
    }
}

pub proof fn lemma_block_end_positive(rest: Seq<char>, open: Seq<char>, close: Seq<char>)
    requires
        open.len() >= 1,
        close.len() >= 1,
    ensures
        block_end_spec(rest, open, close) matches Some(e) ==> 1 <= e <= rest.len(),
{
    lemma_find_from_bounds(rest, close, 0);
}

pub proof fn lemma_removable_block_positive(rest: Seq<char>)
    ensures
        removable_block(rest) matches Some(e) ==> 1 <= e <= rest.len(),
{
    reveal_strlit("<script");
    reveal_strlit("</script>");
    reveal_strlit("<style");
    reveal_strlit("</style>");
    reveal_strlit("<!--");
    reveal_strlit("-->");
    lemma_block_end_positive(rest, "<script"@, "</script>"@);
    lemma_block_end_positive(rest, "<style"@, "</style>"@);
    lemma_block_end_positive(rest, "<!--"@, "-->"@);
}

/// `html[i..]` with every `<script>…</script>`, `<style>…</style>` and
/// `<!--…-->` block removed (tags matched case-insensitively; an unclosed block
/// runs to the end).
pub open spec fn remove_blocks_from(html: Seq<char>, i: int) -> Seq<char>
    decreases html.len() - i,
{
    if i < 0 || i >= html.len() {
        Seq::empty()
    } else {
        let rest = lower_seq(html).subrange(i, html.len() as int);
        proof {
            lemma_removable_block_positive(rest);
        }
        match removable_block(rest) {
            Some(e) => remove_blocks_from(html, i + e),
            None => seq![html[i]] + remove_blocks_from(html, i + 1),
        }
    }
}

pub open spec fn remove_blocks_spec(html: Seq<char>) -> Seq<char> {
    remove_blocks_from(html, 0)
}

fn block_end(lower: &Vec<char>, i: usize, open: &str, close: &str) -> (r: Option<usize>)
    requires
        i <= lower.len(),
    ensures
        r matches Some(e) ==> block_end_spec(lower@.subrange(i as int, lower.len() as int), open@, close@)
            == Some(e as int),
        r is None ==> block_end_spec(lower@.subrange(i as int, lower.len() as int), open@, close@) is None,
{
    let ghost rest = lower@.subrange(i as int, lower.len() as int);
    let o = chars_of(open);
    if !match_at(lower, i, &o) {
        assert(!has_prefix(rest, open@)) by {
            if has_prefix(rest, open@) {
                assert(lower@.subrange(i as int, i + o.len()) == rest.subrange(0, o.len() as int));
            }
        }
        return None;
    }
    assert(has_prefix(rest, open@)) by {
        assert(lower@.subrange(i as int, i + o.len()) == rest.subrange(0, o.len() as int));
    }
    let c = chars_of(close);
    let mut tail: Vec<char> = Vec::new();
    extend_chars(&mut tail, lower, i, lower.len());
    match find(&tail, &c, 0) {
        Some(e) => {
            proof {
                lemma_find_from_bounds(rest, close@, 0);
            }
            Some(e + c.len())
        },
        None => Some(lower.len() - i),
    }
}

fn comment_end(lower: &Vec<char>, i: usize) -> (r: Option<usize>)
    requires
        i <= lower.len(),
    ensures
        r matches Some(e) ==> comment_end_spec(lower@.subrange(i as int, lower.len() as int)) == Some(e as int),
        r is None ==> comment_end_spec(lower@.subrange(i as int, lower.len() as int)) is None,
{
    block_end(lower, i, "<!--", "-->")
}

/// Strip `<script>`, `<style>` and comments (with their contents).
fn remove_blocks(html: &Vec<char>) -> (out: Vec<char>)
    ensures
        out@ == remove_blocks_spec(html@),
{
    let lower = lower_all(html);
    let mut out: Vec<char> = Vec::new();
    let mut i: usize = 0;
    while i < html.len()
        invariant
            i <= html.len(),
            lower@ == lower_seq(html@),
            lower.len() == html.len(),
            remove_blocks_spec(html@) == out@ + remove_blocks_from(html@, i as int),
        decreases html.len() - i,
    {
        let ghost rest = lower_seq(html@).subrange(i as int, html.len() as int);
        proof {
            lemma_removable_block_positive(rest);
        }
        let skip = match block_end(&lower, i, "<script", "</script>") {
            Some(e) => Some(e),
            None => match block_end(&lower, i, "<style", "</style>") {
                Some(e) => Some(e),
                None => comment_end(&lower, i),
            },
        };
        match skip {
            Some(e) => {
                i += e;
            },
            None => {
                out.push(html[i]);
                i += 1;
            },
        }
    }
    out
}

} // verus!

verus! {

// ---------------------------------------------------------------------------
// Tags to text
// ---------------------------------------------------------------------------

/// A (lower-cased) tag that ends a line of text.
pub open spec fn break_tag(tag: Seq<char>) -> bool {
    has_prefix(tag, "</p"@) || has_prefix(tag, "<br"@) || has_prefix(tag, "</div"@) || has_prefix(
        tag,
        "</h1"@,
    ) || has_prefix(tag, "</h2"@) || has_prefix(tag, "</h3"@) || has_prefix(tag, "</h4"@)
        || has_prefix(tag, "</li"@) || has_prefix(tag, "</tr"@) || has_prefix(tag, "</section"@)
        || has_prefix(tag, "</article"@) || has_prefix(tag, "</header"@) || has_prefix(
        tag,
        "</footer"@,
    )
}

/// Where a tag opening at `h[i] == '<'` ends (just past its `>`, or the end).
pub open spec fn tag_end(h: Seq<char>, i: int) -> int {
    match find_char_from(h, '>', i) {
        Some(e) => e + 1,
        None => h.len() as int,
    }
}

/// `h[i..]` with every tag replaced by a line break (break tags) or a space.
pub open spec fn strip_tags_from(h: Seq<char>, i: int) -> Seq<char>
    decreases h.len() - i,
{
    if i < 0 || i >= h.len() {
        Seq::empty()
    } else if h[i] == '<' {
        let end = tag_end(h, i);
        proof {
            lemma_find_char_from_bounds(h, '>', i);
        }
        let sep = if break_tag(lower_seq(h.subrange(i, end))) {
            '\n'
        } else {
            ' '
        };
        seq![sep] + strip_tags_from(h, end)
    } else {
        seq![h[i]] + strip_tags_from(h, i + 1)
    }
}

pub open spec fn strip_tags(h: Seq<char>) -> Seq<char> {
    strip_tags_from(h, 0)
}

proof fn lemma_find_char_first(s: Seq<char>, c: char, i: int, j: int)
    requires
        0 <= i <= j < s.len(),
        s[j] == c,
        forall|k: int| i <= k < j ==> s[k] != c,
    ensures
        find_char_from(s, c, i) == Some(j),
    decreases j - i,
{
    if i < j {
        lemma_find_char_first(s, c, i + 1, j);
    }
}

/// A run without `<` passes through tag stripping unchanged.
proof fn lemma_strip_plain_run(s: Seq<char>, i: int, j: int)
    requires
        0 <= i <= j <= s.len(),
        forall|k: int| i <= k < j ==> s[k] != '<',
    ensures
        strip_tags_from(s, i) == s.subrange(i, j) + strip_tags_from(s, j),
    decreases j - i,
{
    if i < j {
        lemma_strip_plain_run(s, i + 1, j);
        assert(s.subrange(i, j) =~= seq![s[i]] + s.subrange(i + 1, j));
    } else {
        assert(s.subrange(i, j) =~= Seq::<char>::empty());
    }
}

/// A tag between two runs of text becomes one separator between them: a line
/// break for a break tag (`</p>`, `<br>`, `</div>`, `</h1>`..`</h4>`, `</li>`,
/// `</tr>`, ...), a space for any other tag. So `<p>One</p><p>Two</p>` reads as
/// two lines.
pub proof fn lemma_tag_between_runs(a: Seq<char>, tag: Seq<char>, b: Seq<char>)
    requires
        forall|k: int| 0 <= k < a.len() ==> a[k] != '<',
        forall|k: int| 0 <= k < b.len() ==> b[k] != '<',
        tag.len() >= 2,
        tag[0] == '<',
        tag.last() == '>',
        forall|k: int| 0 <= k < tag.len() - 1 ==> tag[k] != '>',
    ensures
        strip_tags(a + tag + b) == a + seq![if break_tag(lower_seq(tag)) { '\n' } else { ' ' }] + b,
        break_tag(lower_seq(tag)) ==> strip_tags(a + tag + b) == a + seq!['\n'] + b,
{
    let s = a + tag + b;
    let n = a.len() as int;
    let e = n + tag.len();
    assert forall|k: int| 0 <= k < n implies s[k] != '<' by {
        assert(s[k] == a[k]);
    }
    lemma_strip_plain_run(s, 0, n);
    assert(s[n] == '<');
    assert forall|k: int| n <= k < e - 1 implies s[k] != '>' by {
        assert(s[k] == tag[k - n]);
    }
    assert(s[e - 1] == tag.last());
    lemma_find_char_first(s, '>', n, e - 1);
    assert(tag_end(s, n) == e);
    assert(s.subrange(n, e) =~= tag);
    assert forall|k: int| e <= k < s.len() implies s[k] != '<' by {
        assert(s[k] == b[k - e]);
    }
    lemma_strip_plain_run(s, e, s.len() as int);
    assert(strip_tags_from(s, s.len() as int) =~= Seq::<char>::empty());
    assert(s.subrange(0, n) =~= a);
    assert(s.subrange(e, s.len() as int) =~= b);
    let sep = if break_tag(lower_seq(tag)) { '\n' } else { ' ' };
    assert(strip_tags_from(s, n) == seq![sep] + strip_tags_from(s, e));
    assert(strip_tags(s) =~= a + seq![sep] + b);
}

/// Closing a paragraph or breaking a line ends the line: `</p>` and `<br>`
/// between two runs of text read as a line break.
pub proof fn lemma_paragraphs_end_lines(a: Seq<char>, b: Seq<char>)
    requires
        forall|k: int| 0 <= k < a.len() ==> a[k] != '<',
        forall|k: int| 0 <= k < b.len() ==> b[k] != '<',
    ensures
        strip_tags(a + "</p>"@ + b) == a + seq!['\n'] + b,
        strip_tags(a + "<br>"@ + b) == a + seq!['\n'] + b,
{
    reveal_strlit("</p>");
    reveal_strlit("<br>");
    reveal_strlit("</p");
    reveal_strlit("<br");
    let p = "</p>"@;
    let r = "<br>"@;
    assert(lower_seq(p) =~= p);
    assert(lower_seq(r) =~= r);
    assert(has_prefix(p, "</p"@)) by {
        assert(p.subrange(0, 3) =~= "</p"@);
    }
    assert(has_prefix(r, "<br"@)) by {
        assert(r.subrange(0, 3) =~= "<br"@);
    }
    lemma_tag_between_runs(a, p, b);
    lemma_tag_between_runs(a, r, b);
}

fn is_break_tag(tag: &Vec<char>) -> (r: bool)
    ensures
        r == break_tag(tag@),
{
    let pats: [&str; 13] = [
        "</p",
        "<br",
        "</div",
        "</h1",
        "</h2",
        "</h3",
        "</h4",
        "</li",
        "</tr",
        "</section",
        "</article",
        "</header",
        "</footer",
    ];
    let mut k: usize = 0;
    while k < 13
        invariant
            k <= 13,
            pats@ == seq![
                "</p",
                "<br",
                "</div",
                "</h1",
                "</h2",
                "</h3",
                "</h4",
                "</li",
                "</tr",
                "</section",
                "</article",
                "</header",
                "</footer",
            ],
            forall|j: int| 0 <= j < k ==> !has_prefix(tag@, #[trigger] pats@[j]@),
        decreases 13 - k,
    {
        let p = chars_of(pats[k]);
        if match_at(tag, 0, &p) {
            return true;
        }
        k += 1;
    }
    assert(!has_prefix(tag@, pats@[0]@));
    assert(!has_prefix(tag@, pats@[1]@));
    assert(!has_prefix(tag@, pats@[2]@));
    assert(!has_prefix(tag@, pats@[3]@));
    assert(!has_prefix(tag@, pats@[4]@));
    assert(!has_prefix(tag@, pats@[5]@));
    assert(!has_prefix(tag@, pats@[6]@));
    assert(!has_prefix(tag@, pats@[7]@));
    assert(!has_prefix(tag@, pats@[8]@));
    assert(!has_prefix(tag@, pats@[9]@));
    assert(!has_prefix(tag@, pats@[10]@));
    assert(!has_prefix(tag@, pats@[11]@));
    assert(!has_prefix(tag@, pats@[12]@));
    false
}

fn strip_tags_chars(h: &Vec<char>) -> (out: Vec<char>)
    ensures
        out@ == strip_tags(h@),
{
    let mut out: Vec<char> = Vec::new();
    let mut i: usize = 0;
    while i < h.len()
        invariant
            i <= h.len(),
            strip_tags(h@) == out@ + strip_tags_from(h@, i as int),
        decreases h.len() - i,
    {
        if h[i] == '<' {
            proof {
                lemma_find_char_from_bounds(h@, '>', i as int);
            }
            let end = match find_char(h, '>', i) {
                Some(e) => e + 1,
                None => h.len(),
            };
            let mut tag: Vec<char> = Vec::new();
            extend_chars(&mut tag, h, i, end);
            let lower_tag = lower_all(&tag);
            if is_break_tag(&lower_tag) {
                out.push('\n');
            } else {
                out.push(' ');
            }
            i = end;
        } else {
            out.push(h[i]);
            i += 1;
        }
    }
    out
}

// ---------------------------------------------------------------------------
// Whitespace collapsing
// ---------------------------------------------------------------------------

/// `line` with `\r` removed from its end, as `str::lines` yields it.
pub open spec fn strip_cr(line: Seq<char>) -> Seq<char> {
    if line.len() > 0 && line.last() == '\r' {
        line.drop_last()
    } else {
        line
    }
}

/// The lines of `s[i..]` (`str::lines`): split at `\n`, a trailing `\r` dropped
/// from each, and no final empty line after a closing `\n`.
pub open spec fn lines_from(s: Seq<char>, i: int) -> Seq<Seq<char>>
    decreases s.len() - i,
{
    if i < 0 || i >= s.len() {
        Seq::empty()
    } else {
        match find_char_from(s, '\n', i) {
            Some(e) => {
                proof {
                    lemma_find_char_from_bounds(s, '\n', i);
                }
                seq![strip_cr(s.subrange(i, e))] + lines_from(s, e + 1)
            },
            None => seq![strip_cr(s.subrange(i, s.len() as int))],
        }
    }
}

/// `line[i..]` with each run of whitespace squeezed to one space; `prev` says
/// whether the character before `i` was whitespace.
pub open spec fn squeeze_from(line: Seq<char>, i: int, prev: bool) -> Seq<char>
    decreases line.len() - i,
{
    if i < 0 || i >= line.len() {
        Seq::empty()
    } else if is_ws(line[i]) {
        (if prev {
            Seq::empty()
        } else {
            seq![' ']
        }) + squeeze_from(line, i + 1, true)
    } else {
        seq![line[i]] + squeeze_from(line, i + 1, false)
    }
}

/// Collapsed form of one line: runs squeezed, then trimmed.
pub open spec fn collapse_line(line: Seq<char>) -> Seq<char> {
    trim(squeeze_from(line, 0, false))
}

/// The text built from the first `n` lines, and the current run of blank lines:
/// a non-blank line is written followed by `\n`; a blank line writes a `\n` only
/// when it is the first of its run and something has been written already.
pub open spec fn collapse_acc(lines: Seq<Seq<char>>, n: int) -> (Seq<char>, nat)
    decreases n,
{
    if n <= 0 {
        (Seq::empty(), 0)
    } else {
        let (out, blank) = collapse_acc(lines, n - 1);
        let t = collapse_line(lines[n - 1]);
        if t.len() == 0 {
            let b = blank + 1;
            if b <= 1 && out.len() > 0 {
                (out.push('\n'), b)
            } else {
                (out, b)
            }
        } else {
            (out + t.push('\n'), 0)
        }
    }
}

/// Runs of spaces collapse to one; runs of blank lines collapse to at most one;
/// the whole is trimmed.
pub open spec fn collapse_ws_spec(s: Seq<char>) -> Seq<char> {
    let lines = lines_from(s, 0);
    trim(collapse_acc(lines, lines.len() as int).0)
}

/// `collapse_ws(decode_entities(strip_tags(h)))`: tags to breaks and spaces,
/// entities decoded, whitespace collapsed.
pub open spec fn to_text_spec(h: Seq<char>) -> Seq<char> {
    collapse_ws_spec(decode_spec(strip_tags(h)))
}

/// `h` converts to text without the decoder slicing inside a character.
pub open spec fn to_text_ok(h: Seq<char>) -> bool {
    decode_ok(strip_tags(h))
}

fn split_lines(s: &Vec<char>) -> (lines: Vec<Vec<char>>)
    ensures
        lines@.len() == lines_from(s@, 0).len(),
        forall|k: int| 0 <= k < lines@.len() ==> #[trigger] lines@[k]@ == lines_from(s@, 0)[k],
{
    let mut lines: Vec<Vec<char>> = Vec::new();
    let mut i: usize = 0;
    while i < s.len()
        invariant
            i <= s.len(),
            lines_from(s@, 0) == Seq::new(lines@.len(), |k: int| lines@[k]@) + lines_from(
                s@,
                i as int,
            ),
        decreases s.len() - i,
    {
        let ghost before = Seq::new(lines@.len(), |k: int| lines@[k]@);
        proof {
            lemma_find_char_from_bounds(s@, '\n', i as int);
        }
        let end = match find_char(s, '\n', i) {
            Some(e) => e,
            None => s.len(),
        };
        let mut line: Vec<char> = Vec::new();
        let stop = if end > i && s[end - 1] == '\r' {
            end - 1
        } else {
            end
        };
        extend_chars(&mut line, s, i, stop);
        assert(line@ == strip_cr(s@.subrange(i as int, end as int)));
        lines.push(line);
        assert(Seq::new(lines@.len(), |k: int| lines@[k]@) == before.push(line@));
        i = if end < s.len() {
            end + 1
        } else {
            s.len()
        };
    }
    assert(lines_from(s@, 0) == Seq::new(lines@.len(), |k: int| lines@[k]@));
    lines
}

fn squeeze(line: &Vec<char>) -> (out: Vec<char>)
    ensures
        out@ == squeeze_from(line@, 0, false),
{
    let mut out: Vec<char> = Vec::new();
    let mut prev = false;
    let mut i: usize = 0;
    while i < line.len()
        invariant
            i <= line.len(),
            squeeze_from(line@, 0, false) == out@ + squeeze_from(line@, i as int, prev),
        decreases line.len() - i,
    {
        let c = line[i];
        if is_whitespace(c) {
            if !prev {
                out.push(' ');
            }
            prev = true;
        } else {
            out.push(c);
            prev = false;
        }
        i += 1;
    }
    out
}

/// Collapse runs of spaces, and runs of blank lines to at most one.
fn collapse_ws(s: &Vec<char>) -> (out: Vec<char>)
    ensures
        out@ == collapse_ws_spec(s@),
{
    let lines = split_lines(s);
    let ghost ls = lines_from(s@, 0);
    let mut out: Vec<char> = Vec::new();
    let mut blank_run: usize = 0;
    let mut k: usize = 0;
    while k < lines.len()
        invariant
            k <= lines.len(),
            lines@.len() == ls.len(),
            forall|j: int| 0 <= j < lines@.len() ==> #[trigger] lines@[j]@ == ls[j],
            collapse_acc(ls, k as int) == (out@, blank_run as nat),
            blank_run <= k,
        decreases lines.len() - k,
    {
        let sq = squeeze(&lines[k]);
        let t = trimmed(&sq);
        assert(t@ == collapse_line(ls[k as int]));
        if t.len() == 0 {
            blank_run += 1;
            if blank_run <= 1 && out.len() > 0 {
                out.push('\n');
            }
        } else {
            blank_run = 0;
            extend_chars(&mut out, &t, 0, t.len());
            out.push('\n');
            assert(t@.subrange(0, t.len() as int) == t@);
        }
        k += 1;
    }
    trimmed(&out)
}

fn to_text_chars(h: &Vec<char>) -> (out: Vec<char>)
    requires
        to_text_ok(h@),
    ensures
        out@ == to_text_spec(h@),
{
    let stripped = strip_tags_chars(h);
    let decoded = decode_chars(&stripped);
    collapse_ws(&decoded)
}

} // verus!

verus! {

// ---------------------------------------------------------------------------
// Title, attributes, links
// ---------------------------------------------------------------------------

/// Text inside the first `<tag>…</tag>` of `h` (tag names compared
/// case-insensitively; `tag` is given in lower case).
pub open spec fn tag_text_spec(h: Seq<char>, tag: Seq<char>) -> Option<Seq<char>> {
    let low = lower_seq(h);
    match find_from(low, seq!['<'] + tag, 0) {
        None => None,
        Some(start) => match find_char_from(low, '>', start) {
            None => None,
            Some(g) => match find_from(low, seq!['<', '/'] + tag, g + 1) {
                None => None,
                Some(end) => Some(h.subrange(g + 1, end)),
            },
        },
    }
}

/// First index `>= from` of a whitespace character or `>`.
pub open spec fn find_ws_or_gt(s: Seq<char>, from: int) -> Option<int>
    decreases s.len() - from,
{
    if from < 0 || from >= s.len() {
        None
    } else if is_ws(s[from]) || s[from] == '>' {
        Some(from)
    } else {
        find_ws_or_gt(s, from + 1)
    }
}

/// The value of attribute `name` (given in lower case) in a start tag: quoted
/// with `"` or `'`, or bare up to whitespace or `>`.
pub open spec fn attr_value_spec(tag: Seq<char>, name: Seq<char>) -> Option<Seq<char>> {
    let key = name.push('=');
    match find_from(lower_seq(tag), key, 0) {
        None => None,
        Some(k) => {
            let rest = tag.subrange(k + key.len(), tag.len() as int);
            if rest.len() == 0 {
                None
            } else if rest[0] == '"' || rest[0] == '\'' {
                match find_char_from(rest, rest[0], 1) {
                    None => None,
                    Some(e) => Some(rest.subrange(1, e)),
                }
            } else {
                Some(
                    rest.subrange(
                        0,
                        match find_ws_or_gt(rest, 0) {
                            Some(e) => e,
                            None => rest.len() as int,
                        },
                    ),
                )
            }
        },
    }
}

/// Where the `<a …>` element found at or after `search` sits:
/// `(at, tag_end)` — the `<` of `<a ` and the `>` that closes its start tag.
pub open spec fn next_anchor(h: Seq<char>, search: int) -> Option<(int, int)> {
    let low = lower_seq(h);
    match find_from(low, "<a "@, search) {
        None => None,
        Some(at) => match find_char_from(low, '>', at) {
            None => None,
            Some(te) => Some((at, te)),
        },
    }
}

/// Where the anchor's inner text stops: at its `</a`, or at the start tag's `>`
/// when no `</a` follows.
pub open spec fn anchor_inner_end(h: Seq<char>, tag_end: int) -> int {
    match find_from(lower_seq(h), "</a"@, tag_end) {
        Some(e) => e,
        None => tag_end,
    }
}

/// The trimmed, twice-decoded display text of an anchor's inner HTML.
pub open spec fn anchor_text(inner: Seq<char>) -> Seq<char> {
    trim(decode_spec(to_text_spec(inner)))
}

/// The link an `href` contributes: resolved against `base` (or kept as written
/// when that fails), kept only when it is an `http…` URL with display text.
pub open spec fn link_of(base: Seq<char>, href: Seq<char>, text: Seq<char>) -> Option<(Seq<char>, Seq<char>)> {
    if has_prefix(href, "#"@) || has_prefix(href, "javascript:"@) || has_prefix(href, "mailto:"@) {
        None
    } else {
        let abs = match url_join(base, href) {
            Some(u) => u,
            None => href,
        };
        if has_prefix(abs, "http"@) && text.len() > 0 {
            Some((text, abs))
        } else {
            None
        }
    }
}

/// All `(text, absolute url)` links of `h` from `search` on, in document order.
pub open spec fn links_from(h: Seq<char>, base: Seq<char>, search: int) -> Seq<(Seq<char>, Seq<char>)>
    decreases h.len() + 3 - search,
{
    if search < 0 || search > h.len() {
        Seq::empty()
    } else {
        match next_anchor(h, search) {
            None => Seq::empty(),
            Some((at, te)) => {
                proof {
                    lemma_find_from_bounds(lower_seq(h), "<a "@, search);
                    lemma_find_char_from_bounds(lower_seq(h), '>', at);
                    lemma_find_from_bounds(lower_seq(h), "</a"@, te);
                    reveal_strlit("</a");
                }
                let inner_end = anchor_inner_end(h, te);
                let rest = links_from(h, base, inner_end + 3);
                match attr_value_spec(h.subrange(at, te), "href"@) {
                    None => rest,
                    Some(href) => {
                        let text = anchor_text(h.subrange(te + 1, inner_end));
                        match link_of(base, href, text) {
                            Some(l) => seq![l] + rest,
                            None => rest,
                        }
                    },
                }
            },
        }
    }
}

/// Every anchor met while scanning `h` from `search` has a closing `</a` and
/// inner text the decoder can work on.
pub open spec fn links_ok(h: Seq<char>, search: int) -> bool
    decreases h.len() + 3 - search,
{
    if search < 0 || search > h.len() {
        true
    } else {
        match next_anchor(h, search) {
            None => true,
            Some((at, te)) => {
                proof {
                    lemma_find_from_bounds(lower_seq(h), "<a "@, search);
                    lemma_find_char_from_bounds(lower_seq(h), '>', at);
                    lemma_find_from_bounds(lower_seq(h), "</a"@, te);
                    reveal_strlit("</a");
                }
                let inner_end = anchor_inner_end(h, te);
                &&& find_from(lower_seq(h), "</a"@, te) is Some
                &&& to_text_ok(h.subrange(te + 1, inner_end))
                &&& decode_ok(to_text_spec(h.subrange(te + 1, inner_end)))
                &&& links_ok(h, inner_end + 3)
            },
        }
    }
}

/// A link is what some followable `href` gives: an `href` that is not a
/// fragment, `javascript:` or `mailto:` link, resolved against `base`, with
/// trimmed display text.
pub open spec fn followed_link(base: Seq<char>, l: (Seq<char>, Seq<char>)) -> bool {
    &&& l.0.len() > 0
    &&& l.0 == trim(l.0)
    &&& has_prefix(l.1, "http"@)
    &&& exists|href: Seq<char>|
        !has_prefix(href, "#"@) && !has_prefix(href, "javascript:"@) && !has_prefix(href, "mailto:"@)
            && #[trigger] link_of(base, href, l.0) == Some(l)
}

/// Every link found from `search` on is a followed link.
proof fn lemma_links_from_are_followed(h: Seq<char>, base: Seq<char>, search: int)
    ensures
        forall|k: int|
            0 <= k < links_from(h, base, search).len() ==> followed_link(base, #[trigger] links_from(h, base, search)[k]),
    decreases h.len() + 3 - search,
{
    if search < 0 || search > h.len() {
    } else {
        match next_anchor(h, search) {
            None => {},
            Some((at, te)) => {
                lemma_find_from_bounds(lower_seq(h), "<a "@, search);
                lemma_find_char_from_bounds(lower_seq(h), '>', at);
                lemma_find_from_bounds(lower_seq(h), "</a"@, te);
                reveal_strlit("</a");
                let inner_end = anchor_inner_end(h, te);
                lemma_links_from_are_followed(h, base, inner_end + 3);
                let rest = links_from(h, base, inner_end + 3);
                let all = links_from(h, base, search);
                match attr_value_spec(h.subrange(at, te), "href"@) {
                    None => {},
                    Some(href) => {
                        let text = anchor_text(h.subrange(te + 1, inner_end));
                        match link_of(base, href, text) {
                            Some(l) => {
                                lemma_trim_idempotent(decode_spec(to_text_spec(h.subrange(te + 1, inner_end))));
                                assert(l.0 == text);
                                assert(followed_link(base, l));
                                assert forall|k: int| 0 <= k < all.len() implies followed_link(base, #[trigger] all[k]) by {
                                    if k > 0 {
                                        assert(all[k] == rest[k - 1]);
                                    }
                                }
                            },
                            None => {},
                        }
                    },
                }
            },
        }
    }
}

/// A reader view's title and text are trimmed, and it lists at most eighty
/// links, each with trimmed display text and an `http` URL, each given by an
/// `href` that is not a fragment, `javascript:` or `mailto:` link.
pub proof fn lemma_reader_view_shape(html: Seq<char>, base: Seq<char>)
    ensures
        reader_spec(html, base).0 == trim(reader_spec(html, base).0),
        reader_spec(html, base).1 == trim(reader_spec(html, base).1),
        reader_spec(html, base).2.len() <= 80,
        forall|k: int|
            0 <= k < reader_spec(html, base).2.len() ==> followed_link(base, #[trigger] reader_spec(html, base).2[k]),
{
    let c = remove_blocks_spec(html);
    lemma_links_from_are_followed(c, base, 0);
    let all = links_from(c, base, 0);
    let ls = reader_spec(html, base).2;
    assert forall|k: int| 0 <= k < ls.len() implies followed_link(base, #[trigger] ls[k]) by {
        assert(ls[k] == all[k]);
    }
    let raw_title = match tag_text_spec(c, "title"@) {
        Some(t) => t,
        None => Seq::empty(),
    };
    lemma_trim_idempotent(decode_spec(raw_title));
    let lines = lines_from(decode_spec(strip_tags(c)), 0);
    lemma_trim_idempotent(collapse_acc(lines, lines.len() as int).0);
}

/// At most eighty links of `h`, resolved against `base`.
pub open spec fn links_spec(h: Seq<char>, base: Seq<char>) -> Seq<(Seq<char>, Seq<char>)> {
    let all = links_from(h, base, 0);
    if all.len() > 80 {
        all.take(80)
    } else {
        all
    }
}

/// Text inside the first `<tag>…</tag>` (case-insensitive).
fn extract_tag_text(html: &Vec<char>, tag: &str) -> (r: Option<Vec<char>>)
    ensures
        r matches Some(t) ==> tag_text_spec(html@, tag@) == Some(t@),
        r is None ==> tag_text_spec(html@, tag@) is None,
{
    let lower = lower_all(html);
    let tv = chars_of(tag);
    let mut open: Vec<char> = vec!['<'];
    extend_chars(&mut open, &tv, 0, tv.len());
    assert(tv@.subrange(0, tv.len() as int) == tv@);
    let mut close: Vec<char> = vec!['<', '/'];
    extend_chars(&mut close, &tv, 0, tv.len());
    assert(open@ == seq!['<'] + tag@);
    assert(close@ == seq!['<', '/'] + tag@);
    let start = find(&lower, &open, 0)?;
    proof {
        lemma_find_from_bounds(lower@, open@, 0);
    }
    let g = find_char(&lower, '>', start)?;
    proof {
        lemma_find_char_from_bounds(lower@, '>', start as int);
    }
    let end = find(&lower, &close, g + 1)?;
    proof {
        lemma_find_from_bounds(lower@, close@, g + 1);
    }
    let mut out: Vec<char> = Vec::new();
    extend_chars(&mut out, html, g + 1, end);
    Some(out)
}

fn find_ws_or_gt_exec(s: &Vec<char>, from: usize) -> (r: Option<usize>)
    ensures
        r matches Some(e) ==> find_ws_or_gt(s@, from as int) == Some(e as int),
        r is None ==> find_ws_or_gt(s@, from as int) is None,
{
    let mut i = from;
    while i < s.len()
        invariant
            from <= i,
            find_ws_or_gt(s@, from as int) == find_ws_or_gt(s@, i as int),
        decreases s.len() - i,
    {
        if is_whitespace(s[i]) || s[i] == '>' {
            return Some(i);
        }
        i += 1;
    }
    None
}

pub proof fn lemma_find_ws_or_gt_bounds(s: Seq<char>, from: int)
    ensures
        find_ws_or_gt(s, from) matches Some(e) ==> from <= e < s.len(),
    decreases s.len() - from,
{
    if from < 0 || from >= s.len() {
    } else if is_ws(s[from]) || s[from] == '>' {
    } else {
        lemma_find_ws_or_gt_bounds(s, from + 1);
    }
}

/// Read a quoted attribute value out of a start tag.
fn attr_value(tag: &Vec<char>, name: &str) -> (r: Option<Vec<char>>)
    ensures
        r matches Some(v) ==> attr_value_spec(tag@, name@) == Some(v@),
        r is None ==> attr_value_spec(tag@, name@) is None,
{
    let lower = lower_all(tag);
    let mut key = chars_of(name);
    key.push('=');
    let k = find(&lower, &key, 0)?;
    proof {
        lemma_find_from_bounds(lower@, key@, 0);
    }
    assert(key@ == name@.push('='));
    let kl = key.len();
    assert(k + kl <= lower@.len());
    assert(lower@.len() == lower.len());
    let idx = k + kl;
    let mut rest: Vec<char> = Vec::new();
    extend_chars(&mut rest, tag, idx, tag.len());
    if rest.len() == 0 {
        return None;
    }
    let quote = rest[0];
    if quote == '"' || quote == '\'' {
        let e = find_char(&rest, quote, 1)?;
        proof {
            lemma_find_char_from_bounds(rest@, quote, 1);
        }
        let mut out: Vec<char> = Vec::new();
        extend_chars(&mut out, &rest, 1, e);
        Some(out)
    } else {
        proof {
            lemma_find_ws_or_gt_bounds(rest@, 0);
        }
        let end = match find_ws_or_gt_exec(&rest, 0) {
            Some(e) => e,
            None => rest.len(),
        };
        let mut out: Vec<char> = Vec::new();
        extend_chars(&mut out, &rest, 0, end);
        Some(out)
    }
}

} // verus!

verus! {

/// A reader-view rendering of a page.
#[derive(Debug, Clone, Default)]
pub struct ReaderDoc {
    pub title: String,
    pub text: String,
    /// `(display text, absolute url)` for each followable link.
    pub links: Vec<(String, String)>,
}

/// The character sequences of a list of string pairs.
pub open spec fn pairs_view(v: Seq<(String, String)>) -> Seq<(Seq<char>, Seq<char>)> {
    Seq::new(v.len(), |i: int| (v[i].0@, v[i].1@))
}

/// Pull `<a href>` links, resolving each to an absolute URL against `base`.
fn extract_links(h: &Vec<char>, base: &str) -> (links: Vec<(String, String)>)
    requires
        links_ok(h@, 0),
    ensures
        pairs_view(links@) == links_spec(h@, base@),
{
    let lower = lower_all(h);
    let pat_a = chars_of("<a ");
    let pat_close = chars_of("</a");
    proof {
        reveal_strlit("</a");
        reveal_strlit("<a ");
    }
    let mut links: Vec<(String, String)> = Vec::new();
    let mut search: usize = 0;
    loop
        invariant
            lower@ == lower_seq(h@),
            lower.len() == h.len(),
            pat_a@ == "<a "@,
            pat_close@ == "</a"@,
            pat_close@.len() == 3,
            search <= h.len(),
            links_ok(h@, search as int),
            links_from(h@, base@, 0) == pairs_view(links@) + links_from(h@, base@, search as int),
        ensures
            links_from(h@, base@, 0) == pairs_view(links@),
        decreases h.len() + 3 - search,
    {
        let at = match find(&lower, &pat_a, search) {
            Some(at) => at,
            None => {
                assert(next_anchor(h@, search as int) is None);
                assert(links_from(h@, base@, search as int) =~= Seq::empty());
                break;
            },
        };
        proof {
            lemma_find_from_bounds(lower@, "<a "@, search as int);
            lemma_find_char_from_bounds(lower@, '>', at as int);
        }
        let te = match find_char(&lower, '>', at) {
            Some(te) => te,
            None => {
                assert(next_anchor(h@, search as int) is None);
                assert(links_from(h@, base@, search as int) =~= Seq::empty());
                break;
            },
        };
        assert(next_anchor(h@, search as int) == Some((at as int, te as int)));
        assert(lower@[te as int] == '>');
        let mut tag: Vec<char> = Vec::new();
        extend_chars(&mut tag, h, at, te);
        let href = attr_value(&tag, "href");
        proof {
            lemma_find_from_bounds(lower@, "</a"@, te as int);
        }
        let inner_end = match find(&lower, &pat_close, te) {
            Some(e) => e,
            None => te,
        };
        assert(find_from(lower@, "</a"@, te as int) is Some);
        assert(inner_end as int == anchor_inner_end(h@, te as int));
        assert(lower@[inner_end as int] == '<') by {
            reveal_strlit("</a");
            assert(lower@.subrange(inner_end as int, inner_end + 3)[0] == lower@[inner_end as int]);
        }
        assert(te + 1 <= inner_end);
        let mut inner: Vec<char> = Vec::new();
        extend_chars(&mut inner, h, te + 1, inner_end);
        let shown = to_text_chars(&inner);
        let decoded = decode_chars(&shown);
        let text = trimmed(&decoded);
        let ghost prev = links@;
        search = inner_end + 3;
        if let Some(href) = href {
            let hash = chars_of("#");
            let js = chars_of("javascript:");
            let mail = chars_of("mailto:");
            if !(match_at(&href, 0, &hash) || match_at(&href, 0, &js) || match_at(&href, 0, &mail)) {
                let href_s = string_of_all(&href);
                let abs = match join_url(base, href_s.as_str()) {
                    Some(u) => u,
                    None => href_s,
                };
                let abs_v = chars_of(abs.as_str());
                let http = chars_of("http");
                if match_at(&abs_v, 0, &http) && text.len() > 0 {
                    links.push((string_of_all(&text), abs));
                    assert(pairs_view(links@) == pairs_view(prev).push((text@, abs@)));
                }
            }
        }
    }
    let ghost all = links_from(h@, base@, 0);
    assert(all == pairs_view(links@));
    if links.len() > 80 {
        links.truncate(80);
        assert(pairs_view(links@) == all.take(80));
    }
    links
}

/// Everything `read_html` does can run without slicing inside a character: the
/// title and every link text decode, and the page text converts.
pub open spec fn reader_ok(html: Seq<char>) -> bool {
    let c = remove_blocks_spec(html);
    &&& decode_ok(
        match tag_text_spec(c, "title"@) {
            Some(t) => t,
            None => Seq::empty(),
        },
    )
    &&& links_ok(c, 0)
    &&& to_text_ok(c)
}

/// The reader view of `html`: its scripts, styles and comments removed, the
/// decoded, trimmed `<title>`, the readable text, and the links.
pub open spec fn reader_spec(html: Seq<char>, base: Seq<char>) -> (
    Seq<char>,
    Seq<char>,
    Seq<(Seq<char>, Seq<char>)>,
) {
    let c = remove_blocks_spec(html);
    let raw_title = match tag_text_spec(c, "title"@) {
        Some(t) => t,
        None => Seq::empty(),
    };
    (trim(decode_spec(raw_title)), to_text_spec(c), links_spec(c, base))
}

/// Whether the anchors of `h` from the start satisfy [`links_ok`].
fn links_check(h: &Vec<char>) -> (r: bool)
    ensures
        r == links_ok(h@, 0),
{
    let lower = lower_all(h);
    let pat_a = chars_of("<a ");
    let pat_close = chars_of("</a");
    proof {
        reveal_strlit("</a");
        reveal_strlit("<a ");
    }
    let mut search: usize = 0;
    loop
        invariant
            lower@ == lower_seq(h@),
            lower.len() == h.len(),
            pat_a@ == "<a "@,
            pat_close@ == "</a"@,
            pat_close@.len() == 3,
            search <= h.len(),
            links_ok(h@, 0) == links_ok(h@, search as int),
        decreases h.len() + 3 - search,
    {
        let at = match find(&lower, &pat_a, search) {
            Some(at) => at,
            None => {
                assert(next_anchor(h@, search as int) is None);
                return true;
            },
        };
        proof {
            lemma_find_from_bounds(lower@, "<a "@, search as int);
            lemma_find_char_from_bounds(lower@, '>', at as int);
        }
        let te = match find_char(&lower, '>', at) {
            Some(te) => te,
            None => {
                assert(next_anchor(h@, search as int) is None);
                return true;
            },
        };
        assert(next_anchor(h@, search as int) == Some((at as int, te as int)));
        proof {
            lemma_find_from_bounds(lower@, "</a"@, te as int);
        }
        let inner_end = match find(&lower, &pat_close, te) {
            Some(e) => e,
            None => {
                return false;
            },
        };
        assert(inner_end as int == anchor_inner_end(h@, te as int));
        assert(lower@[inner_end as int] == '<') by {
            reveal_strlit("</a");
            assert(lower@.subrange(inner_end as int, inner_end + 3)[0] == lower@[inner_end as int]);
        }
        assert(lower@[te as int] == '>');
        assert(te + 1 <= inner_end);
        let mut inner: Vec<char> = Vec::new();
        extend_chars(&mut inner, h, te + 1, inner_end);
        let stripped = strip_tags_chars(&inner);
        if !decodable_chars(&stripped) {
            return false;
        }
        let shown = to_text_chars(&inner);
        if !decodable_chars(&shown) {
            return false;
        }
        search = inner_end + 3;
    }
}

/// Whether [`read_html`] can work on `html` without slicing inside a
/// character (its precondition).
pub fn readable(html: &str) -> (r: bool)
    ensures
        r == reader_ok(html@),
{
    let h = chars_of(html);
    let cleaned = remove_blocks(&h);
    let title_ok = match extract_tag_text(&cleaned, "title") {
        Some(t) => decodable_chars(&t),
        None => {
            let e: Vec<char> = Vec::new();
            assert(e@ =~= Seq::<char>::empty());
            decodable_chars(&e)
        },
    };
    title_ok && links_check(&cleaned) && decodable_chars(&strip_tags_chars(&cleaned))
}

/// Turn raw HTML into a reader view: title, readable text, absolute links.
pub fn read_html(html: &str, base_url: &str) -> (doc: ReaderDoc)
    requires
        reader_ok(html@),
    ensures
        (doc.title@, doc.text@, pairs_view(doc.links@)) == reader_spec(html@, base_url@),
{
    let h = chars_of(html);
    let cleaned = remove_blocks(&h);
    let title = match extract_tag_text(&cleaned, "title") {
        Some(t) => t,
        None => Vec::new(),
    };
    let links = extract_links(&cleaned, base_url);
    let text = to_text_chars(&cleaned);
    let decoded_title = decode_chars(&title);
    let t = trimmed(&decoded_title);
    ReaderDoc { title: string_of_all(&t), text: string_of_all(&text), links }
}

} // verus!

verus! {

/// Where the reader is.
pub enum ReaderState {
    Idle,
    Loading(String),
    Loaded(ReaderDoc),
    Error(String, String),
}

/// The in-world web reader (one page at a time, with back-history). Each load
/// it starts is handed out as the URL to fetch; the fetch's result comes back
/// through [`WebReader::poll`].
pub struct WebReader {
    pub state: ReaderState,
    pub url: Option<String>,
    pub history: Vec<String>,
    /// The URL whose fetch is in flight.
    pub pending: Option<String>,
}

/// An owned snapshot for rendering.
#[derive(Clone)]
pub struct WebView {
    pub url: String,
    pub title: String,
    pub text: String,
    pub links: Vec<(String, String)>,
    pub loading: bool,
    pub error: Option<String>,
}

/// The text of each string in a list.
pub open spec fn texts(v: Seq<String>) -> Seq<Seq<char>> {
    Seq::new(v.len(), |i: int| v[i]@)
}

/// A view snapshot as plain text: url, title, text, links, loading, error.
pub open spec fn web_view_model(v: WebView) -> (
    Seq<char>,
    Seq<char>,
    Seq<char>,
    Seq<(Seq<char>, Seq<char>)>,
    bool,
    Option<Seq<char>>,
) {
    (
        v.url@,
        v.title@,
        v.text@,
        pairs_view(v.links@),
        v.loading,
        match v.error {
            Some(e) => Some(e@),
            None => None,
        },
    )
}

impl WebReader {
    /// The state a reader is in after it started loading `url`.
    pub open spec fn loading(self, url: Seq<char>) -> bool {
        &&& self.state matches ReaderState::Loading(u) && u@ == url
        &&& self.url matches Some(u) && u@ == url
        &&& self.pending matches Some(u) && u@ == url
    }

    /// What [`WebReader::view`] shows in each state.
    pub open spec fn view_spec(self) -> Option<
        (
            Seq<char>,
            Seq<char>,
            Seq<char>,
            Seq<(Seq<char>, Seq<char>)>,
            bool,
            Option<Seq<char>>,
        ),
    > {
        match self.state {
            ReaderState::Idle => None,
            ReaderState::Loading(url) => Some(
                (url@, Seq::empty(), Seq::empty(), Seq::empty(), true, None),
            ),
            ReaderState::Loaded(d) => Some(
                (
                    opt_text(self.url),
                    if d.title@.len() == 0 {
                        opt_text(self.url)
                    } else {
                        d.title@
                    },
                    d.text@,
                    pairs_view(d.links@),
                    false,
                    None,
                ),
            ),
            ReaderState::Error(url, msg) => Some(
                (url@, url@, Seq::empty(), Seq::empty(), false, Some(msg@)),
            ),
        }
    }

    pub fn new() -> (r: Self)
        ensures
            r.state is Idle,
            r.url is None,
            r.history@.len() == 0,
            r.pending is None,
    {
        Self { state: ReaderState::Idle, url: None, history: Vec::new(), pending: None }
    }

    pub fn is_open(&self) -> (r: bool)
        ensures
            r == !(self.state is Idle),
    {
        !matches!(self.state, ReaderState::Idle)
    }

    pub fn can_go_back(&self) -> (r: bool)
        ensures
            r == (self.history@.len() > 1),
    {
        self.history.len() > 1
    }

    pub fn close(&mut self)
        ensures
            final(self).state is Idle,
            final(self).url is None,
            final(self).history@.len() == 0,
            final(self).pending is None,
    {
        self.state = ReaderState::Idle;
        self.url = None;
        self.history.clear();
        self.pending = None;
    }

    /// Start loading `url`; returns the URL the caller must fetch.
    fn load(&mut self, url: String) -> (fetch: String)
        ensures
            final(self).loading(url@),
            fetch@ == url@,
            final(self).history == old(self).history,
    {
        self.state = ReaderState::Loading(url.clone());
        self.url = Some(url.clone());
        self.pending = Some(url.clone());
        url
    }

    /// Open a URL (pushed onto history); returns the URL to fetch.
    pub fn open(&mut self, url: &str) -> (fetch: String)
        ensures
            texts(final(self).history@) == texts(old(self).history@).push(url@),
            final(self).loading(url@),
            fetch@ == url@,
    {
        let mut u = String::new();
        crate::text::push_str(&mut u, url);
        self.history.push(u.clone());
        let ghost h = self.history@;
        let r = self.load(u);
        assert(texts(self.history@) == texts(old(self).history@).push(url@));
        r
    }

    /// Go back to the previous page: with more than one page of history the
    /// current one is dropped and the previous one loads (its URL is returned
    /// to fetch); otherwise nothing changes.
    pub fn back(&mut self) -> (fetch: Option<String>)
        ensures
            old(self).history@.len() > 1 ==> {
                &&& final(self).history@ == old(self).history@.drop_last()
                &&& fetch matches Some(u) && u@ == old(self).history@[old(self).history@.len() - 2]@
                &&& final(self).loading(fetch->0@)
            },
            old(self).history@.len() <= 1 ==> fetch is None && *final(self) == *old(self),
    {
        if self.history.len() > 1 {
            let _ = self.history.pop();
            let prev = self.history[self.history.len() - 1].clone();
            let r = self.load(prev);
            Some(r)
        } else {
            None
        }
    }

    /// Collect a finished fetch, if any (call once per frame with what the
    /// fetch delivered). Without a fetch in flight nothing changes.
    pub fn poll(&mut self, delivery: Delivery<ReaderDoc>)
        ensures
            old(self).pending is None ==> *final(self) == *old(self),
            old(self).pending matches Some(u) ==> match delivery {
                Delivery::Pending => *final(self) == *old(self),
                Delivery::Arrived(doc) => final(self).state == ReaderState::Loaded(doc)
                    && final(self).pending is None && final(self).url == old(self).url
                    && final(self).history == old(self).history,
                Delivery::Failed(e) => (final(self).state matches ReaderState::Error(a, b) && a@
                    == u@ && b@ == e@) && final(self).pending is None && final(self).url == old(
                    self,
                ).url && final(self).history == old(self).history,
                Delivery::Stopped => (final(self).state matches ReaderState::Error(a, b) && a@
                    == u@ && b@ == "fetch stopped"@) && final(self).pending is None
                    && final(self).url == old(self).url && final(self).history == old(
                    self,
                ).history,
            },
    {
        let url = match &self.pending {
            None => return ,
            Some(u) => u.clone(),
        };
        match delivery {
            Delivery::Pending => {},
            Delivery::Arrived(doc) => {
                self.state = ReaderState::Loaded(doc);
                self.pending = None;
            },
            Delivery::Failed(e) => {
                self.state = ReaderState::Error(url, e);
                self.pending = None;
            },
            Delivery::Stopped => {
                let mut msg = String::new();
                crate::text::push_str(&mut msg, "fetch stopped");
                self.state = ReaderState::Error(url, msg);
                self.pending = None;
            },
        }
    }

    /// What to draw this frame.
    pub fn view(&self) -> (r: Option<WebView>)
        ensures
            match r {
                Some(v) => Some(web_view_model(v)),
                None => None,
            } == self.view_spec(),
    {
        match &self.state {
            ReaderState::Idle => None,
            ReaderState::Loading(url) => Some(
                WebView {
                    url: url.clone(),
                    title: String::new(),
                    text: String::new(),
                    links: Vec::new(),
                    loading: true,
                    error: None,
                },
            ),
            ReaderState::Loaded(d) => {
                let url = crate::fetch::text_or_default(&self.url);
                let title = if d.title.as_str().unicode_len() == 0 {
                    crate::fetch::text_or_default(&self.url)
                } else {
                    d.title.clone()
                };
                let links = clone_pairs(&d.links);
                Some(
                    WebView {
                        url,
                        title,
                        text: d.text.clone(),
                        links,
                        loading: false,
                        error: None,
                    },
                )
            },
            ReaderState::Error(url, msg) => Some(
                WebView {
                    url: url.clone(),
                    title: url.clone(),
                    text: String::new(),
                    links: Vec::new(),
                    loading: false,
                    error: Some(msg.clone()),
                },
            ),
        }
    }
}

/// A copy of a list of string pairs.
pub fn clone_pairs(v: &Vec<(String, String)>) -> (r: Vec<(String, String)>)
    ensures
        pairs_view(r@) == pairs_view(v@),
{
    let mut r: Vec<(String, String)> = Vec::new();
    let mut i: usize = 0;
    while i < v.len()
        invariant
            i <= v.len(),
            pairs_view(r@) == pairs_view(v@.take(i as int)),
        decreases v.len() - i,
    {
        let ghost prev = r@;
        let a = v[i].0.clone();
        let b = v[i].1.clone();
        r.push((a, b));
        assert(pairs_view(r@) =~= pairs_view(prev).push((v@[i as int].0@, v@[i as int].1@)));
        assert(pairs_view(v@.take(i + 1)) =~= pairs_view(v@.take(i as int)).push(
            (v@[i as int].0@, v@[i as int].1@),
        ));
        i += 1;
    }
    assert(v@.take(v.len() as int) == v@);
    r
}

} // verus!
