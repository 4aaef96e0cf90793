//! Asset resolution — turn a World Manifest asset URI into a local path, or into
//! the remote URL to fetch plus the cache file it lands in.
//!
//! The download itself is done by the caller; this module decides where an
//! asset comes from and where it is kept.

use vstd::prelude::*;
use vstd::string::StringSliceAdditionalSpecFns;
use vstd::utf8::encode_utf8;
use crate::text::{
    chars_of, extend_chars, has_prefix, hex, hex_digits, is_ascii_alnum, match_at, pad_zeros,
    push_all, push_str, string_of_all, zero_pad,
};
use crate::urls::{join_url, url_join};

verus! {

broadcast use vstd::string::group_string_axioms;

/// The FNV-1a 64-bit hash of a byte string.
pub open spec fn fnv1a(bs: Seq<u8>) -> u64
    decreases bs.len(),
{
    if bs.len() == 0 {
        0xcbf29ce484222325u64
    } else {
        vstd::wrapping::u64_specs::wrapping_mul(
            fnv1a(bs.drop_last()) ^ (bs.last() as u64),
            0x100000001b3u64,
        )
    }
}

/// The last `/`-separated segment of `s` (all of `s` when it has no `/`).
pub open spec fn last_segment(s: Seq<char>) -> Seq<char>
    decreases s.len(),
{
    if s.len() == 0 {
        s
    } else if s.last() == '/' {
        Seq::empty()
    } else {
        last_segment(s.drop_last()).push(s.last())
    }
}

/// The text after the last `.` of `s`, if it has one.
pub open spec fn after_last_dot(s: Seq<char>) -> Option<Seq<char>>
    decreases s.len(),
{
    if s.len() == 0 {
        None
    } else if s.last() == '.' {
        Some(Seq::empty())
    } else {
        match after_last_dot(s.drop_last()) {
            Some(e) => Some(e.push(s.last())),
            None => None,
        }
    }
}

/// The file extension kept for a cached asset: the text after the last `.` of
/// the URL's last path segment (its query and fragment cut off), when it is at
/// most five ASCII letters or digits; otherwise `bin`.
pub open spec fn cache_ext(url: Seq<char>) -> Seq<char> {
    let name = crate::text::before_any(last_segment(url), '?', '#');
    match after_last_dot(name) {
        Some(e) => if e.len() <= 5 && (forall|i: int| 0 <= i < e.len() ==> is_ascii_alnum(#[trigger] e[i])) {
            e
        } else {
            "bin"@
        },
        None => "bin"@,
    }
}

/// The cache file name of a URL: its FNV-1a hash as sixteen lower-case hex
/// digits, a dot, and the kept extension.
pub open spec fn cache_name_spec(url: Seq<char>) -> Seq<char> {
    zero_pad(hex_digits(fnv1a(encode_utf8(url)) as nat, false), 16) + "."@ + cache_ext(url)
}

fn fnv_hash(bytes: &[u8]) -> (h: u64)
    ensures
        h == fnv1a(bytes@),
{
    let mut h: u64 = 0xcbf29ce484222325;
    let mut i: usize = 0;
    while i < bytes.len()
        invariant
            i <= bytes@.len(),
            h == fnv1a(bytes@.take(i as int)),
        decreases bytes@.len() - i,
    {
        h ^= bytes[i] as u64;
        h = h.wrapping_mul(0x100000001b3);
        assert(bytes@.take(i + 1).drop_last() == bytes@.take(i as int));
        i += 1;
    }
    assert(bytes@.take(bytes@.len() as int) == bytes@);
    h
}

fn last_segment_of(v: &Vec<char>) -> (out: Vec<char>)
    ensures
        out@ == last_segment(v@),
{
    let mut j = v.len();
    let mut tail: Vec<char> = Vec::new();
    assert(v@.take(j as int) == v@);
    while j > 0 && v[j - 1] != '/'
        invariant
            j <= v.len(),
            last_segment(v@) == last_segment(v@.take(j as int)) + tail@,
        decreases j,
    {
        assert(v@.take(j as int).drop_last() == v@.take(j - 1));
        assert(v@.take(j as int).last() == v@[j - 1]);
        tail.insert(0, v[j - 1]);
        j -= 1;
    }
    proof {
        if j > 0 {
            assert(v@.take(j as int).last() == v@[j - 1]);
        }
    }
    tail
}

fn after_last_dot_of(v: &Vec<char>) -> (r: Option<Vec<char>>)
    ensures
        match r {
            Some(e) => after_last_dot(v@) == Some(e@),
            None => after_last_dot(v@) is None,
        },
{
    let mut j = v.len();
    let mut tail: Vec<char> = Vec::new();
    assert(v@.take(j as int) == v@);
    while j > 0 && v[j - 1] != '.'
        invariant
            j <= v.len(),
            after_last_dot(v@) == match after_last_dot(v@.take(j as int)) {
                Some(e) => Some(e + tail@),
                None => None,
            },
        decreases j,
    {
        assert(v@.take(j as int).drop_last() == v@.take(j - 1));
        assert(v@.take(j as int).last() == v@[j - 1]);
        let ghost t = tail@;
        tail.insert(0, v[j - 1]);
        proof {
            match after_last_dot(v@.take(j - 1)) {
                Some(e) => {
                    assert(e.push(v@[j - 1]) + t == e + tail@);
                },
                None => {},
            }
        }
        j -= 1;
    }
    if j == 0 {
        return None;
    }
    assert(v@.take(j as int).last() == v@[j - 1]);
    assert(Seq::<char>::empty() + tail@ == tail@);
    Some(tail)
}

/// A stable cache filename for a URL: a hash of the URL + the asset's extension
/// (kept so glTF/image loaders can sniff the format).
pub fn cache_name(url: &str) -> (r: String)
    ensures
        r@ == cache_name_spec(url@),
{
    let h = fnv_hash(url.as_bytes());
    let hx = hex(h, false);
    let padded = pad_zeros(&hx, 16);
    let v = chars_of(url);
    let seg = last_segment_of(&v);
    let name = crate::text::prefix_before_any(&seg, '?', '#');
    let mut r = string_of_all(&padded);
    push_str(&mut r, ".");
    let ext: Vec<char> = match after_last_dot_of(&name) {
        Some(e) => {
            let mut ok = e.len() <= 5;
            let mut i: usize = 0;
            while ok && i < e.len()
                invariant
                    i <= e.len(),
                    ok ==> e.len() <= 5,
                    ok ==> forall|k: int| 0 <= k < i ==> is_ascii_alnum(#[trigger] e@[k]),
                    !ok ==> !(e.len() <= 5 && (forall|k: int|
                        0 <= k < e.len() ==> is_ascii_alnum(#[trigger] e@[k]))),
                decreases e.len() - i,
            {
                let c = e[i];
                if !(('0' <= c && c <= '9') || ('a' <= c && c <= 'z') || ('A' <= c && c <= 'Z')) {
                    ok = false;
                }
                i += 1;
            }
            if ok {
                assert(cache_ext(v@) == e@);
                e
            } else {
                let b = chars_of("bin");
                assert(cache_ext(v@) == b@);
                b
            }
        },
        None => {
            let b = chars_of("bin");
            assert(cache_ext(v@) == b@);
            b
        },
    };
    push_all(&mut r, &ext);
    r
}

// ---------------------------------------------------------------------------
// Asset sources
// ---------------------------------------------------------------------------

/// Where a world's assets live, and where fetched ones are cached.
pub struct AssetSource {
    /// Base for relative URIs when the world is local (a `world.json` directory).
    pub base_dir: String,
    /// Base URL for relative URIs when the world is hosted (its directory URL).
    pub base_url: Option<String>,
    /// Directory fetched remote assets are cached in; `None` is the shared
    /// default cache (`<temp>/infinite_thread_assets`).
    pub cache_dir: Option<String>,
}

/// Where an asset is read from.
#[derive(Debug, Clone, PartialEq, Eq)]
pub enum AssetLocation {
    /// A file on disk.
    Local(String),
    /// A remote URL, downloaded once into the cache directory (`None`: the shared
    /// default cache) under the given file name.
    Remote { url: String, cache_dir: Option<String>, file_name: String },
}

/// Unix path joining (`PathBuf::join`): an absolute `p` replaces `base`; else
/// `p` follows `base`, with a `/` between them when `base` lacks one.
pub open spec fn path_join(base: Seq<char>, p: Seq<char>) -> Seq<char> {
    if has_prefix(p, "/"@) || base.len() == 0 {
        p
    } else if base.last() == '/' {
        base + p
    } else {
        base + "/"@ + p
    }
}

/// Join a directory path with a relative (or absolute) path, as `PathBuf::join`
/// does on Unix.
pub fn join_path(base: &str, p: &str) -> (r: String)
    ensures
        r@ == path_join(base@, p@),
{
    let pv = chars_of(p);
    let slash = chars_of("/");
    let bv = chars_of(base);
    if match_at(&pv, 0, &slash) || bv.len() == 0 {
        return string_of_all(&pv);
    }
    let mut r = string_of_all(&bv);
    if bv[bv.len() - 1] != '/' {
        push_str(&mut r, "/");
    }
    proof {
        reveal_strlit("/");
    }
    push_str(&mut r, p);
    r
}

/// The absolute URL an asset URI names: `http(s)://` URIs as written,
/// `ipfs://…` through the public gateway, anything else joined to the hosted
/// world's base URL (`None` for a local world, or when the join fails).
pub open spec fn absolute_url_spec(base_url: Option<Seq<char>>, uri: Seq<char>) -> Option<Seq<char>> {
    if has_prefix(uri, "http://"@) || has_prefix(uri, "https://"@) {
        Some(uri)
    } else if has_prefix(uri, "ipfs://"@) {
        Some("https://ipfs.io/ipfs/"@ + uri.skip(7))
    } else {
        match base_url {
            Some(b) => url_join(b, uri),
            None => None,
        }
    }
}

impl AssetSource {
    pub open spec fn base_url_view(self) -> Option<Seq<char>> {
        match self.base_url {
            Some(b) => Some(b@),
            None => None,
        }
    }

    /// A local world: relative URIs resolve against `base_dir`; absolute URLs
    /// still fetch to the shared cache.
    pub fn local(base_dir: &str) -> (r: Self)
        ensures
            r.base_dir@ == base_dir@,
            r.base_url is None,
            r.cache_dir is None,
    {
        let mut d = String::new();
        push_str(&mut d, base_dir);
        Self { base_dir: d, base_url: None, cache_dir: None }
    }

    /// A hosted world: `base_url` is the world's directory URL (relative URIs
    /// resolve against it); remote assets cache under `cache_dir`.
    pub fn hosted(base_dir: &str, base_url: Option<String>, cache_dir: &str) -> (r: Self)
        ensures
            r.base_dir@ == base_dir@,
            r.base_url == base_url,
            r.cache_dir matches Some(c) && c@ == cache_dir@,
    {
        let mut d = String::new();
        push_str(&mut d, base_dir);
        let mut c = String::new();
        push_str(&mut c, cache_dir);
        Self { base_dir: d, base_url, cache_dir: Some(c) }
    }

    /// The absolute URL an asset URI resolves to, or `None` if it is a local
    /// relative path.
    pub fn absolute_url(&self, uri: &str) -> (r: Option<String>)
        ensures
            match r {
                Some(u) => absolute_url_spec(self.base_url_view(), uri@) == Some(u@),
                None => absolute_url_spec(self.base_url_view(), uri@) is None,
            },
    {
        let v = chars_of(uri);
        let http = chars_of("http://");
        let https = chars_of("https://");
        let ipfs = chars_of("ipfs://");
        if match_at(&v, 0, &http) || match_at(&v, 0, &https) {
            Some(string_of_all(&v))
        } else if match_at(&v, 0, &ipfs) {
            proof {
                reveal_strlit("ipfs://");
            }
            let mut r = String::new();
            push_str(&mut r, "https://ipfs.io/ipfs/");
            let mut rest: Vec<char> = Vec::new();
            extend_chars(&mut rest, &v, 7, v.len());
            push_all(&mut r, &rest);
            Some(r)
        } else {
            match &self.base_url {
                Some(base) => join_url(base.as_str(), uri),
                None => None,
            }
        }
    }

    /// Where an asset URI is read from: a remote URL and its cache file, or a
    /// path under the world's directory.
    pub fn resolve(&self, uri: &str) -> (r: AssetLocation)
        ensures
            match absolute_url_spec(self.base_url_view(), uri@) {
                Some(u) => r matches AssetLocation::Remote { url, cache_dir, file_name } && url@ == u
                    && cache_dir == self.cache_dir && file_name@ == cache_name_spec(u),
                None => r matches AssetLocation::Local(p) && p@ == path_join(self.base_dir@, uri@),
            },
    {
        match self.absolute_url(uri) {
            Some(url) => {
                let file_name = cache_name(url.as_str());
                let cache_dir = match &self.cache_dir {
                    Some(c) => Some(c.clone()),
                    None => None,
                };
                AssetLocation::Remote { url, cache_dir, file_name }
            },
            None => AssetLocation::Local(join_path(self.base_dir.as_str(), uri)),
        }
    }
}

} // verus!
