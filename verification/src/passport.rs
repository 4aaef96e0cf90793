//! The traveler's Passport — reading a token's claims. The browser holds the
//! token and reads its own claims (unverified) for display and routing; the
//! claims live in the JWT's middle segment, base64url-encoded.

use vstd::prelude::*;
use vstd::string::StringSliceAdditionalSpecFns;
use crate::text::{chars_of, string_of_all, trim};

verus! {

/// The claims a browser reads from its own token; every field optional so a
/// dev-issued or opaque token still carries.
#[derive(Debug, Clone, Default)]
pub struct Claims {
    pub iss: String,
    /// DID-style stable id — the identity.
    pub sub: String,
    pub name: Option<String>,
    /// The descriptor URL — where the portable "you" is fetched from.
    pub avatar: Option<String>,
    pub scopes: Vec<String>,
    pub exp: Option<u64>,
}

/// The identity block of a fetched descriptor.
#[derive(Debug, Clone, Default)]
pub struct DescriptorIdentity {
    pub id: String,
    pub name: String,
}

/// The six-bit value of a base64url character (`A-Z a-z 0-9 - _`).
pub open spec fn b64_val(c: u8) -> Option<u32> {
    if 65 <= c <= 90 {
        Some((c - 65) as u32)
    } else if 97 <= c <= 122 {
        Some((c - 97 + 26) as u32)
    } else if 48 <= c <= 57 {
        Some((c - 48 + 52) as u32)
    } else if c == 45 {
        Some(62)
    } else if c == 95 {
        Some(63)
    } else {
        None
    }
}

/// The bit accumulator, pending bit count and output after reading the first
/// `n` characters: each character's six bits are shifted into a 32-bit buffer,
/// and whenever eight or more bits are pending the top eight come out as a byte.
pub open spec fn b64_fold(s: Seq<u8>, n: int) -> Option<(u32, u32, Seq<u8>)>
    decreases n,
{
    if n <= 0 {
        Some((0, 0, Seq::empty()))
    } else {
        match b64_fold(s, n - 1) {
            None => None,
            Some((buf, bits, out)) => match b64_val(s[n - 1]) {
                None => None,
                Some(v) => {
                    let buf2 = ((buf << 6u32) | v) as u32;
                    let bits2 = bits + 6;
                    if bits2 >= 8 {
                        Some((buf2, (bits2 - 8) as u32, out.push((buf2 >> ((bits2 - 8) as u32)) as u8)))
                    } else {
                        Some((buf2, bits2 as u32, out))
                    }
                },
            },
        }
    }
}

/// `s` with trailing `=` (byte 61) removed.
pub open spec fn strip_padding(s: Seq<u8>) -> Seq<u8>
    decreases s.len(),
{
    if s.len() > 0 && s.last() == 61 {
        strip_padding(s.drop_last())
    } else {
        s
    }
}

/// base64url decoding (RFC 4648 §5, padding optional): `None` when any
/// character other than trailing `=` is outside the alphabet.
pub open spec fn b64url_spec(s: Seq<u8>) -> Option<Seq<u8>> {
    let t = strip_padding(s);
    match b64_fold(t, t.len() as int) {
        Some((_, _, out)) => Some(out),
        None => None,
    }
}

fn val(c: u8) -> (r: Option<u32>)
    ensures
        r == b64_val(c),
{
    if 65 <= c && c <= 90 {
        Some((c - 65) as u32)
    } else if 97 <= c && c <= 122 {
        Some((c - 97 + 26) as u32)
    } else if 48 <= c && c <= 57 {
        Some((c - 48 + 52) as u32)
    } else if c == 45 {
        Some(62)
    } else if c == 95 {
        Some(63)
    } else {
        None
    }
}

pub proof fn lemma_fold_bits(s: Seq<u8>, n: int)
    requires
        0 <= n,
    ensures
        b64_fold(s, n) matches Some((buf, bits, out)) ==> bits == (6 * n) % 8 && out.len() == (6 * n) / 8,
    decreases n,
{
    if n > 0 {
        lemma_fold_bits(s, n - 1);
        assert((6 * n) % 8 == ((6 * (n - 1)) % 8 + 6) % 8);
        assert((6 * n) / 8 == (6 * (n - 1)) / 8 + ((6 * (n - 1)) % 8 + 6) / 8);
    }
}

/// Minimal base64url (RFC 4648 §5, padding optional).
pub fn base64url_decode(s: &str) -> (r: Option<Vec<u8>>)
    ensures
        match r {
            Some(v) => b64url_spec(s.spec_bytes()) == Some(v@),
            None => b64url_spec(s.spec_bytes()) is None,
        },
        ({
            let t = strip_padding(s.spec_bytes());
            match r {
                Some(v) => sextet_value(t, t.len() as int) is Some && v@.len() == (6 * t.len()) / 8
                    && bytes_value(v@) == sextet_value(t, t.len() as int)->0 / pending_unit(
                    ((6 * t.len()) % 8) as u32,
                ),
                None => sextet_value(t, t.len() as int) is None,
            }
        }),
{
    proof {
        lemma_decode_is_base64(s.spec_bytes());
    }
    let bytes = s.as_bytes();
    let mut end = bytes.len();
    let ghost all = bytes@;
    assert(all.take(end as int) == all);
    while end > 0 && bytes[end - 1] == 61
        invariant
            end <= bytes@.len(),
            all == bytes@,
            strip_padding(all) == strip_padding(all.take(end as int)),
        decreases end,
    {
        assert(all.take(end as int).drop_last() == all.take(end - 1));
        end -= 1;
    }
    let ghost t = all.take(end as int);
    proof {
        if end > 0 {
            assert(t.last() == all[end - 1]);
        }
        assert(strip_padding(t) == t);
    }
    let mut out: Vec<u8> = Vec::new();
    let mut buf: u32 = 0;
    let mut bits: u32 = 0;
    let mut i: usize = 0;
    while i < end
        invariant
            i <= end <= bytes@.len(),
            all == bytes@,
            t == all.take(end as int),
            strip_padding(all) == t,
            all == s.spec_bytes(),
            b64_fold(t, i as int) == Some((buf, bits, out@)),
            bits < 8,
        decreases end - i,
    {
        let v = match val(bytes[i]) {
            Some(v) => v,
            None => {
                assert(t[i as int] == bytes@[i as int]);
                assert(b64_fold(t, i + 1) is None);
                proof {
                    lemma_fold_none(t, i + 1, end as int);
                    lemma_decode_is_base64(s.spec_bytes());
                }
                return None;
            },
        };
        assert(t[i as int] == bytes@[i as int]);
        buf = (buf << 6u32) | v;
        bits = bits + 6;
        if bits >= 8 {
            bits = bits - 8;
            out.push((buf >> bits) as u8);
        }
        i += 1;
    }
    assert(t.len() == end);
    Some(out)
}

/// Once a character falls outside the alphabet, decoding fails for good.
pub proof fn lemma_fold_none(s: Seq<u8>, n: int, m: int)
    requires
        0 <= n <= m,
        b64_fold(s, n) is None,
    ensures
        b64_fold(s, m) is None,
    decreases m - n,
{
    if n < m {
        lemma_fold_none(s, n + 1, m);
    }
}

/// The decoded length is six bits per character, rounded down to whole bytes.
pub proof fn lemma_decoded_len(s: Seq<u8>)
    ensures
        b64url_spec(s) matches Some(out) ==> out.len() == (6 * strip_padding(s).len()) / 8,
{
    let t = strip_padding(s);
    lemma_fold_bits(t, t.len() as int);
}

/// The six-bit digits of the first `n` characters read as one big-endian
/// number; `None` when one of them is outside the alphabet.
pub open spec fn sextet_value(s: Seq<u8>, n: int) -> Option<nat>
    decreases n,
{
    if n <= 0 {
        Some(0)
    } else {
        match (sextet_value(s, n - 1), b64_val(s[n - 1])) {
            (Some(x), Some(v)) => Some(x * 64 + v as nat),
            _ => None,
        }
    }
}

/// Bytes read as one big-endian number.
pub open spec fn bytes_value(b: Seq<u8>) -> nat
    decreases b.len(),
{
    if b.len() == 0 {
        0
    } else {
        bytes_value(b.drop_last()) * 256 + b.last() as nat
    }
}

/// Two to the `bits`, for the bit counts a decoder can leave pending.
pub open spec fn pending_unit(bits: u32) -> nat {
    if bits == 0 {
        1
    } else if bits == 2 {
        4
    } else if bits == 4 {
        16
    } else {
        64
    }
}

proof fn lemma_fold_value(s: Seq<u8>, n: int)
    requires
        0 <= n,
    ensures
        b64_fold(s, n) is Some <==> sextet_value(s, n) is Some,
        b64_fold(s, n) matches Some((buf, bits, out)) ==> (bits == 0 || bits == 2 || bits == 4 || bits == 6)
            && bytes_value(out) * pending_unit(bits) + (buf as nat) % pending_unit(bits) == sextet_value(
            s,
            n,
        )->0,
    decreases n,
{
    if n == 0 {
        assert(bytes_value(Seq::<u8>::empty()) == 0);
        assert(b64_fold(s, 0) == Some((0u32, 0u32, Seq::<u8>::empty())));
        assert(sextet_value(s, 0) == Some(0nat));
        assert(bytes_value(Seq::<u8>::empty()) * pending_unit(0) + (0u32 as nat) % pending_unit(0) == 0);
    }
    if n > 0 {
        lemma_fold_value(s, n - 1);
        match b64_fold(s, n - 1) {
            None => {},
            Some((buf, bits, out)) => match b64_val(s[n - 1]) {
                None => {},
                Some(v) => {
                    let x = sextet_value(s, n - 1)->0;
                    let e = bytes_value(out);
                    let buf2 = ((buf << 6u32) | v) as u32;
                    assert(v < 64);
                    if bits == 0 {
                        assert(buf2 % 64 == v) by (bit_vector)
                            requires
                                buf2 == ((buf << 6u32) | v) as u32,
                                v < 64,
                        ;
                        assert((buf as nat) % 1 == 0);
                        assert(e * 1 == e);
                        assert(x == e);
                        assert(b64_fold(s, n) == Some((buf2, 6u32, out)));
                        assert(sextet_value(s, n) == Some(x * 64 + v as nat));
                        assert(pending_unit(6) == 64);
                        assert(bytes_value(out) * pending_unit(6) + (buf2 as nat) % pending_unit(6) == x * 64 + v as nat);
                    } else if bits == 2 {
                        let byte = (buf2 >> 0u32) as u8;
                        assert(byte as u32 == (buf % 4) * 64 + v) by (bit_vector)
                            requires
                                buf2 == ((buf << 6u32) | v) as u32,
                                byte == (buf2 >> 0u32) as u8,
                                v < 64,
                        ;
                        let out2 = out.push(byte);
                        assert(out2.drop_last() =~= out);
                        assert(bytes_value(out2) == e * 256 + byte as nat);
                        assert(e * 4 + (buf as nat) % 4 == x);
                        assert((e * 256 + ((buf as nat) % 4) * 64 + v as nat) == (e * 4 + (buf as nat) % 4) * 64 + v as nat)
                            by (nonlinear_arith);
                        assert((buf2 as nat) % 1 == 0);
                        assert(b64_fold(s, n) == Some((buf2, 0u32, out2)));
                        assert(sextet_value(s, n) == Some(x * 64 + v as nat));
                        assert(bytes_value(out2) * 1 == bytes_value(out2)) by (nonlinear_arith);
                        assert(bytes_value(out2) * pending_unit(0) + (buf2 as nat) % pending_unit(0) == x * 64 + v as nat);
                    } else if bits == 4 {
                        let byte = (buf2 >> 2u32) as u8;
                        assert(byte as u32 == (buf % 16) * 16 + v / 4 && buf2 % 4 == v % 4) by (bit_vector)
                            requires
                                buf2 == ((buf << 6u32) | v) as u32,
                                byte == (buf2 >> 2u32) as u8,
                                v < 64,
                        ;
                        let out2 = out.push(byte);
                        assert(out2.drop_last() =~= out);
                        assert(bytes_value(out2) == e * 256 + byte as nat);
                        assert(e * 16 + (buf as nat) % 16 == x);
                        assert((e * 256 + ((buf as nat) % 16) * 16 + (v as nat) / 4) * 4 + (v as nat) % 4 == (e * 16 + (
                        buf as nat) % 16) * 64 + v as nat) by (nonlinear_arith);
                        assert(b64_fold(s, n) == Some((buf2, 2u32, out2)));
                        assert(bytes_value(out2) * pending_unit(2) + (buf2 as nat) % pending_unit(2) == x * 64 + v as nat);
                        assert(sextet_value(s, n) == Some(x * 64 + v as nat));
                    } else {
                        assert(bits == 6);
                        let byte = (buf2 >> 4u32) as u8;
                        assert(byte as u32 == (buf % 64) * 4 + v / 16 && buf2 % 16 == v % 16) by (bit_vector)
                            requires
                                buf2 == ((buf << 6u32) | v) as u32,
                                byte == (buf2 >> 4u32) as u8,
                                v < 64,
                        ;
                        let out2 = out.push(byte);
                        assert(out2.drop_last() =~= out);
                        assert(bytes_value(out2) == e * 256 + byte as nat);
                        assert(e * 64 + (buf as nat) % 64 == x);
                        assert((e * 256 + ((buf as nat) % 64) * 4 + (v as nat) / 16) * 16 + (v as nat) % 16 == (e * 64 + (
                        buf as nat) % 64) * 64 + v as nat) by (nonlinear_arith);
                        assert(b64_fold(s, n) == Some((buf2, 4u32, out2)));
                        assert(bytes_value(out2) * pending_unit(4) + (buf2 as nat) % pending_unit(4) == x * 64 + v as nat);
                        assert(sextet_value(s, n) == Some(x * 64 + v as nat));
                    }
                },
            },
        }
    }
}

/// Decoding, said directly: it succeeds exactly when every character (before
/// any trailing `=`) is in the alphabet; the result has six bits per character
/// rounded down to whole bytes, and read as one big-endian number it is the
/// characters' six-bit digits read the same way, with the leftover low bits
/// dropped.
pub proof fn lemma_decode_is_base64(s: Seq<u8>)
    ensures
        b64url_spec(s) is Some <==> sextet_value(strip_padding(s), strip_padding(s).len() as int) is Some,
        b64url_spec(s) matches Some(out) ==> out.len() == (6 * strip_padding(s).len()) / 8 && bytes_value(out)
            == sextet_value(strip_padding(s), strip_padding(s).len() as int)->0 / pending_unit(
            ((6 * strip_padding(s).len()) % 8) as u32,
        ),
{
    let t = strip_padding(s);
    let n = t.len() as int;
    lemma_fold_value(t, n);
    lemma_fold_bits(t, n);
    match b64_fold(t, n) {
        Some((buf, bits, out)) => {
            let u = pending_unit(bits);
            let e = bytes_value(out);
            let l = (buf as nat) % u;
            assert(u > 0);
            assert(l < u);
            assert((e * u + l) / u == e) by (nonlinear_arith)
                requires
                    u > 0,
                    l < u,
            ;
        },
        None => {},
    }
}

/// The segment between the first and second `.` of `s` (the second piece of
/// `s.split('.')`), if `s` has a `.`.
pub open spec fn second_segment(s: Seq<char>) -> Option<Seq<char>> {
    if exists|i: int| 0 <= i < s.len() && s[i] == '.' {
        let i = choose|i: int| 0 <= i < s.len() && s[i] == '.' && forall|j: int| 0 <= j < i ==> s[j] != '.';
        let rest = s.skip(i + 1);
        Some(crate::text::before_any(rest, '.', '.'))
    } else {
        None
    }
}

/// The JWT payload segment of a token (its second `.`-separated piece), decoded
/// from base64url. `None` for tokens without that segment, or whose segment is
/// not base64url.
pub fn jwt_payload(token: &str) -> (r: Option<Vec<u8>>)
    ensures
        match second_segment(token@) {
            None => r is None,
            Some(seg) => match b64url_spec(vstd::utf8::encode_utf8(seg)) {
                Some(b) => r matches Some(v) && v@ == b,
                None => r is None,
            },
        },
{
    let v = chars_of(token);
    let mut i: usize = 0;
    while i < v.len() && v[i] != '.'
        invariant
            i <= v.len(),
            forall|j: int| 0 <= j < i ==> v@[j] != '.',
        decreases v.len() - i,
    {
        i += 1;
    }
    if i == v.len() {
        return None;
    }
    proof {
        let c = choose|k: int| 0 <= k < v@.len() && v@[k] == '.' && forall|j: int| 0 <= j < k ==> v@[j] != '.';
        assert(c == i) by {
            if c < i {
            } else if c > i {
            }
        }
    }
    let mut rest: Vec<char> = Vec::new();
    crate::text::extend_chars(&mut rest, &v, i + 1, v.len());
    assert(rest@ == v@.skip(i + 1));
    let seg = crate::text::prefix_before_any(&rest, '.', '.');
    let seg_s = string_of_all(&seg);
    base64url_decode(seg_s.as_str())
}

/// Best display name: the descriptor's name (freshest) when non-empty, then the
/// token's name claim when non-empty, then the `sub` itself when non-empty.
pub open spec fn display_name_spec(descriptor_name: Option<Seq<char>>, claims: Claims) -> Option<Seq<char>> {
    if descriptor_name matches Some(n) && n.len() > 0 {
        descriptor_name
    } else if claims.name matches Some(n) && n@.len() > 0 {
        Some(claims.name->0@)
    } else if claims.sub@.len() > 0 {
        Some(claims.sub@)
    } else {
        None
    }
}

/// The stable identity, if the token's claims were readable (non-empty `sub`).
pub fn sub_of(claims: &Claims) -> (r: Option<&str>)
    ensures
        if claims.sub@.len() > 0 {
            r matches Some(s) && s@ == claims.sub@
        } else {
            r is None
        },
{
    if chars_of(claims.sub.as_str()).len() > 0 {
        Some(claims.sub.as_str())
    } else {
        None
    }
}

/// Best display name: descriptor (freshest) → token claim → the sub itself.
pub fn display_name<'a>(descriptor: Option<&'a DescriptorIdentity>, claims: &'a Claims) -> (r: Option<&'a str>)
    ensures
        match r {
            Some(s) => display_name_spec(
                match descriptor {
                    Some(d) => Some(d.name@),
                    None => None,
                },
                *claims,
            ) == Some(s@),
            None => display_name_spec(
                match descriptor {
                    Some(d) => Some(d.name@),
                    None => None,
                },
                *claims,
            ) is None,
        },
{
    if let Some(d) = descriptor {
        if chars_of(d.name.as_str()).len() > 0 {
            return Some(d.name.as_str());
        }
    }
    if let Some(n) = &claims.name {
        if chars_of(n.as_str()).len() > 0 {
            return Some(n.as_str());
        }
    }
    sub_of(claims)
}

/// Whether a token is blank (empty or whitespace only) — no passport: an
/// anonymous traveler.
pub fn is_blank(token: &str) -> (r: bool)
    ensures
        r == (trim(token@).len() == 0),
{
    let v = chars_of(token);
    crate::text::trimmed(&v).len() == 0
}

/// The value of a hexadecimal digit.
pub open spec fn hex_digit_value(c: char) -> Option<u8> {
    if '0' <= c && c <= '9' {
        Some((c as int - 48) as u8)
    } else if 'a' <= c && c <= 'f' {
        Some((c as int - 87) as u8)
    } else if 'A' <= c && c <= 'F' {
        Some((c as int - 55) as u8)
    } else {
        None
    }
}

/// `u8::from_str_radix` on two characters in base 16: two hex digits, or a
/// `+` and one.
pub open spec fn hex_pair(a: char, b: char) -> Option<u8> {
    if a == '+' {
        hex_digit_value(b)
    } else {
        match (hex_digit_value(a), hex_digit_value(b)) {
            (Some(x), Some(y)) => Some((x * 16 + y) as u8),
            _ => None,
        }
    }
}

/// The red, green and blue bytes of a descriptor color `#rrggbb`: a `#`
/// followed by six ASCII characters read in pairs.
pub open spec fn color_spec(s: Seq<char>) -> Option<(u8, u8, u8)> {
    if s.len() == 7 && s[0] == '#' && (forall|i: int| 1 <= i < 7 ==> (#[trigger] s[i]) < '\u{80}') {
        match (hex_pair(s[1], s[2]), hex_pair(s[3], s[4]), hex_pair(s[5], s[6])) {
            (Some(r), Some(g), Some(b)) => Some((r, g, b)),
            _ => None,
        }
    } else {
        None
    }
}

fn hex_digit(c: char) -> (r: Option<u8>)
    ensures
        r == hex_digit_value(c),
{
    if '0' <= c && c <= '9' {
        Some(((c as u32) - 48) as u8)
    } else if 'a' <= c && c <= 'f' {
        Some(((c as u32) - 87) as u8)
    } else if 'A' <= c && c <= 'F' {
        Some(((c as u32) - 55) as u8)
    } else {
        None
    }
}

fn pair(a: char, b: char) -> (r: Option<u8>)
    ensures
        r == hex_pair(a, b),
{
    if a == '+' {
        hex_digit(b)
    } else {
        match (hex_digit(a), hex_digit(b)) {
            (Some(x), Some(y)) => Some(x * 16 + y),
            _ => None,
        }
    }
}

/// The red, green and blue bytes of a descriptor color `#rrggbb`, or `None`
/// when it is not one.
pub fn color_bytes(hex: &str) -> (r: Option<(u8, u8, u8)>)
    ensures
        r == color_spec(hex@),
{
    let v = chars_of(hex);
    if v.len() != 7 || v[0] != '#' {
        return None;
    }
    let mut i: usize = 1;
    while i < 7
        invariant
            1 <= i <= 7,
            v.len() == 7,
            v@ == hex@,
            forall|k: int| 1 <= k < i ==> (#[trigger] v@[k]) < '\u{80}',
        decreases 7 - i,
    {
        if v[i] >= '\u{80}' {
            assert(!(hex@[i as int] < '\u{80}'));
            return None;
        }
        i += 1;
    }
    match (pair(v[1], v[2]), pair(v[3], v[4]), pair(v[5], v[6])) {
        (Some(r), Some(g), Some(b)) => Some((r, g, b)),
        _ => None,
    }
}

} // verus!
