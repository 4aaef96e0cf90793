//! The `CCSSNNNN` structured id scheme: category / subcategory / number packed
//! into a `u32`, written as an 8-digit decimal string.

use vstd::prelude::*;
use crate::text::{
    all_digits, digits_value, lemma_digits_value_nonneg,
    chars_of, dec_digits, decimal, is_ascii_digit, lemma_dec_digits_props,
    lemma_digits_value_zero_prefix, parse_u32, parse_u32_chars, push_all, push_char,
    unsigned_digits, zero_pad,
};

verus! {

/// A structured decimal ID encoding category, subcategory, and item number.
#[derive(Debug, Clone, Copy, PartialEq, Eq, Hash)]
pub struct StructuredId(pub u32);

/// High-level domain grouping derived from category ranges.
#[derive(Debug, Clone, Copy, PartialEq, Eq, Hash)]
pub enum IdDomain {
    /// Categories 10-19: player characters, humanoid NPCs, creatures.
    Actors,
    /// Categories 20-29: weapons, armor, accessories, clothing, consumables, materials.
    Items,
    /// Categories 30-39: active and passive skills.
    Skills,
    /// Categories 40-49: doors, containers, levers, portals, signs.
    World,
    /// Category outside the defined ranges.
    Unknown,
}

/// The packed value of a category / subcategory / number triple.
pub open spec fn encode(category: int, subcategory: int, number: int) -> int {
    category * 1_000_000 + subcategory * 10_000 + number
}

/// Whether the components are in range (category 1-99, subcategory 0-99, number 1-9999).
pub open spec fn components_valid(category: int, subcategory: int, number: int) -> bool {
    1 <= category <= 99 && 0 <= subcategory <= 99 && 1 <= number <= 9999
}

/// The category read from a raw value (the quotient by one million, kept to a byte).
pub open spec fn raw_category(v: u32) -> u8 {
    (v / 1_000_000) as u8
}

pub open spec fn raw_subcategory(v: u32) -> u8 {
    ((v / 10_000) % 100) as u8
}

pub open spec fn raw_number(v: u32) -> u16 {
    (v % 10_000) as u16
}

/// A raw value is a valid id when it has at most eight digits, its category
/// is 1-99 and its number 1-9999.
pub open spec fn raw_valid(v: u32) -> bool {
    v < 100_000_000 && 1 <= raw_category(v) <= 99 && 1 <= raw_number(v) <= 9999
}

pub open spec fn domain_of(category: u8) -> IdDomain {
    if 10 <= category <= 19 {
        IdDomain::Actors
    } else if 20 <= category <= 29 {
        IdDomain::Items
    } else if 30 <= category <= 39 {
        IdDomain::Skills
    } else if 40 <= category <= 49 {
        IdDomain::World
    } else {
        IdDomain::Unknown
    }
}

/// The canonical text of a raw value: its decimal digits, zero-padded to eight.
pub open spec fn id_text(v: u32) -> Seq<char> {
    zero_pad(dec_digits(v as nat), 8)
}

impl StructuredId {
    /// Create a new structured ID from components (all in range).
    pub fn new(category: u8, subcategory: u8, number: u16) -> (r: Self)
        requires
            components_valid(category as int, subcategory as int, number as int),
        ensures
            r.0 as int == encode(category as int, subcategory as int, number as int),
    {
        Self(category as u32 * 1_000_000 + subcategory as u32 * 10_000 + number as u32)
    }

    /// Try to create a structured ID, returning `None` if components are out of range.
    pub fn try_new(category: u8, subcategory: u8, number: u16) -> (r: Option<Self>)
        ensures
            r is Some <==> components_valid(category as int, subcategory as int, number as int),
            r matches Some(id) ==> id.0 as int == encode(
                category as int,
                subcategory as int,
                number as int,
            ),
    {
        if !(1 <= category && category <= 99) || subcategory > 99 || !(1 <= number && number
            <= 9999) {
            return None;
        }
        Some(Self(category as u32 * 1_000_000 + subcategory as u32 * 10_000 + number as u32))
    }

    /// Extract the category (CC) component.
    pub fn category(&self) -> (r: u8)
        ensures
            r == raw_category(self.0),
    {
        (self.0 / 1_000_000) as u8
    }

    /// Extract the subcategory (SS) component.
    pub fn subcategory(&self) -> (r: u8)
        ensures
            r == raw_subcategory(self.0),
    {
        ((self.0 / 10_000) % 100) as u8
    }

    /// Extract the item number (NNNN) component.
    pub fn number(&self) -> (r: u16)
        ensures
            r == raw_number(self.0),
    {
        (self.0 % 10_000) as u16
    }

    /// Determine the domain based on category range.
    pub fn domain(&self) -> (r: IdDomain)
        ensures
            r == domain_of(raw_category(self.0)),
    {
        let c = self.category();
        if 10 <= c && c <= 19 {
            IdDomain::Actors
        } else if 20 <= c && c <= 29 {
            IdDomain::Items
        } else if 30 <= c && c <= 39 {
            IdDomain::Skills
        } else if 40 <= c && c <= 49 {
            IdDomain::World
        } else {
            IdDomain::Unknown
        }
    }

    /// Format as zero-padded 8-digit string "CCSSNNNN".
    pub fn to_id_string(&self) -> (r: String)
        ensures
            r@ == id_text(self.0),
    {
        let digits = decimal(self.0 as u64);
        let mut out = String::new();
        let mut k = digits.len();
        while k < 8
            invariant
                digits@ == dec_digits(self.0 as nat),
                digits.len() <= k <= 8 || (k == digits.len()),
                out@ == Seq::new((k - digits.len()) as nat, |i: int| '0'),
            decreases 8 - k,
        {
            push_char(&mut out, '0');
            k += 1;
            assert(out@ == Seq::new((k - digits.len()) as nat, |i: int| '0'));
        }
        push_all(&mut out, &digits);
        proof {
            if digits.len() >= 8 {
                assert(out@ == digits@);
            }
        }
        out
    }

    /// Parse from an 8-digit string "CCSSNNNN" (any decimal `u32` text is read,
    /// then validated as by [`StructuredId::from_raw`]).
    pub fn parse(s: &str) -> (r: Option<Self>)
        ensures
            r == (match parse_u32(s@) {
                Some(v) => if raw_valid(v) {
                    Some(StructuredId(v))
                } else {
                    None
                },
                None => None,
            }),
    {
        let v = chars_of(s);
        let val = parse_u32_chars(&v)?;
        Self::from_raw(val)
    }

    /// Create from a raw `u32`, validating the encoded components.
    pub fn from_raw(val: u32) -> (r: Option<Self>)
        ensures
            r is Some <==> raw_valid(val),
            r matches Some(id) ==> id.0 == val,
    {
        if val >= 100_000_000 {
            return None;
        }
        let id = Self(val);
        let cat = id.category();
        let num = id.number();
        if !(1 <= cat && cat <= 99) || !(1 <= num && num <= 9999) {
            return None;
        }
        Some(id)
    }
}

/// Components in range pack into a valid id that unpacks to the same components.
pub proof fn lemma_components_round_trip(category: u8, subcategory: u8, number: u16)
    requires
        components_valid(category as int, subcategory as int, number as int),
    ensures
        ({
            let v = encode(category as int, subcategory as int, number as int) as u32;
            &&& 0 <= encode(category as int, subcategory as int, number as int) <= u32::MAX
            &&& raw_category(v) == category
            &&& raw_subcategory(v) == subcategory
            &&& raw_number(v) == number
            &&& raw_valid(v)
        }),
{
    let c = category as int;
    let s = subcategory as int;
    let n = number as int;
    let e = encode(c, s, n);
    assert(e == c * 1_000_000 + s * 10_000 + n);
    assert(e / 1_000_000 == c) by (nonlinear_arith)
        requires
            e == c * 1_000_000 + s * 10_000 + n,
            0 <= s <= 99,
            0 <= n <= 9999,
    ;
    assert(e / 10_000 == c * 100 + s) by (nonlinear_arith)
        requires
            e == c * 1_000_000 + s * 10_000 + n,
            0 <= n <= 9999,
    ;
    assert((c * 100 + s) % 100 == s) by (nonlinear_arith)
        requires
            0 <= s <= 99,
            c >= 0,
    ;
    assert(e % 10_000 == n) by (nonlinear_arith)
        requires
            e == c * 1_000_000 + s * 10_000 + n,
            0 <= n <= 9999,
            c >= 0,
            s >= 0,
    ;
}

/// Every valid raw value is the packing of its own components, and those
/// components are in range.
pub proof fn lemma_valid_raw_is_encoded(v: u32)
    requires
        raw_valid(v),
    ensures
        components_valid(
            raw_category(v) as int,
            raw_subcategory(v) as int,
            raw_number(v) as int,
        ),
        encode(raw_category(v) as int, raw_subcategory(v) as int, raw_number(v) as int) == v,
{
    let x = v as int;
    assert(x / 1_000_000 < 100) by (nonlinear_arith)
        requires
            0 <= x < 100_000_000,
    ;
    assert(x == (x / 1_000_000) * 1_000_000 + ((x / 10_000) % 100) * 10_000 + x % 10_000)
        by (nonlinear_arith)
        requires
            0 <= x,
    ;
}

/// The canonical text of any raw value reads back as that value.
pub proof fn lemma_id_text_parses_back(v: u32)
    ensures
        parse_u32(id_text(v)) == Some(v),
{
    lemma_dec_digits_props(v as nat);
    let d = dec_digits(v as nat);
    if d.len() < 8 {
        let z = (8 - d.len()) as nat;
        lemma_digits_value_zero_prefix(z, d);
        assert(zero_pad(d, 8) == Seq::new(z, |i: int| '0') + d);
    }
    let t = id_text(v);
    assert(t.len() > 0);
    assert(t[0] != '+') by {
        if d.len() < 8 {
            let z = (8 - d.len()) as nat;
            assert(t[0] == '0');
        } else {
            assert(is_ascii_digit(d[0]));
        }
    }
    assert(unsigned_digits(t) == t);
}

/// Ten to the power `k`.
pub open spec fn pow10(k: nat) -> nat
    decreases k,
{
    if k == 0 {
        1
    } else {
        10 * pow10((k - 1) as nat)
    }
}

proof fn lemma_digits_value_concat(a: Seq<char>, b: Seq<char>)
    ensures
        digits_value(a + b) == digits_value(a) * pow10(b.len()) + digits_value(b),
    decreases b.len(),
{
    if b.len() == 0 {
        assert(a + b =~= a);
        assert(pow10(0) == 1);
        assert(digits_value(a) * 1 == digits_value(a));
    } else {
        let b1 = b.drop_last();
        lemma_digits_value_concat(a, b1);
        assert((a + b).drop_last() =~= a + b1);
        assert((a + b).last() == b.last());
        let x = digits_value(a);
        let p = pow10(b1.len());
        let y = digits_value(b1);
        let d = b.last() as int - 48;
        assert(pow10(b.len()) == 10 * p);
        assert(digits_value(a + b) == digits_value(a + b1) * 10 + d);
        assert(digits_value(b) == y * 10 + d);
        assert((x * p + y) * 10 + d == x * (10 * p) + (y * 10 + d)) by (nonlinear_arith);
    }
}

proof fn lemma_all_digits_concat(a: Seq<char>, b: Seq<char>)
    requires
        all_digits(a),
        all_digits(b),
    ensures
        all_digits(a + b),
{
    assert forall|i: int| 0 <= i < (a + b).len() implies is_ascii_digit(#[trigger] (a + b)[i]) by {
        if i < a.len() {
            assert((a + b)[i] == a[i]);
        } else {
            assert((a + b)[i] == b[i - a.len()]);
        }
    }
}

proof fn lemma_all_digits_drop_last(a: Seq<char>)
    requires
        all_digits(a),
        a.len() > 0,
    ensures
        all_digits(a.drop_last()),
{
    assert forall|i: int| 0 <= i < a.drop_last().len() implies is_ascii_digit(#[trigger] a.drop_last()[i]) by {
        assert(a.drop_last()[i] == a[i]);
    }
}

/// Two digit strings of one length with one value are the same string.
proof fn lemma_digits_unique(a: Seq<char>, b: Seq<char>)
    requires
        all_digits(a),
        all_digits(b),
        a.len() == b.len(),
        digits_value(a) == digits_value(b),
    ensures
        a == b,
    decreases a.len(),
{
    if a.len() == 0 {
        assert(a =~= b);
    } else {
        lemma_all_digits_drop_last(a);
        lemma_all_digits_drop_last(b);
        lemma_digits_value_nonneg(a.drop_last());
        lemma_digits_value_nonneg(b.drop_last());
        let x = digits_value(a.drop_last());
        let y = digits_value(b.drop_last());
        assert(is_ascii_digit(a[a.len() - 1]));
        assert(is_ascii_digit(b[b.len() - 1]));
        let da = a.last() as int - 48;
        let db = b.last() as int - 48;
        assert(0 <= da < 10 && 0 <= db < 10);
        assert(x * 10 + da == y * 10 + db);
        assert(x == y && da == db) by (nonlinear_arith)
            requires
                x * 10 + da == y * 10 + db,
                0 <= da < 10,
                0 <= db < 10,
                x >= 0,
                y >= 0,
        ;
        lemma_digits_unique(a.drop_last(), b.drop_last());
        assert(a =~= a.drop_last().push(a.last()));
        assert(b =~= b.drop_last().push(b.last()));
    }
}

proof fn lemma_dec_len(n: nat, k: nat)
    requires
        n < pow10(k),
        k >= 1,
    ensures
        dec_digits(n).len() <= k,
    decreases k,
{
    lemma_dec_digits_props(n);
    if n >= 10 {
        assert(pow10(1) == 10) by {
            assert(pow10(0) == 1);
        }
        if k == 1 {
            assert(false);
        }
        let p = pow10((k - 1) as nat);
        assert(n < 10 * p);
        assert(n / 10 < p) by (nonlinear_arith)
            requires
                n < 10 * p,
        ;
        lemma_dec_len(n / 10, (k - 1) as nat);
    }
}

/// `n` zero-padded to `w` digits, for `n` below ten to the `w`: exactly `w`
/// digits whose value is `n`.
proof fn lemma_padded(n: nat, w: nat)
    requires
        n < pow10(w),
        w >= 1,
    ensures
        zero_pad(dec_digits(n), w).len() == w,
        all_digits(zero_pad(dec_digits(n), w)),
        digits_value(zero_pad(dec_digits(n), w)) == n,
{
    lemma_dec_digits_props(n);
    lemma_dec_len(n, w);
    let d = dec_digits(n);
    if d.len() < w {
        let z = (w - d.len()) as nat;
        lemma_digits_value_zero_prefix(z, d);
    }
}

/// The canonical text of a valid id is exactly eight ASCII digits, laid out
/// as two digits of category, two of subcategory and four of number
/// (`CCSSNNNN`, each zero-padded).
pub proof fn lemma_id_text_layout(v: u32)
    requires
        raw_valid(v),
    ensures
        id_text(v).len() == 8,
        all_digits(id_text(v)),
        id_text(v) == zero_pad(dec_digits(raw_category(v) as nat), 2) + zero_pad(
            dec_digits(raw_subcategory(v) as nat),
            2,
        ) + zero_pad(dec_digits(raw_number(v) as nat), 4),
{
    lemma_valid_raw_is_encoded(v);
    reveal_with_fuel(pow10, 9);
    assert(pow10(2) == 100 && pow10(4) == 10000 && pow10(8) == 100_000_000);
    let c = raw_category(v) as nat;
    let s = raw_subcategory(v) as nat;
    let n = raw_number(v) as nat;
    lemma_padded(v as nat, 8);
    lemma_padded(c, 2);
    lemma_padded(s, 2);
    lemma_padded(n, 4);
    let a = zero_pad(dec_digits(c), 2);
    let b = zero_pad(dec_digits(s), 2);
    let e = zero_pad(dec_digits(n), 4);
    lemma_digits_value_concat(a, b);
    lemma_digits_value_concat(a + b, e);
    lemma_all_digits_concat(a, b);
    lemma_all_digits_concat(a + b, e);
    assert(digits_value(a + b + e) == (c * 100 + s) * 10000 + n);
    assert((c * 100 + s) * 10000 + n == encode(c as int, s as int, n as int)) by (nonlinear_arith);
    lemma_digits_unique(id_text(v), a + b + e);
}

} // verus!
