//! UUIDs as 128-bit values: the canonical hyphenated lowercase text and
//! parsing (by the `uuid` crate).

use vstd::prelude::*;
use crate::chars::string_of;
use crate::hex::{hex_char, hex_digit};

verus! {

/// The value of a UUID text in any of the forms `uuid::Uuid::parse_str`
/// reads: 32 hex digits; the 8-4-4-4-12 hyphenated form; that form in
/// braces; or that form after `urn:uuid:` (the prefix in either case).
/// Hex digits may be of either case. `None` for any other text.
pub open spec fn parsed_uuid(text: Seq<char>) -> Option<u128> {
    if is_simple_hex(text) {
        Some(hex_digits_value(text) as u128)
    } else if is_hyphenated_hex(text) {
        Some(hyphenated_value(text) as u128)
    } else if is_braced_hex(text) {
        Some(hyphenated_value(text.subrange(1, 37)) as u128)
    } else if is_urn_hex(text) {
        Some(hyphenated_value(text.subrange(9, 45)) as u128)
    } else {
        None
    }
}

/// Whether `s` is 32 hex digits of either case.
pub open spec fn is_simple_hex(s: Seq<char>) -> bool {
    &&& s.len() == 32
    &&& forall|i: int| 0 <= i < 32 ==> is_hex_char(#[trigger] s[i])
}

/// Whether `s` is the hyphenated form in braces.
pub open spec fn is_braced_hex(s: Seq<char>) -> bool {
    &&& s.len() == 38
    &&& s[0] == '{'
    &&& s[37] == '}'
    &&& is_hyphenated_hex(s.subrange(1, 37))
}

/// The lowercase of an ASCII letter; any other character unchanged.
pub open spec fn ascii_lower(c: char) -> char {
    if 'A' <= c && c <= 'Z' {
        ((c as int) + 32) as char
    } else {
        c
    }
}

/// `urn:uuid:`.
pub open spec fn urn_prefix() -> Seq<char> {
    seq!['u', 'r', 'n', ':', 'u', 'u', 'i', 'd', ':']
}

/// Whether `s` is the hyphenated form after `urn:uuid:`, the prefix in
/// either case.
pub open spec fn is_urn_hex(s: Seq<char>) -> bool {
    &&& s.len() == 45
    &&& forall|i: int| 0 <= i < 9 ==> ascii_lower(#[trigger] s[i]) == urn_prefix()[i]
    &&& is_hyphenated_hex(s.subrange(9, 45))
}

/// `16` to the power `k`.
pub open spec fn pow16(k: nat) -> nat
    decreases k,
{
    if k == 0 {
        1
    } else {
        16 * pow16((k - 1) as nat)
    }
}

/// Hex digit `k` (counting from the least significant) of `v`.
pub open spec fn nibble(v: nat, k: nat) -> nat {
    (v / pow16(k)) % 16
}

/// The 32 hex digits of `v`, most significant first.
pub open spec fn hex_digits32(v: u128) -> Seq<char> {
    Seq::new(32, |i: int| hex_char(nibble(v as nat, (31 - i) as nat) as int))
}

/// 32 hex digits in the 8-4-4-4-12 layout.
pub open spec fn hyphenate(d: Seq<char>) -> Seq<char> {
    d.subrange(0, 8) + seq!['-'] + d.subrange(8, 12) + seq!['-'] + d.subrange(12, 16) + seq!['-']
        + d.subrange(16, 20) + seq!['-'] + d.subrange(20, 32)
}

/// The canonical text of a UUID: lowercase, hyphenated.
pub open spec fn uuid_text(v: u128) -> Seq<char> {
    hyphenate(hex_digits32(v))
}

/// A hex digit of either case.
pub open spec fn is_hex_char(c: char) -> bool {
    ('0' <= c && c <= '9') || ('a' <= c && c <= 'f') || ('A' <= c && c <= 'F')
}

/// The value of a hex digit of either case.
pub open spec fn hex_char_value(c: char) -> nat {
    if '0' <= c && c <= '9' {
        (c as int - 48) as nat
    } else if 'a' <= c && c <= 'f' {
        (c as int - 87) as nat
    } else {
        (c as int - 55) as nat
    }
}

/// The value of a string of hex digits, most significant first.
pub open spec fn hex_digits_value(d: Seq<char>) -> nat
    decreases d.len(),
{
    if d.len() == 0 {
        0
    } else {
        hex_digits_value(d.drop_last()) * 16 + hex_char_value(d.last())
    }
}

/// Whether `s` is 36 characters: hex digits of either case with hyphens at
/// positions 8, 13, 18 and 23.
pub open spec fn is_hyphenated_hex(s: Seq<char>) -> bool {
    &&& s.len() == 36
    &&& forall|i: int|
        0 <= i < 36 ==> if i == 8 || i == 13 || i == 18 || i == 23 {
            s[i] == '-'
        } else {
            is_hex_char(#[trigger] s[i])
        }
}

/// The hex digits of hyphenated text, hyphens removed.
pub open spec fn unhyphenate(s: Seq<char>) -> Seq<char> {
    s.subrange(0, 8) + s.subrange(9, 13) + s.subrange(14, 18) + s.subrange(19, 23) + s.subrange(
        24,
        36,
    )
}

/// The 128-bit value that hyphenated hex text spells.
pub open spec fn hyphenated_value(s: Seq<char>) -> nat {
    hex_digits_value(unhyphenate(s))
}

/// `uuid::Uuid::parse_str`, keeping the value (`as_u128`, the 32 hex
/// digits read most significant first).
///
/// Claimed of the crate, as its parser reads the UTF-8 bytes: it accepts
/// exactly the four forms of `parsed_uuid` and nothing else. Each form
/// checks every byte against ASCII (hex digits, hyphens, braces, the
/// prefix), so a text with a character outside ASCII is refused, and for
/// an ASCII text bytes and characters coincide.
#[verifier::external_body]
pub(crate) fn parse_uuid(text: &str) -> (r: Option<u128>)
    ensures
        r == parsed_uuid(text@),
{
    uuid::Uuid::parse_str(text).ok().map(|u| u.as_u128())
}

proof fn lemma_pow16_step(k: nat)
    ensures
        pow16(k + 1) == pow16(k) * 16,
        pow16(k) > 0,
    decreases k,
{
    if k > 0 {
        lemma_pow16_step((k - 1) as nat);
    }
}

/// The canonical text of `v`.
pub fn uuid_string(v: u128) -> (s: String)
    ensures
        s@ == uuid_text(v),
{
    let mut digits: Vec<char> = vec!['0'; 32];
    let mut x: u128 = v;
    let mut k: usize = 0;
    assert(pow16(0) == 1);
    assert((v as nat) / 1 == v as nat);
    while k < 32
        invariant
            k <= 32,
            digits@.len() == 32,
            x as nat == (v as nat) / pow16(k as nat),
            forall|j: int|
                32 - k <= j < 32 ==> #[trigger] digits@[j] == hex_char(
                    nibble(v as nat, (31 - j) as nat) as int,
                ),
        decreases 32 - k,
    {
        let d = (x % 16) as u8;
        digits.set(31 - k, hex_digit(d));
        proof {
            lemma_pow16_step(k as nat);
            vstd::arithmetic::div_mod::lemma_div_denominator(v as int, pow16(k as nat) as int, 16);
        }
        x = x / 16;
        k = k + 1;
    }
    assert(digits@ =~= hex_digits32(v));
    let mut out: Vec<char> = Vec::new();
    for i in 0..32usize
        invariant
            digits@.len() == 32,
            out@ == hyphenate(digits@).take(
                (i + (if i > 8 { 1int } else { 0 }) + (if i > 12 { 1int } else { 0 }) + (if i > 16 {
                    1int
                } else {
                    0
                }) + (if i > 20 { 1int } else { 0 })) as int,
            ),
    {
        if i == 8 || i == 12 || i == 16 || i == 20 {
            out.push('-');
        }
        out.push(digits[i]);
        assert(out@ =~= hyphenate(digits@).take(
            (i + 1 + (if i + 1 > 8 { 1int } else { 0 }) + (if i + 1 > 12 { 1int } else { 0 }) + (if i
                + 1 > 16 { 1int } else { 0 }) + (if i + 1 > 20 { 1int } else { 0 })) as int,
        ));
    }
    assert(out@ =~= hyphenate(digits@));
    string_of(out.as_slice())
}

proof fn lemma_hex_char_reads_back(n: nat)
    requires
        n < 16,
    ensures
        is_hex_char(hex_char(n as int)),
        hex_char_value(hex_char(n as int)) == n,
{
}

/// The first `k` hex digits of `v` spell `v / 16^(32 - k)`.
proof fn lemma_digits_prefix_value(v: u128, k: nat)
    requires
        k <= 32,
        pow16(32) == 0x1_0000_0000_0000_0000_0000_0000_0000_0000,
    ensures
        hex_digits_value(hex_digits32(v).take(k as int)) == (v as nat) / pow16((32 - k) as nat),
    decreases k,
{
    let d = hex_digits32(v);
    if k == 0 {
        assert(d.take(0) =~= Seq::<char>::empty());
        vstd::arithmetic::div_mod::lemma_basic_div(v as int, pow16(32) as int);
    } else {
        let j = (k - 1) as nat;
        lemma_digits_prefix_value(v, j);
        let q = (v as nat) / pow16((32 - k) as nat);
        lemma_pow16_step((32 - k) as nat);
        vstd::arithmetic::div_mod::lemma_div_denominator(v as int, pow16((32 - k) as nat) as int, 16);
        vstd::arithmetic::div_mod::lemma_fundamental_div_mod(q as int, 16);
        lemma_hex_char_reads_back(nibble(v as nat, (32 - k) as nat));
        assert(d.take(k as int).drop_last() =~= d.take(j as int));
        assert(d.take(k as int).last() == d[j as int]);
        assert(d[j as int] == hex_char(nibble(v as nat, (32 - k) as nat) as int));
        assert(pow16((32 - j) as nat) == pow16((32 - k) as nat) * 16);
        assert((v as nat) / pow16((32 - j) as nat) == q / 16);
        assert(nibble(v as nat, (32 - k) as nat) == q % 16);
        assert(hex_digits_value(d.take(k as int)) == (q / 16) * 16 + q % 16);
    }
}

/// The canonical text of `v` is hyphenated hex spelling `v`, so
/// [`parse_uuid`] reads it back as `v`.
pub proof fn lemma_uuid_text_reads_back(v: u128)
    ensures
        is_hyphenated_hex(uuid_text(v)),
        hyphenated_value(uuid_text(v)) == v as nat,
{
    let d = hex_digits32(v);
    let t = uuid_text(v);
    assert forall|i: int| 0 <= i < 32 implies is_hex_char(#[trigger] d[i]) by {
        lemma_hex_char_reads_back(nibble(v as nat, (31 - i) as nat));
    }
    assert forall|i: int| 0 <= i < 36 implies if i == 8 || i == 13 || i == 18 || i == 23 {
        t[i] == '-'
    } else {
        is_hex_char(#[trigger] t[i])
    } by {
        if i < 8 {
            assert(t[i] == d[i]);
        } else if 8 < i < 13 {
            assert(t[i] == d[i - 1]);
        } else if 13 < i < 18 {
            assert(t[i] == d[i - 2]);
        } else if 18 < i < 23 {
            assert(t[i] == d[i - 3]);
        } else if 23 < i {
            assert(t[i] == d[i - 4]);
        }
    }
    assert(unhyphenate(t) =~= d);
    assert(pow16(32) == 0x1_0000_0000_0000_0000_0000_0000_0000_0000) by {
        reveal_with_fuel(pow16, 33);
    }
    lemma_digits_prefix_value(v, 32);
    assert(d.take(32) =~= d);
    assert(pow16(0) == 1);
    assert((v as nat) / 1 == v as nat);
}

} // verus!
