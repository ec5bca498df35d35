//! Lowercase hexadecimal encoding and case-insensitive decoding.

use vstd::prelude::*;
use crate::chars::string_push;

verus! {

/// The lowercase hex digit for a nibble `n < 16`.
pub open spec fn hex_char(n: int) -> char {
    if n < 10 {
        (48 + n) as char
    } else {
        (87 + n) as char
    }
}

/// The lowercase hex rendering of `bytes`, two characters per byte,
/// high nibble first.
pub open spec fn hex_encode(bytes: Seq<u8>) -> Seq<char> {
    Seq::new(
        2 * bytes.len(),
        |i: int|
            if i % 2 == 0 {
                hex_char((bytes[i / 2] / 16) as int)
            } else {
                hex_char((bytes[i / 2] % 16) as int)
            },
    )
}

/// Whether `c` is a lowercase hex digit.
pub open spec fn is_lower_hex_char(c: char) -> bool {
    ('0' <= c && c <= '9') || ('a' <= c && c <= 'f')
}

/// Whether every character of `s` is a lowercase hex digit.
pub open spec fn is_lower_hex(s: Seq<char>) -> bool {
    forall|i: int| 0 <= i < s.len() ==> is_lower_hex_char(#[trigger] s[i])
}

/// The value of an ASCII hex digit of either case.
pub open spec fn hex_value(c: u8) -> Option<u8> {
    if 48 <= c <= 57 {
        Some((c - 48) as u8)
    } else if 97 <= c <= 102 {
        Some((c - 87) as u8)
    } else if 65 <= c <= 70 {
        Some((c - 55) as u8)
    } else {
        None
    }
}

/// The bytes that the hex text `s` encodes, if it is an even number of
/// hex digits of either case.
pub open spec fn hex_decode(s: Seq<u8>) -> Option<Seq<u8>> {
    if s.len() % 2 == 0 && forall|i: int| 0 <= i < s.len() ==> (#[trigger] hex_value(s[i])) is Some {
        Some(
            Seq::new(
                s.len() / 2,
                |i: int| (hex_value(s[2 * i]).unwrap() * 16 + hex_value(s[2 * i + 1]).unwrap()) as u8,
            ),
        )
    } else {
        None
    }
}

/// The lowercase hex digit for `n`.
pub fn hex_digit(n: u8) -> (c: char)
    requires
        n < 16,
    ensures
        c == hex_char(n as int),
        is_lower_hex_char(c),
{
    if n < 10 {
        (48 + n) as char
    } else {
        (87 + n) as char
    }
}

/// Renders `bytes` as lowercase hex.
pub fn encode(bytes: &[u8]) -> (s: String)
    requires
        bytes@.len() * 2 <= usize::MAX,
    ensures
        s@ == hex_encode(bytes@),
        is_lower_hex(s@),
{
    let mut s = String::new();
    for i in 0..bytes.len()
        invariant
            s@ == hex_encode(bytes@.take(i as int)),
            is_lower_hex(s@),
    {
        let b = bytes[i];
        let hi = hex_digit(b / 16);
        let lo = hex_digit(b % 16);
        string_push(&mut s, hi);
        string_push(&mut s, lo);
        assert(s@ =~= hex_encode(bytes@.take(i + 1)));
    }
    assert(bytes@.take(bytes.len() as int) =~= bytes@);
    s
}

/// The value of one hex digit of either case.
pub fn hex_digit_value(c: u8) -> (r: Option<u8>)
    ensures
        r == hex_value(c),
{
    if 48 <= c && c <= 57 {
        Some(c - 48)
    } else if 97 <= c && c <= 102 {
        Some(c - 87)
    } else if 65 <= c && c <= 70 {
        Some(c - 55)
    } else {
        None
    }
}

/// Decodes hex text of either case into bytes; `None` when the text has an
/// odd length or a character that is not a hex digit.
pub fn decode(s: &[u8]) -> (r: Option<Vec<u8>>)
    ensures
        match r {
            Some(v) => hex_decode(s@) == Some(v@),
            None => hex_decode(s@) is None,
        },
{
    if s.len() % 2 != 0 {
        return None;
    }
    let mut out: Vec<u8> = Vec::new();
    let mut i: usize = 0;
    while i < s.len() / 2
        invariant
            s@.len() % 2 == 0,
            i <= s@.len() / 2,
            out@.len() == i,
            forall|j: int| 0 <= j < 2 * i ==> (#[trigger] hex_value(s@[j])) is Some,
            forall|j: int|
                0 <= j < i ==> #[trigger] out@[j] == (hex_value(s@[2 * j]).unwrap() * 16
                    + hex_value(s@[2 * j + 1]).unwrap()) as u8,
        decreases s@.len() / 2 - i,
    {
        let a = hex_digit_value(s[2 * i]);
        let b = hex_digit_value(s[2 * i + 1]);
        match (a, b) {
            (Some(x), Some(y)) => {
                out.push(x * 16 + y);
            },
            _ => {
                assert(!(forall|j: int| 0 <= j < s@.len() ==> (#[trigger] hex_value(s@[j])) is Some)) by {
                    if a is None {
                        assert(hex_value(s@[2 * i as int]) is None);
                    } else {
                        assert(hex_value(s@[2 * i + 1]) is None);
                    }
                }
                return None;
            },
        }
        i = i + 1;
    }
    assert(out@ =~= hex_decode(s@).unwrap());
    Some(out)
}

/// The hex digit of a nibble reads back as that nibble.
proof fn lemma_hex_char_value(n: int)
    requires
        0 <= n < 16,
    ensures
        (hex_char(n) as u8) as int == hex_char(n) as int,
        hex_value(hex_char(n) as u8) == Some(n as u8),
        '\0' <= hex_char(n) <= '\u{7f}',
{
}

/// Decoding the UTF-8 bytes of a lowercase hex rendering gives back the
/// bytes that were rendered.
pub proof fn lemma_hex_roundtrip(bytes: Seq<u8>)
    ensures
        hex_decode(vstd::utf8::encode_utf8(hex_encode(bytes))) == Some(bytes),
{
    let chars = hex_encode(bytes);
    assert forall|i: int| 0 <= i < chars.len() implies '\0' <= #[trigger] chars[i] <= '\u{7f}' by {
        if i % 2 == 0 {
            lemma_hex_char_value((bytes[i / 2] / 16) as int);
        } else {
            lemma_hex_char_value((bytes[i / 2] % 16) as int);
        }
    }
    assert(vstd::utf8::is_ascii_chars(chars));
    vstd::utf8::is_ascii_chars_encode_utf8(chars);
    let enc = vstd::utf8::encode_utf8(chars);
    assert forall|i: int| 0 <= i < enc.len() implies (#[trigger] hex_value(enc[i])) is Some by {
        assert(chars[i] as u8 == enc[i]);
        if i % 2 == 0 {
            lemma_hex_char_value((bytes[i / 2] / 16) as int);
        } else {
            lemma_hex_char_value((bytes[i / 2] % 16) as int);
        }
    }
    let dec = hex_decode(enc).unwrap();
    assert forall|i: int| 0 <= i < bytes.len() implies #[trigger] dec[i] == bytes[i] by {
        assert(chars[2 * i] as u8 == enc[2 * i]);
        assert(chars[2 * i + 1] as u8 == enc[2 * i + 1]);
        assert((2 * i) / 2 == i);
        assert((2 * i + 1) / 2 == i);
        assert((2 * i) % 2 == 0);
        assert((2 * i + 1) % 2 == 1);
        lemma_hex_char_value((bytes[i] / 16) as int);
        lemma_hex_char_value((bytes[i] % 16) as int);
    }
    assert(dec =~= bytes);
}

} // verus!
