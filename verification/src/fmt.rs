//! Rendering numbers and characters as text.

use vstd::prelude::*;
use crate::hex::hex_char;

verus! {

/// The digits of `n` in base `b` (2 to 16), most significant first, no
/// leading zeros (`0` is a single digit).
pub open spec fn radix_digits(n: nat, b: nat) -> Seq<char>
    decreases n,
{
    if b < 2 || n < b {
        seq![hex_char((n % 16) as int)]
    } else {
        proof {
            vstd::arithmetic::div_mod::lemma_div_is_strictly_smaller(n as int, b as int);
        }
        radix_digits(n / b, b).push(hex_char((n % b) as int))
    }
}

/// Decimal rendering of `n`.
pub open spec fn decimal(n: nat) -> Seq<char> {
    radix_digits(n, 10)
}

/// The digits of `n` in base `b`.
pub fn radix_chars(n: u64, b: u64) -> (r: Vec<char>)
    requires
        2 <= b <= 16,
    ensures
        r@ == radix_digits(n as nat, b as nat),
    decreases n,
{
    if n < b {
        let mut v: Vec<char> = Vec::new();
        v.push(crate::hex::hex_digit(n as u8));
        v
    } else {
        proof {
            vstd::arithmetic::div_mod::lemma_div_is_strictly_smaller(n as int, b as int);
        }
        let mut v = radix_chars(n / b, b);
        v.push(crate::hex::hex_digit((n % b) as u8));
        v
    }
}

/// A character as it appears between quotes in a message: printable ASCII
/// as itself (quote and backslash escaped), line feed, carriage return and
/// tab as `\n`, `\r`, `\t`, anything else as `\u{...}` in lowercase hex.
pub open spec fn escaped(c: char) -> Seq<char> {
    if c == '\n' {
        seq!['\\', 'n']
    } else if c == '\r' {
        seq!['\\', 'r']
    } else if c == '\t' {
        seq!['\\', 't']
    } else if c == '\\' || c == '\'' {
        seq!['\\', c]
    } else if ' ' <= c && c <= '~' {
        seq![c]
    } else {
        seq!['\\', 'u', '{'] + radix_digits(c as nat, 16) + seq!['}']
    }
}

/// Appends the escaped form of `c` to `out`.
pub fn push_escaped(out: &mut Vec<char>, c: char)
    ensures
        final(out)@ == old(out)@ + escaped(c),
{
    if c == '\n' {
        out.push('\\');
        out.push('n');
    } else if c == '\r' {
        out.push('\\');
        out.push('r');
    } else if c == '\t' {
        out.push('\\');
        out.push('t');
    } else if c == '\\' || c == '\'' {
        out.push('\\');
        out.push(c);
    } else if ' ' <= c && c <= '~' {
        out.push(c);
    } else {
        out.push('\\');
        out.push('u');
        out.push('{');
        let mut digits = radix_chars(c as u64, 16);
        out.append(&mut digits);
        out.push('}');
    }
    assert(final(out)@ =~= old(out)@ + escaped(c));
}

/// Appends the characters of `s` to `out`.
pub fn push_all(out: &mut Vec<char>, s: &[char])
    ensures
        final(out)@ == old(out)@ + s@,
{
    let ghost start = out@;
    for i in 0..s.len()
        invariant
            out@ == start + s@.take(i as int),
    {
        out.push(s[i]);
        assert(start + s@.take(i + 1) =~= start + s@.take(i as int) + seq![s@[i as int]]);
    }
    assert(s@.take(s@.len() as int) =~= s@);
}

} // verus!
