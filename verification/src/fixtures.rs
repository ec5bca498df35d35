//! Small well-formed PDFs and stand-in content digests, for seeding and
//! for exercising the upload checks.

use vstd::prelude::*;
use vstd::string::StringSliceAdditionalSpecFns;
use crate::chars::string_of;
use crate::fmt::{push_all, radix_chars, radix_digits};

verus! {

/// `%PDF-1.4` and a line feed.
pub open spec fn pdf14_header() -> Seq<u8> {
    seq![37u8, 80u8, 68u8, 70u8, 45u8, 49u8, 46u8, 52u8, 10u8]
}

/// `%%EOF` and a line feed.
pub open spec fn eof_line() -> Seq<u8> {
    seq![37u8, 37u8, 69u8, 79u8, 70u8, 10u8]
}

fn header_bytes() -> (v: Vec<u8>)
    ensures
        v@ == pdf14_header(),
{
    let v: Vec<u8> = vec![37u8, 80u8, 68u8, 70u8, 45u8, 49u8, 46u8, 52u8, 10u8];
    assert(v@ =~= pdf14_header());
    v
}

fn eof_bytes() -> (v: Vec<u8>)
    ensures
        v@ == eof_line(),
{
    let v: Vec<u8> = vec![37u8, 37u8, 69u8, 79u8, 70u8, 10u8];
    assert(v@ =~= eof_line());
    v
}

/// The smallest PDF the upload checks accept: a header and `%%EOF`.
pub fn valid_pdf() -> (v: Vec<u8>)
    ensures
        v@ == pdf14_header() + eof_line(),
{
    let mut v = header_bytes();
    let tail = eof_bytes();
    v.extend_from_slice(tail.as_slice());
    v
}

/// A PDF whose body is the UTF-8 text of `seed` on a line of its own, so
/// that different seeds give different contents (and digests).
pub fn unique_pdf(seed: &str) -> (v: Vec<u8>)
    ensures
        v@ == pdf14_header() + seed.spec_bytes() + seq![10u8] + eof_line(),
{
    let mut v = header_bytes();
    v.extend_from_slice(seed.as_bytes());
    v.push(10u8);
    let tail = eof_bytes();
    v.extend_from_slice(tail.as_slice());
    v
}

/// `s` written `n` times in a row.
pub open spec fn repeated(s: Seq<char>, n: nat) -> Seq<char>
    decreases n,
{
    if n == 0 {
        Seq::empty()
    } else {
        repeated(s, (n - 1) as nat) + s
    }
}

/// A stand-in content digest: the lowercase hex of `seed`, without
/// padding, written 32 times.
pub fn pdf_hash(seed: u8) -> (r: String)
    ensures
        r@ == repeated(radix_digits(seed as nat, 16), 32),
{
    let d = radix_chars(seed as u64, 16);
    let mut v: Vec<char> = Vec::new();
    for i in 0..32u64
        invariant
            d@ == radix_digits(seed as nat, 16),
            v@ == repeated(d@, i as nat),
    {
        push_all(&mut v, d.as_slice());
    }
    string_of(v.as_slice())
}

} // verus!
