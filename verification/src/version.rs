//! Version numbers of articles: `MAJOR.MINOR.PATCH`, compared numerically.

use vstd::prelude::*;
use crate::chars::{split_chars, split_on, string_of, trim, trimmed};
use crate::error::{ErrorKind, LogicError};

verus! {

/// Whether `c` is an ASCII decimal digit.
pub open spec fn is_digit(c: char) -> bool {
    '0' <= c && c <= '9'
}

/// The value of a string of decimal digits.
pub open spec fn decimal_value(d: Seq<char>) -> nat
    decreases d.len(),
{
    if d.len() == 0 {
        0
    } else {
        decimal_value(d.drop_last()) * 10 + ((d.last() as int) - 48) as nat
    }
}

/// A version component: decimal digits, no leading zero, fitting in 64 bits.
pub open spec fn valid_component(d: Seq<char>) -> bool {
    &&& d.len() >= 1
    &&& forall|i: int| 0 <= i < d.len() ==> is_digit(#[trigger] d[i])
    &&& (d.len() == 1 || d[0] != '0')
    &&& decimal_value(d) <= u64::MAX
}

/// The three numbers of a version text (surrounding white space ignored).
pub open spec fn version_numbers(raw: Seq<char>) -> Option<(u64, u64, u64)> {
    let parts = split_on(trim(raw), '.');
    if parts.len() == 3 && valid_component(parts[0]) && valid_component(parts[1])
        && valid_component(parts[2]) {
        Some(
            (
                decimal_value(parts[0]) as u64,
                decimal_value(parts[1]) as u64,
                decimal_value(parts[2]) as u64,
            ),
        )
    } else {
        None
    }
}

/// Whether version `a` is strictly greater than version `b`.
pub open spec fn version_gt(a: (u64, u64, u64), b: (u64, u64, u64)) -> bool {
    a.0 > b.0 || (a.0 == b.0 && (a.1 > b.1 || (a.1 == b.1 && a.2 > b.2)))
}

/// The value of one component, if it is valid.
fn component_value(d: &Vec<char>) -> (r: Option<u64>)
    ensures
        r matches Some(v) ==> valid_component(d@) && v == decimal_value(d@),
        r is None ==> !valid_component(d@),
{
    if d.len() == 0 {
        return None;
    }
    if d.len() > 1 && d[0] == '0' {
        return None;
    }
    let mut value: u64 = 0;
    let mut i: usize = 0;
    assert(d@.take(0) =~= Seq::<char>::empty());
    while i < d.len()
        invariant
            i <= d@.len(),
            value == decimal_value(d@.take(i as int)),
            forall|j: int| 0 <= j < i ==> is_digit(#[trigger] d@[j]),
        decreases d@.len() - i,
    {
        let c = d[i];
        if !('0' <= c && c <= '9') {
            return None;
        }
        assert(d@.take(i + 1).drop_last() =~= d@.take(i as int));
        let digit = (c as u32 - 48) as u64;
        let next = match value.checked_mul(10) {
            Some(t) => t.checked_add(digit),
            None => None,
        };
        match next {
            Some(n) => {
                value = n;
            },
            None => {
                proof {
                    assert(decimal_value(d@.take(i + 1)) == value * 10 + digit);
                    if forall|j: int| 0 <= j < d@.len() ==> is_digit(#[trigger] d@[j]) {
                        lemma_prefix_value_le(d@, i + 1);
                    }
                }
                return None;
            },
        }
        i = i + 1;
    }
    assert(d@.take(d@.len() as int) =~= d@);
    Some(value)
}

/// A longer prefix of digits has at least the value of a shorter one.
proof fn lemma_prefix_value_le(d: Seq<char>, k: int)
    requires
        0 <= k <= d.len(),
        forall|j: int| 0 <= j < d.len() ==> is_digit(#[trigger] d[j]),
    ensures
        decimal_value(d.take(k)) <= decimal_value(d),
    decreases d.len() - k,
{
    if k < d.len() {
        lemma_prefix_value_le(d, k + 1);
        assert(d.take(k + 1).drop_last() =~= d.take(k));
        assert(is_digit(d[k]));
    } else {
        assert(d.take(k) =~= d);
    }
}

/// The three numbers of a version text; `None` when it is not one.
pub fn parse_version(raw: &str) -> (r: Option<(u64, u64, u64)>)
    ensures
        r == version_numbers(raw@),
{
    let t = trimmed(raw);
    let parts = split_chars(t.as_slice(), '.');
    if parts.len() != 3 {
        return None;
    }
    let ghost views = parts@.map_values(|p: Vec<char>| p@);
    assert(views[0] == parts@[0]@ && views[1] == parts@[1]@ && views[2] == parts@[2]@);
    let a = match component_value(&parts[0]) {
        Some(v) => v,
        None => return None,
    };
    let b = match component_value(&parts[1]) {
        Some(v) => v,
        None => return None,
    };
    let c = match component_value(&parts[2]) {
        Some(v) => v,
        None => return None,
    };
    Some((a, b, c))
}

/// The canonical text of a version number: the trimmed input, which for a
/// valid version is its numbers written in decimal.
pub fn validate_version(raw: &str) -> (r: Result<String, LogicError>)
    ensures
        r matches Ok(s) ==> version_numbers(raw@) is Some && s@ == trim(raw@),
        r matches Err(e) ==> version_numbers(raw@) is None && e.is(
            ErrorKind::BadRequest,
            "invalid version number"@,
        ),
{
    match parse_version(raw) {
        Some(_) => {
            let t = trimmed(raw);
            Ok(string_of(t.as_slice()))
        },
        None => Err(LogicError::bad_request("invalid version number")),
    }
}

/// Whether `candidate` is strictly greater than `latest`.
pub fn is_strictly_greater(candidate: (u64, u64, u64), latest: (u64, u64, u64)) -> (r: bool)
    ensures
        r == version_gt(candidate, latest),
{
    candidate.0 > latest.0 || (candidate.0 == latest.0 && (candidate.1 > latest.1 || (candidate.1
        == latest.1 && candidate.2 > latest.2)))
}

/// "Strictly greater" is a strict total order on versions.
pub proof fn lemma_version_order(a: (u64, u64, u64), b: (u64, u64, u64), c: (u64, u64, u64))
    ensures
        !version_gt(a, a),
        version_gt(a, b) ==> !version_gt(b, a),
        version_gt(a, b) && version_gt(b, c) ==> version_gt(a, c),
        a != b ==> version_gt(a, b) || version_gt(b, a),
{
}

} // verus!
