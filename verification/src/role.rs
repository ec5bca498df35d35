//! Role names.

use vstd::prelude::*;
use crate::chars::{string_of, trim, trimmed};
use crate::error::{ErrorKind, LogicError};

verus! {

/// Longest role name, in characters.
pub const MAX_ROLE_NAME_CHARS: usize = 64;

/// Characters allowed in a role name: ASCII letters and digits, `-`, `_`.
pub open spec fn is_role_char(c: char) -> bool {
    ('a' <= c && c <= 'z') || ('A' <= c && c <= 'Z') || ('0' <= c && c <= '9') || c == '-'
        || c == '_'
}

/// Whether a trimmed role name is acceptable.
pub open spec fn valid_role_name(t: Seq<char>) -> bool {
    &&& 1 <= t.len() <= MAX_ROLE_NAME_CHARS
    &&& forall|i: int| 0 <= i < t.len() ==> is_role_char(#[trigger] t[i])
}

/// Checks a role name and returns it trimmed; any broken rule answers
/// "invalid role name".
pub fn validate_role_name(raw: &str) -> (r: Result<String, LogicError>)
    ensures
        r matches Ok(s) ==> valid_role_name(trim(raw@)) && s@ == trim(raw@),
        r matches Err(e) ==> !valid_role_name(trim(raw@)) && e.is(
            ErrorKind::BadRequest,
            "invalid role name"@,
        ),
{
    let t = trimmed(raw);
    if t.len() == 0 || t.len() > MAX_ROLE_NAME_CHARS {
        return Err(LogicError::bad_request("invalid role name"));
    }
    for i in 0..t.len()
        invariant
            t@ == trim(raw@),
            forall|j: int| 0 <= j < i ==> is_role_char(#[trigger] t@[j]),
    {
        let c = t[i];
        if !(('a' <= c && c <= 'z') || ('A' <= c && c <= 'Z') || ('0' <= c && c <= '9') || c == '-'
            || c == '_') {
            assert(!is_role_char(t@[i as int]));
            return Err(LogicError::bad_request("invalid role name"));
        }
    }
    Ok(string_of(t.as_slice()))
}

} // verus!
