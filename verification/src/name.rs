//! Display names of accounts.

use vstd::prelude::*;
use crate::chars::{first_rejected, lemma_first_rejected_at, lemma_first_rejected_none, string_of, trim, trimmed};

verus! {

/// Longest name, in characters.
pub const MAX_NAME_CHARS: usize = 32;

/// Why a name is rejected.
#[derive(Clone, Copy, Debug, PartialEq, Eq, Structural)]
pub enum NameError {
    Empty,
    TooLong,
    ContainsForbiddenChar(char),
}

/// Characters allowed in a name: ASCII letters and digits, `-`, `_`.
pub open spec fn is_name_char(c: char) -> bool {
    ('a' <= c && c <= 'z') || ('A' <= c && c <= 'Z') || ('0' <= c && c <= '9') || c == '-'
        || c == '_'
}

/// The checked name: trimmed; then not empty, then only allowed characters
/// (the first offender is reported), then at most [`MAX_NAME_CHARS`].
pub open spec fn name_result(raw: Seq<char>) -> Result<Seq<char>, NameError> {
    let t = trim(raw);
    if t.len() == 0 {
        Err(NameError::Empty)
    } else {
        match first_rejected(t, |x: char| is_name_char(x)) {
            Some(c) => Err(NameError::ContainsForbiddenChar(c)),
            None => if t.len() > MAX_NAME_CHARS {
                Err(NameError::TooLong)
            } else {
                Ok(t)
            },
        }
    }
}

/// Validates a display name and returns its canonical (trimmed) form.
pub fn validate_name(raw: &str) -> (r: Result<String, NameError>)
    ensures
        match r {
            Ok(s) => name_result(raw@) == Ok::<Seq<char>, NameError>(s@),
            Err(e) => name_result(raw@) == Err::<Seq<char>, NameError>(e),
        },
{
    let t = trimmed(raw);
    if t.len() == 0 {
        return Err(NameError::Empty);
    }
    for i in 0..t.len()
        invariant
            t@ == trim(raw@),
            t@.len() > 0,
            forall|j: int| 0 <= j < i ==> is_name_char(#[trigger] t@[j]),
    {
        let ch = t[i];
        if !(('a' <= ch && ch <= 'z') || ('A' <= ch && ch <= 'Z') || ('0' <= ch && ch <= '9') || ch
            == '-' || ch == '_') {
            proof {
                lemma_first_rejected_at(t@, |x: char| is_name_char(x), i as int);
            }
            return Err(NameError::ContainsForbiddenChar(ch));
        }
    }
    proof {
        lemma_first_rejected_none(t@, |x: char| is_name_char(x));
    }
    if t.len() > MAX_NAME_CHARS {
        return Err(NameError::TooLong);
    }
    Ok(string_of(t.as_slice()))
}

/// An accepted name is canonical: validating it again accepts it
/// unchanged.
pub proof fn lemma_name_canonical(raw: Seq<char>)
    requires
        name_result(raw) is Ok,
    ensures
        name_result(name_result(raw)->Ok_0) == name_result(raw),
{
    crate::chars::lemma_trim_idempotent(raw);
}

} // verus!
