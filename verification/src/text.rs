//! Free-text fields (titles, summaries, notes, comments): printable ASCII,
//! trimmed, bounded in length.

use vstd::prelude::*;
use crate::chars::{
    chars_of, first_rejected, lemma_first_rejected_at, lemma_first_rejected_none, string_of, trim,
    trimmed,
};
use crate::fmt::{decimal, escaped, push_all, push_escaped, radix_chars};

verus! {

/// Why a text field is rejected.
#[derive(Clone, Copy, Debug, PartialEq, Eq, Structural)]
pub enum TextError {
    Empty,
    TooLong { max_chars: usize },
    ContainsForbiddenChar(char),
}

/// Printable ASCII, plus line feed where the field allows new lines.
pub open spec fn is_text_char(c: char, allow_newline: bool) -> bool {
    (' ' <= c && c <= '~') || (allow_newline && c == '\n')
}

/// The checked field: trimmed; then not empty, then only allowed
/// characters (the first offender is reported), then at most `max_chars`.
pub open spec fn text_result(raw: Seq<char>, max_chars: usize, allow_newline: bool) -> Result<
    Seq<char>,
    TextError,
> {
    let t = trim(raw);
    if t.len() == 0 {
        Err(TextError::Empty)
    } else {
        match first_rejected(t, |x: char| is_text_char(x, allow_newline)) {
            Some(c) => Err(TextError::ContainsForbiddenChar(c)),
            None => if t.len() > max_chars {
                Err(TextError::TooLong { max_chars })
            } else {
                Ok(t)
            },
        }
    }
}

/// Validates a text field and returns it trimmed.
pub fn validate_ascii_text(raw: &str, max_chars: usize, allow_newline: bool) -> (r: Result<
    String,
    TextError,
>)
    ensures
        match r {
            Ok(s) => text_result(raw@, max_chars, allow_newline) == Ok::<Seq<char>, TextError>(s@),
            Err(e) => text_result(raw@, max_chars, allow_newline) == Err::<Seq<char>, TextError>(e),
        },
{
    let t = trimmed(raw);
    if t.len() == 0 {
        return Err(TextError::Empty);
    }
    for i in 0..t.len()
        invariant
            t@ == trim(raw@),
            t@.len() > 0,
            forall|j: int| 0 <= j < i ==> is_text_char(#[trigger] t@[j], allow_newline),
    {
        let ch = t[i];
        if !((' ' <= ch && ch <= '~') || (allow_newline && ch == '\n')) {
            proof {
                lemma_first_rejected_at(t@, |x: char| is_text_char(x, allow_newline), i as int);
                assert(first_rejected(t@, |x: char| is_text_char(x, allow_newline)) == Some(ch));
            }
            return Err(TextError::ContainsForbiddenChar(ch));
        }
    }
    proof {
        lemma_first_rejected_none(t@, |x: char| is_text_char(x, allow_newline));
    }
    if t.len() > max_chars {
        return Err(TextError::TooLong { max_chars });
    }
    Ok(string_of(t.as_slice()))
}

/// An accepted field is in canonical form: checking it again accepts it
/// unchanged.
pub proof fn lemma_text_canonical(raw: Seq<char>, max_chars: usize, allow_newline: bool)
    requires
        text_result(raw, max_chars, allow_newline) is Ok,
    ensures
        text_result(text_result(raw, max_chars, allow_newline)->Ok_0, max_chars, allow_newline)
            == text_result(raw, max_chars, allow_newline),
{
    crate::chars::lemma_trim_idempotent(raw);
}

/// The message shown for a rejected text field.
pub open spec fn text_error_message(e: TextError) -> Seq<char> {
    match e {
        TextError::Empty => "text cannot be empty"@,
        TextError::TooLong { max_chars } => "text exceeds "@ + decimal(max_chars as nat)
            + " characters"@,
        TextError::ContainsForbiddenChar(c) => "text contains a forbidden character: '"@ + escaped(
            c,
        ) + "'"@,
    }
}

impl TextError {
    /// The message shown for this error; control characters appear
    /// escaped, never raw.
    pub fn message(&self) -> (m: String)
        ensures
            m@ == text_error_message(*self),
    {
        match self {
            TextError::Empty => string_of(chars_of("text cannot be empty").as_slice()),
            TextError::TooLong { max_chars } => {
                let mut v = chars_of("text exceeds ");
                let digits = radix_chars(*max_chars as u64, 10);
                push_all(&mut v, digits.as_slice());
                let tail = chars_of(" characters");
                push_all(&mut v, tail.as_slice());
                string_of(v.as_slice())
            },
            TextError::ContainsForbiddenChar(c) => {
                let mut v = chars_of("text contains a forbidden character: '");
                push_escaped(&mut v, *c);
                v.push('\'');
                proof {
                    reveal_strlit("'");
                }
                assert(v@ =~= text_error_message(*self));
                string_of(v.as_slice())
            },
        }
    }
}

/// Every printable ASCII character (space through `~`) may stand in a
/// text field: a field made only of such characters, not starting or
/// ending with a space, not empty and at most `max_chars` long, is accepted
/// as it is.
pub proof fn lemma_printable_text_accepted(s: Seq<char>, max_chars: usize, allow_newline: bool)
    requires
        0 < s.len() <= max_chars,
        s[0] != ' ',
        s[s.len() - 1] != ' ',
        forall|i: int| 0 <= i < s.len() ==> ' ' <= #[trigger] s[i] && s[i] <= '~',
    ensures
        text_result(s, max_chars, allow_newline) == Ok::<Seq<char>, TextError>(s),
{
    crate::chars::lemma_trim_fixed(s);
    assert forall|j: int| 0 <= j < s.len() implies is_text_char(#[trigger] s[j], allow_newline) by {
        assert(' ' <= s[j] && s[j] <= '~');
    }
    lemma_first_rejected_none(s, |x: char| is_text_char(x, allow_newline));
}

} // verus!
