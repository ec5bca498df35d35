//! Response envelopes and their compact text form for logs.

use vstd::prelude::*;
use crate::chars::{chars_of, string_of};
use crate::fmt::push_all;

verus! {

/// A plain success, possibly handing out a session token.
#[derive(Clone, Debug, PartialEq, Eq)]
pub struct OkResponse {
    pub ok: bool,
    pub session_token: Option<String>,
}

/// A failure and its reason.
#[derive(Clone, Debug, PartialEq, Eq)]
pub struct ErrorResponse {
    pub ok: bool,
    pub reason: String,
}

/// The answer to a proof-of-work request that sends an e-mail.
#[derive(Clone, Debug, PartialEq, Eq)]
pub struct PowResponse {
    pub ok: bool,
    pub email_subject: Option<String>,
}

/// `true` or `false`.
pub open spec fn bool_text(b: bool) -> Seq<char> {
    if b {
        "true"@
    } else {
        "false"@
    }
}

/// The compact form of a success; session tokens are never rendered.
pub open spec fn ok_text(r: OkResponse) -> Seq<char> {
    "{ok: "@ + bool_text(r.ok) + "}"@
}

/// The compact form of a failure.
pub open spec fn error_text(r: ErrorResponse) -> Seq<char> {
    "{ok: "@ + bool_text(r.ok) + ", reason: "@ + r.reason@ + "}"@
}

/// The compact form of a proof-of-work answer.
pub open spec fn pow_text(r: PowResponse) -> Seq<char> {
    "{ok: "@ + bool_text(r.ok) + match r.email_subject {
        Some(s) => ", email_subject: "@ + s@,
        None => Seq::empty(),
    } + "}"@
}

fn push_bool(out: &mut Vec<char>, b: bool)
    ensures
        final(out)@ == old(out)@ + bool_text(b),
{
    if b {
        push_all(out, chars_of("true").as_slice());
    } else {
        push_all(out, chars_of("false").as_slice());
    }
}

impl OkResponse {
    /// A success without a session token.
    pub fn ok() -> (r: Self)
        ensures
            r.ok,
            r.session_token is None,
    {
        OkResponse { ok: true, session_token: None }
    }

    /// The compact text form.
    pub fn render(&self) -> (s: String)
        ensures
            s@ == ok_text(*self),
    {
        let mut v = chars_of("{ok: ");
        push_bool(&mut v, self.ok);
        push_all(&mut v, chars_of("}").as_slice());
        string_of(v.as_slice())
    }
}

impl ErrorResponse {
    /// The compact text form.
    pub fn render(&self) -> (s: String)
        ensures
            s@ == error_text(*self),
    {
        let mut v = chars_of("{ok: ");
        push_bool(&mut v, self.ok);
        push_all(&mut v, chars_of(", reason: ").as_slice());
        push_all(&mut v, chars_of(self.reason.as_str()).as_slice());
        push_all(&mut v, chars_of("}").as_slice());
        string_of(v.as_slice())
    }
}

impl PowResponse {
    /// The compact text form.
    pub fn render(&self) -> (s: String)
        ensures
            s@ == pow_text(*self),
    {
        let mut v = chars_of("{ok: ");
        push_bool(&mut v, self.ok);
        match &self.email_subject {
            Some(subject) => {
                push_all(&mut v, chars_of(", email_subject: ").as_slice());
                push_all(&mut v, chars_of(subject.as_str()).as_slice());
            },
            None => {},
        }
        push_all(&mut v, chars_of("}").as_slice());
        assert(v@ =~= pow_text(*self));
        string_of(v.as_slice())
    }
}

} // verus!
