//! Session and e-mail tokens: UUID text, normalised before it is hashed
//! into a cache key.

use vstd::prelude::*;
use vstd::string::StringSliceAdditionalSpecFns;
use crate::chars::{lemma_trim_fixed, string_of, trim, trimmed, white_space};
use crate::error::LogicError;
use crate::hash::{token, token_digest};
use crate::ids::{lemma_uuid_text_reads_back, parse_uuid, parsed_uuid, uuid_string, uuid_text};
use crate::pow::utf8;

verus! {

/// The canonical form of a token: its trimmed text parsed as a UUID and
/// written back lowercase and hyphenated.
pub open spec fn normalized_token(raw: Seq<char>) -> Option<Seq<char>> {
    match parsed_uuid(trim(raw)) {
        Some(v) => Some(uuid_text(v)),
        None => None,
    }
}

/// The cache key of a token: the token digest of its canonical form.
pub open spec fn token_cache_key(raw: Seq<char>) -> Option<Seq<char>> {
    match normalized_token(raw) {
        Some(t) => Some(token_digest(utf8(t))),
        None => None,
    }
}

/// The canonical form of a token; `None` when it is not a UUID.
pub fn normalize_token(raw: &str) -> (r: Option<String>)
    ensures
        r matches Some(s) ==> normalized_token(raw@) == Some(s@),
        r is None ==> normalized_token(raw@) is None,
{
    let t = trimmed(raw);
    let text = string_of(t.as_slice());
    match parse_uuid(text.as_str()) {
        Some(v) => Some(uuid_string(v)),
        None => None,
    }
}

/// The cache key of a token; `None` when it is not a UUID.
pub fn cache_key(raw: &str) -> (r: Option<String>)
    ensures
        r matches Some(s) ==> token_cache_key(raw@) == Some(s@),
        r is None ==> token_cache_key(raw@) is None,
{
    match normalize_token(raw) {
        Some(t) => {
            let key = token(t.as_str());
            Some(key)
        },
        None => None,
    }
}

/// The cache key of a token that is already canonical; `None` otherwise.
pub fn hash_canonical_token(raw: &str) -> (r: Option<String>)
    ensures
        r matches Some(s) ==> normalized_token(raw@) == Some(raw@) && s@ == token_digest(
            utf8(raw@),
        ),
        r is None ==> normalized_token(raw@) != Some(raw@),
{
    match normalize_token(raw) {
        Some(t) => {
            if crate::chars::chars_equal(
                crate::chars::chars_of(t.as_str()).as_slice(),
                crate::chars::chars_of(raw).as_slice(),
            ) {
                Some(token(raw))
            } else {
                None
            }
        },
        None => None,
    }
}

/// The cache key of a token, or `error` when the token is not a UUID.
pub fn hash_token(raw: &str, error: LogicError) -> (r: Result<String, LogicError>)
    ensures
        r matches Ok(s) ==> token_cache_key(raw@) == Some(s@),
        r matches Err(e) ==> token_cache_key(raw@) is None && e == error,
{
    match cache_key(raw) {
        Some(k) => Ok(k),
        None => Err(error),
    }
}

/// Normalising a canonical token changes nothing.
pub proof fn lemma_normalize_idempotent(raw: Seq<char>)
    requires
        normalized_token(raw) is Some,
    ensures
        normalized_token(normalized_token(raw)->Some_0) == normalized_token(raw),
{
    let v = parsed_uuid(trim(raw))->Some_0;
    let t = uuid_text(v);
    lemma_uuid_text_reads_back(v);
    assert(t[0] != '-' && !white_space(t[0]));
    assert(t.last() == t[35]);
    assert(!white_space(t[35]));
    lemma_trim_fixed(t);
}

/// The string a JSON text holds, as `serde_json::from_str::<String>` reads
/// it; `None` when the text is not one JSON string.
pub uninterp spec fn json_string_value(raw: Seq<char>) -> Option<Seq<char>>;

/// `serde_json::from_str::<String>`, keeping the string on success. What it
/// reads (surrounding white space, escapes) is named, not stated.
#[verifier::external_body]
fn decode_json_string(raw: &str) -> (r: Option<String>)
    ensures
        match r {
            Some(s) => json_string_value(raw@) == Some(s@),
            None => json_string_value(raw@) is None,
        },
{
    serde_json::from_str::<String>(raw).ok()
}

/// The session token a stored value gives: the string it encodes as JSON,
/// or else the stored text itself; no token when that is empty.
pub open spec fn stored_token(raw: Seq<char>, decoded: Option<Seq<char>>) -> Option<Seq<char>> {
    let token = match decoded {
        Some(d) => d,
        None => raw,
    };
    if token.len() == 0 {
        None
    } else {
        Some(token)
    }
}

/// The session token from a stored value `raw`, given what decoding it as
/// a JSON string gave.
pub fn token_from_stored(raw: &str, decoded: Option<String>) -> (r: Option<String>)
    ensures
        match r {
            Some(s) => stored_token(raw@, match decoded {
                Some(d) => Some(d@),
                None => None,
            }) == Some(s@),
            None => stored_token(raw@, match decoded {
                Some(d) => Some(d@),
                None => None,
            }) is None,
        },
{
    let token = match decoded {
        Some(d) => d,
        None => crate::chars::owned(raw),
    };
    if token.as_str().is_empty() {
        None
    } else {
        Some(token)
    }
}

/// The session token the browser stored, from the text of its
/// `session_token` entry (`None` when there is no such string entry): the
/// entry decoded as a JSON string, or else taken as it is; no token when
/// that is empty.
pub fn session_token_from_storage(stored: Option<&str>) -> (r: Option<String>)
    ensures
        match stored {
            None => r is None,
            Some(raw) => match r {
                Some(s) => stored_token(raw@, json_string_value(raw@)) == Some(s@),
                None => stored_token(raw@, json_string_value(raw@)) is None,
            },
        },
{
    match stored {
        None => None,
        Some(raw) => {
            let decoded = decode_json_string(raw);
            token_from_stored(raw, decoded)
        },
    }
}

} // verus!
