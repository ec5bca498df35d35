//! E-mail addresses: normalisation and the allowed-domain rule, and the
//! intents of an e-mail read request.

use vstd::prelude::*;
use crate::chars::{chars_equal, chars_of, string_of, trim, trimmed};

verus! {

/// Longest accepted address, in characters.
pub const MAX_EMAIL_CHARS: usize = 254;

/// ASCII lowercase of one character.
pub open spec fn ascii_lower(c: char) -> char {
    if 'A' <= c && c <= 'Z' {
        ((c as u32) + 32) as char
    } else {
        c
    }
}

/// ASCII lowercase of a text.
pub open spec fn lower(s: Seq<char>) -> Seq<char> {
    s.map_values(|c: char| ascii_lower(c))
}

/// The normalised form of an address: trimmed and lowercased.
pub open spec fn normalized_email(raw: Seq<char>) -> Seq<char> {
    lower(trim(raw))
}

/// Characters allowed in an address: printable ASCII other than space.
pub open spec fn is_address_char(c: char) -> bool {
    '!' <= c && c <= '~'
}

/// Whether `e` is `local@domain` with a single `@`, a non-empty local part,
/// only printable non-space ASCII, at most [`MAX_EMAIL_CHARS`] characters,
/// and a domain equal, ignoring ASCII case, to one of `allowed`.
pub open spec fn email_allowed(e: Seq<char>, allowed: Seq<Seq<char>>) -> bool {
    &&& e.len() <= MAX_EMAIL_CHARS
    &&& forall|i: int| 0 <= i < e.len() ==> is_address_char(#[trigger] e[i])
    &&& exists|p: int|
        0 < p < e.len() && #[trigger] e[p] == '@' && (forall|q: int|
            0 <= q < e.len() && q != p ==> e[q] != '@') && exists|k: int|
            0 <= k < allowed.len() && lower(e.skip(p + 1)) == lower(#[trigger] allowed[k])
}

/// Which e-mail flow a read request is for.
#[derive(Clone, Copy, Debug, PartialEq, Eq, Structural)]
pub enum EmailReadIntent {
    Authenticate,
    ChangeEmail,
    Deregister,
}

fn lower_char(c: char) -> (r: char)
    ensures
        r == ascii_lower(c),
{
    if 'A' <= c && c <= 'Z' {
        ((c as u32) + 32) as u8 as char
    } else {
        c
    }
}

fn lower_chars(s: &[char]) -> (r: Vec<char>)
    ensures
        r@ == lower(s@),
{
    let mut r: Vec<char> = Vec::new();
    for i in 0..s.len()
        invariant
            r@ == lower(s@.take(i as int)),
    {
        r.push(lower_char(s[i]));
        assert(lower(s@.take(i + 1)) =~= lower(s@.take(i as int)).push(ascii_lower(s@[i as int])));
    }
    assert(s@.take(s@.len() as int) =~= s@);
    r
}

/// The normalised form of an address: trimmed and ASCII-lowercased.
pub fn normalize_email(raw: &str) -> (r: String)
    ensures
        r@ == normalized_email(raw@),
{
    let t = trimmed(raw);
    let l = lower_chars(t.as_slice());
    string_of(l.as_slice())
}

/// Whether `email` is an acceptable address in one of the `allowed`
/// domains (domains compare ignoring ASCII case).
pub fn validate_email(email: &str, allowed: &Vec<String>) -> (ok: bool)
    ensures
        ok == email_allowed(email@, allowed@.map_values(|d: String| d@)),
{
    let ghost doms = allowed@.map_values(|d: String| d@);
    let e = chars_of(email);
    if e.len() > MAX_EMAIL_CHARS {
        return false;
    }
    let mut at: usize = 0;
    let mut ats: usize = 0;
    for i in 0..e.len()
        invariant
            e@ == email@,
            e@.len() <= MAX_EMAIL_CHARS,
            forall|j: int| 0 <= j < i ==> is_address_char(#[trigger] e@[j]),
            ats <= i,
            ats == 0 ==> forall|j: int| 0 <= j < i ==> e@[j] != '@',
            ats >= 1 ==> at < i && e@[at as int] == '@',
            ats == 1 ==> forall|j: int| 0 <= j < i && j != at ==> e@[j] != '@',
            ats >= 2 ==> exists|j: int| 0 <= j < i && j != at && e@[j] == '@',
    {
        let c = e[i];
        if !('!' <= c && c <= '~') {
            return false;
        }
        if c == '@' {
            if ats == 0 {
                at = i;
            } else {
                assert(e@[i as int] == '@' && i != at);
            }
            ats = ats + 1;
        }
    }
    if ats != 1 || at == 0 {
        proof {
            if email_allowed(email@, doms) {
                let p = choose|p: int|
                    0 < p < e@.len() && #[trigger] e@[p] == '@' && (forall|q: int|
                        0 <= q < e@.len() && q != p ==> e@[q] != '@') && exists|k: int|
                        0 <= k < doms.len() && lower(e@.skip(p + 1)) == lower(#[trigger] doms[k]);
                if ats == 0 {
                    assert(e@[p] != '@');
                } else if ats >= 2 {
                    let j = choose|j: int| 0 <= j < e@.len() && j != at && e@[j] == '@';
                    if j != p {
                        assert(e@[j] != '@');
                    } else {
                        assert(e@[at as int] != '@');
                    }
                } else {
                    assert(p == at);
                }
            }
        }
        return false;
    }
    let mut domain: Vec<char> = Vec::new();
    let mut k: usize = at + 1;
    while k < e.len()
        invariant
            at < k <= e@.len(),
            domain@ == e@.subrange(at + 1, k as int),
        decreases e@.len() - k,
    {
        domain.push(e[k]);
        assert(e@.subrange(at + 1, k as int).push(e@[k as int]) =~= e@.subrange(at + 1, k + 1));
        k = k + 1;
    }
    assert(domain@ =~= e@.skip(at + 1));
    let dl = lower_chars(domain.as_slice());
    for m in 0..allowed.len()
        invariant
            doms == allowed@.map_values(|d: String| d@),
            dl@ == lower(e@.skip(at + 1)),
            e@ == email@,
            e@.len() <= MAX_EMAIL_CHARS,
            0 < at < e@.len(),
            e@[at as int] == '@',
            forall|j: int| 0 <= j < e@.len() ==> is_address_char(#[trigger] e@[j]),
            forall|j: int| 0 <= j < e@.len() && j != at ==> e@[j] != '@',
            forall|j: int| 0 <= j < m ==> dl@ != lower(#[trigger] doms[j]),
    {
        let candidate = chars_of(allowed[m].as_str());
        let cl = lower_chars(candidate.as_slice());
        if chars_equal(dl.as_slice(), cl.as_slice()) {
            assert(lower(doms[m as int]) == dl@);
            assert(0 < at < e@.len() && e@[at as int] == '@');
            return true;
        }
    }
    proof {
        if email_allowed(email@, doms) {
            let p = choose|p: int|
                0 < p < e@.len() && #[trigger] e@[p] == '@' && (forall|q: int|
                    0 <= q < e@.len() && q != p ==> e@[q] != '@') && exists|k: int|
                    0 <= k < doms.len() && lower(e@.skip(p + 1)) == lower(#[trigger] doms[k]);
            assert(p == at);
            let j = choose|j: int| 0 <= j < doms.len() && lower(e@.skip(p + 1)) == lower(
                #[trigger] doms[j],
            );
            assert(dl@ != lower(doms[j]));
        }
    }
    false
}

/// The intent named by a wire value.
pub open spec fn intent_of(value: Seq<char>) -> Option<EmailReadIntent> {
    if value == "authenticate"@ {
        Some(EmailReadIntent::Authenticate)
    } else if value == "change_email"@ {
        Some(EmailReadIntent::ChangeEmail)
    } else if value == "deregister"@ {
        Some(EmailReadIntent::Deregister)
    } else {
        None
    }
}

/// The intent named by a wire value (`authenticate`, `change_email`,
/// `deregister`); `None` for anything else.
pub fn parse_intent(value: &str) -> (r: Option<EmailReadIntent>)
    ensures
        r == intent_of(value@),
{
    let v = chars_of(value);
    if chars_equal(v.as_slice(), chars_of("authenticate").as_slice()) {
        Some(EmailReadIntent::Authenticate)
    } else if chars_equal(v.as_slice(), chars_of("change_email").as_slice()) {
        Some(EmailReadIntent::ChangeEmail)
    } else if chars_equal(v.as_slice(), chars_of("deregister").as_slice()) {
        Some(EmailReadIntent::Deregister)
    } else {
        None
    }
}

/// Every printable non-space ASCII character (`!` through `~`) may stand
/// in an address: `local@domain` with a non-empty local part, no other
/// `@`, a domain equal to an allowed one ignoring ASCII case, and at most
/// [`MAX_EMAIL_CHARS`] characters in all, is accepted.
pub proof fn lemma_printable_address_accepted(
    local: Seq<char>,
    domain: Seq<char>,
    allowed: Seq<Seq<char>>,
    k: int,
)
    requires
        local.len() > 0,
        local.len() + 1 + domain.len() <= MAX_EMAIL_CHARS,
        forall|i: int| 0 <= i < local.len() ==> '!' <= #[trigger] local[i] && local[i] <= '~' && local[i] != '@',
        forall|i: int| 0 <= i < domain.len() ==> '!' <= #[trigger] domain[i] && domain[i] <= '~' && domain[i] != '@',
        0 <= k < allowed.len(),
        lower(domain) == lower(allowed[k]),
    ensures
        email_allowed(local + seq!['@'] + domain, allowed),
{
    let e = local + seq!['@'] + domain;
    let p = local.len() as int;
    assert forall|i: int| 0 <= i < e.len() implies is_address_char(#[trigger] e[i]) by {
        if i < p {
            assert(e[i] == local[i]);
        } else if i > p {
            assert(e[i] == domain[i - p - 1]);
        }
    }
    assert forall|q: int| 0 <= q < e.len() && q != p implies e[q] != '@' by {
        if q < p {
            assert(e[q] == local[q]);
        } else {
            assert(e[q] == domain[q - p - 1]);
        }
    }
    assert(e.skip(p + 1) =~= domain);
    assert(e[p] == '@');
}

} // verus!
