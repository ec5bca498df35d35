//! Domain-separated Ascon-Hash256 digests of e-mail addresses, tokens and
//! PDF contents, rendered as lowercase hex.
//!
//! Every digest hashes a one-byte domain tag followed by the input, so the
//! three kinds of digest are computed over disjoint sets of messages.

use vstd::prelude::*;
use vstd::string::StringSliceAdditionalSpecFns;
use ascon_hash::AsconHash256;
use crate::hex::{encode, hex_encode, is_lower_hex};

verus! {

#[verifier::external_type_specification]
#[verifier::external_body]
pub struct ExAsconHash256(AsconHash256);

/// The Ascon-Hash256 digest of `data` (NIST SP 800-232).
pub uninterp spec fn ascon_hash256(data: Seq<u8>) -> Seq<u8>;

/// The bytes absorbed so far by an Ascon-Hash256 hasher.
pub uninterp spec fn absorbed(h: AsconHash256) -> Seq<u8>;

/// `AsconHash256::new` (via `Digest`): a hasher that has absorbed nothing.
#[verifier::external_body]
fn hasher_new() -> (h: AsconHash256)
    ensures
        absorbed(h) == Seq::<u8>::empty(),
{
    <AsconHash256 as ascon_hash::Digest>::new()
}

/// `Update::update`: appends `data` to what the hasher has absorbed.
#[verifier::external_body]
fn hasher_update(h: &mut AsconHash256, data: &[u8])
    ensures
        absorbed(*final(h)) == absorbed(*old(h)) + data@,
{
    ascon_hash::Update::update(h, data)
}

/// `Digest::finalize`: the 32-byte digest of everything absorbed.
#[verifier::external_body]
fn hasher_finalize(h: AsconHash256) -> (d: Vec<u8>)
    ensures
        d@ == ascon_hash256(absorbed(h)),
        d@.len() == 32,
{
    ascon_hash::Digest::finalize(h).to_vec()
}

/// Domain tag of e-mail address digests.
pub const EMAIL_TAG: u8 = 1;

/// Domain tag of token digests.
pub const TOKEN_TAG: u8 = 2;

/// Domain tag of PDF content digests.
pub const PDF_TAG: u8 = 3;

/// The digest of `data` in the domain `tag`.
pub open spec fn tagged_digest(tag: u8, data: Seq<u8>) -> Seq<u8> {
    ascon_hash256(seq![tag] + data)
}

/// The e-mail address digest: 16 digest bytes, 32 hex characters.
pub open spec fn email_digest(data: Seq<u8>) -> Seq<char> {
    hex_encode(tagged_digest(EMAIL_TAG, data).take(16))
}

/// The token digest: 32 digest bytes, 64 hex characters.
pub open spec fn token_digest(data: Seq<u8>) -> Seq<char> {
    hex_encode(tagged_digest(TOKEN_TAG, data))
}

/// The PDF content digest: 16 digest bytes, 32 hex characters.
pub open spec fn pdf_digest(data: Seq<u8>) -> Seq<char> {
    hex_encode(tagged_digest(PDF_TAG, data).take(16))
}

/// The 32-byte digest of `data` in the domain `tag`.
pub(crate) fn tagged_digest_bytes(tag: u8, data: &[u8]) -> (d: Vec<u8>)
    ensures
        d@ == tagged_digest(tag, data@),
        d@.len() == 32,
{
    let mut h = hasher_new();
    let prefix: Vec<u8> = vec![tag];
    hasher_update(&mut h, prefix.as_slice());
    hasher_update(&mut h, data);
    assert(absorbed(h) =~= seq![tag] + data@);
    hasher_finalize(h)
}

/// The digest of `data` in domain `tag`, keeping the first `keep` bytes.
fn digest_hex(tag: u8, data: &[u8], keep: usize) -> (r: String)
    requires
        keep <= 32,
    ensures
        r@ == hex_encode(tagged_digest(tag, data@).take(keep as int)),
        r@.len() == 2 * keep,
        is_lower_hex(r@),
        tagged_digest(tag, data@).len() == 32,
{
    let mut d = tagged_digest_bytes(tag, data);
    d.truncate(keep);
    encode(d.as_slice())
}

/// Digest of an e-mail address exactly as given (no normalisation).
pub fn email(address: &str) -> (r: String)
    ensures
        r@ == email_digest(address.spec_bytes()),
        r@.len() == 32,
        is_lower_hex(r@),
{
    digest_hex(EMAIL_TAG, address.as_bytes(), 16)
}

/// Digest of a token string.
pub fn token(value: &str) -> (r: String)
    ensures
        r@ == token_digest(value.spec_bytes()),
        r@.len() == 64,
        is_lower_hex(r@),
{
    let r = digest_hex(TOKEN_TAG, value.as_bytes(), 32);
    assert(tagged_digest(TOKEN_TAG, value.spec_bytes()).take(32) =~= tagged_digest(
        TOKEN_TAG,
        value.spec_bytes(),
    ));
    r
}

/// Digest of the bytes of a PDF.
pub fn pdf(data: &[u8]) -> (r: String)
    ensures
        r@ == pdf_digest(data@),
        r@.len() == 32,
        is_lower_hex(r@),
{
    digest_hex(PDF_TAG, data, 16)
}

/// Incremental PDF digest: feeding the content in pieces gives the digest
/// of the pieces' concatenation.
pub struct PdfHasher {
    inner: AsconHash256,
}

impl PdfHasher {
    /// The hasher has absorbed the PDF domain tag before any content.
    pub closed spec fn wf(self) -> bool {
        absorbed(self.inner).len() >= 1 && absorbed(self.inner)[0] == PDF_TAG
    }

    /// The content fed so far.
    pub closed spec fn fed(self) -> Seq<u8> {
        absorbed(self.inner).skip(1)
    }

    /// A hasher that has been fed nothing.
    pub fn new() -> (h: Self)
        ensures
            h.wf(),
            h.fed() == Seq::<u8>::empty(),
    {
        let mut inner = hasher_new();
        let prefix: Vec<u8> = vec![PDF_TAG];
        hasher_update(&mut inner, prefix.as_slice());
        assert(absorbed(inner).skip(1) =~= Seq::<u8>::empty());
        PdfHasher { inner }
    }

    /// Feeds `chunk` after what was fed before.
    pub fn update(&mut self, chunk: &[u8])
        requires
            old(self).wf(),
        ensures
            final(self).wf(),
            final(self).fed() == old(self).fed() + chunk@,
    {
        hasher_update(&mut self.inner, chunk);
        assert(absorbed(self.inner).skip(1) =~= absorbed(old(self).inner).skip(1) + chunk@);
    }

    /// The PDF digest of everything fed.
    pub fn finalize(self) -> (r: String)
        requires
            self.wf(),
        ensures
            r@ == pdf_digest(self.fed()),
            r@.len() == 32,
    {
        let ghost all = absorbed(self.inner);
        assert(all =~= seq![PDF_TAG] + all.skip(1));
        let mut d = hasher_finalize(self.inner);
        d.truncate(16);
        encode(d.as_slice())
    }
}

} // verus!
