//! Streaming checks on uploaded PDFs, and the storage names derived from
//! their content digest.

use vstd::prelude::*;
use crate::chars::{chars_of, string_of};
use crate::hex::{is_lower_hex, is_lower_hex_char};

verus! {

/// Smallest accepted PDF: an 8-byte header, an end of line and `%%EOF`.
pub const MIN_PDF_BYTES: u64 = 14;

/// Bytes of the header that are kept: `%PDF-` and a version `d.d`.
pub const HEADER_BYTES: usize = 8;

/// How many trailing bytes are searched for the `%%EOF` marker.
pub const TAIL_BYTES: usize = 1024;

/// Why an upload is not accepted as a PDF.
#[derive(Clone, Copy, Debug, PartialEq, Eq, Structural)]
pub enum PdfGuardError {
    TooSmall { size: u64, min: u64 },
    TooLarge { max: u64 },
    BadHeader,
    BadVersion,
    BadFooter,
}

/// The smaller of two integers.
pub open spec fn min_int(a: int, b: int) -> int {
    if a < b {
        a
    } else {
        b
    }
}

/// The first bytes of the content that the header check reads.
pub open spec fn head_of(data: Seq<u8>) -> Seq<u8> {
    data.take(min_int(HEADER_BYTES as int, data.len() as int))
}

/// The last bytes of the content that the footer check reads.
pub open spec fn tail_of(data: Seq<u8>) -> Seq<u8> {
    data.skip(data.len() - min_int(TAIL_BYTES as int, data.len() as int))
}

/// White space in the PDF sense: NUL, tab, line feed, form feed,
/// carriage return, space.
pub open spec fn is_pdf_space(b: u8) -> bool {
    b == 0 || b == 9 || b == 10 || b == 12 || b == 13 || b == 32
}

/// `t` without trailing PDF white space.
pub open spec fn strip_trailing_space(t: Seq<u8>) -> Seq<u8>
    decreases t.len(),
{
    if t.len() > 0 && is_pdf_space(t.last()) {
        strip_trailing_space(t.drop_last())
    } else {
        t
    }
}

/// The `%PDF-` magic.
pub open spec fn pdf_magic() -> Seq<u8> {
    seq![37u8, 80u8, 68u8, 70u8, 45u8]
}

/// The `%%EOF` marker.
pub open spec fn eof_marker() -> Seq<u8> {
    seq![37u8, 37u8, 69u8, 79u8, 70u8]
}

/// Whether the 8-byte header names a supported version: 1.0 to 1.7 or 2.0.
pub open spec fn supported_version(h: Seq<u8>) -> bool {
    &&& h[6] == 46u8
    &&& ((h[5] == 49u8 && 48u8 <= h[7] && h[7] <= 55u8) || (h[5] == 50u8 && h[7] == 48u8))
}

/// Whether, trailing white space aside, the tail ends with `%%EOF`.
pub open spec fn has_footer(tail: Seq<u8>) -> bool {
    let u = strip_trailing_space(tail);
    u.len() >= 5 && u.skip(u.len() - 5) == eof_marker()
}

/// The verdict on complete content: size first, then header, version and
/// footer.
pub open spec fn pdf_verdict(data: Seq<u8>) -> Result<(), PdfGuardError> {
    if data.len() < MIN_PDF_BYTES {
        Err(PdfGuardError::TooSmall { size: data.len() as u64, min: MIN_PDF_BYTES })
    } else if head_of(data).take(5) != pdf_magic() {
        Err(PdfGuardError::BadHeader)
    } else if !supported_version(head_of(data)) {
        Err(PdfGuardError::BadVersion)
    } else if !has_footer(tail_of(data)) {
        Err(PdfGuardError::BadFooter)
    } else {
        Ok(())
    }
}

/// Checks a PDF as it streams in, keeping only its first and last bytes.
pub struct PdfStreamGuard {
    max_bytes: u64,
    total: u64,
    head: Vec<u8>,
    tail: Vec<u8>,
    fed: Ghost<Seq<u8>>,
}

impl PdfStreamGuard {
    /// The guard's bookkeeping matches the content it was fed.
    pub closed spec fn wf(self) -> bool {
        &&& self.total == self.fed@.len()
        &&& self.total <= self.max_bytes
        &&& self.head@ == head_of(self.fed@)
        &&& self.tail@ == tail_of(self.fed@)
    }

    /// The content accepted so far.
    pub closed spec fn content(self) -> Seq<u8> {
        self.fed@
    }

    /// The size limit.
    pub closed spec fn limit(self) -> u64 {
        self.max_bytes
    }

    /// A guard for content of at most `max_bytes` bytes.
    pub fn new(max_bytes: u64) -> (g: Self)
        ensures
            g.wf(),
            g.content() == Seq::<u8>::empty(),
            g.limit() == max_bytes,
    {
        let g = PdfStreamGuard {
            max_bytes,
            total: 0,
            head: Vec::new(),
            tail: Vec::new(),
            fed: Ghost(Seq::empty()),
        };
        assert(head_of(Seq::<u8>::empty()) =~= Seq::<u8>::empty());
        assert(tail_of(Seq::<u8>::empty()) =~= Seq::<u8>::empty());
        g
    }

    /// Accepts the next chunk, or refuses it (and keeps the state) when
    /// the content would exceed the limit.
    pub fn update(&mut self, chunk: &[u8]) -> (r: Result<(), PdfGuardError>)
        requires
            old(self).wf(),
        ensures
            final(self).wf(),
            final(self).limit() == old(self).limit(),
            old(self).content().len() + chunk@.len() <= old(self).limit() ==> {
                &&& r is Ok
                &&& final(self).content() == old(self).content() + chunk@
            },
            old(self).content().len() + chunk@.len() > old(self).limit() ==> {
                &&& r == Err::<(), PdfGuardError>(PdfGuardError::TooLarge { max: old(self).limit() })
                &&& final(self).content() == old(self).content()
            },
    {
        let room = self.max_bytes - self.total;
        if chunk.len() as u64 > room {
            return Err(PdfGuardError::TooLarge { max: self.max_bytes });
        }
        let ghost combined = self.fed@ + chunk@;
        let head = keep_first(self.head.as_slice(), chunk, HEADER_BYTES);
        let tail = keep_last(self.tail.as_slice(), chunk, TAIL_BYTES);
        proof {
            let old_fed = self.fed@;
            assert(head@ =~= head_of(combined)) by {
                let h = min_int(HEADER_BYTES as int, old_fed.len() as int);
                assert(self.head@ == old_fed.take(h));
                assert forall|i: int| 0 <= i < head@.len() implies head@[i] == head_of(combined)[i] by {
                    if i < self.head@.len() {
                        assert(head@[i] == self.head@[i]);
                    }
                }
            }
            assert(tail@ =~= tail_of(combined)) by {
                let t = min_int(TAIL_BYTES as int, old_fed.len() as int);
                assert(self.tail@ == old_fed.skip(old_fed.len() - t));
                let n = min_int(TAIL_BYTES as int, combined.len() as int);
                assert forall|i: int| 0 <= i < tail@.len() implies tail@[i] == tail_of(combined)[i] by {
                    let k = self.tail@.len() + chunk@.len() - n + i;
                    if k < self.tail@.len() {
                        assert(combined[combined.len() - n + i] == old_fed[old_fed.len() - t + k]);
                    } else {
                        assert(combined[combined.len() - n + i] == chunk@[k - self.tail@.len()]);
                    }
                }
            }
        }
        self.head = head;
        self.tail = tail;
        self.total = self.total + chunk.len() as u64;
        self.fed = Ghost(combined);
        Ok(())
    }

    /// The verdict on everything accepted.
    pub fn finish(&self) -> (r: Result<(), PdfGuardError>)
        requires
            self.wf(),
        ensures
            r == pdf_verdict(self.content()),
    {
        if self.total < MIN_PDF_BYTES {
            return Err(PdfGuardError::TooSmall { size: self.total, min: MIN_PDF_BYTES });
        }
        let h = &self.head;
        if !(h[0] == 37 && h[1] == 80 && h[2] == 68 && h[3] == 70 && h[4] == 45) {
            proof {
                if head_of(self.fed@).take(5) == pdf_magic() {
                    assert(head_of(self.fed@).take(5)[0] == h@[0]);
                    assert(head_of(self.fed@).take(5)[1] == h@[1]);
                    assert(head_of(self.fed@).take(5)[2] == h@[2]);
                    assert(head_of(self.fed@).take(5)[3] == h@[3]);
                    assert(head_of(self.fed@).take(5)[4] == h@[4]);
                }
            }
            return Err(PdfGuardError::BadHeader);
        }
        assert(head_of(self.fed@).take(5) =~= pdf_magic());
        if !(h[6] == 46 && ((h[5] == 49 && 48 <= h[7] && h[7] <= 55) || (h[5] == 50 && h[7] == 48))) {
            return Err(PdfGuardError::BadVersion);
        }
        if !footer_present(self.tail.as_slice()) {
            return Err(PdfGuardError::BadFooter);
        }
        Ok(())
    }
}

/// The chunks' bytes, in order.
pub open spec fn flatten(chunks: Seq<Vec<u8>>) -> Seq<u8>
    decreases chunks.len(),
{
    if chunks.len() == 0 {
        Seq::empty()
    } else {
        flatten(chunks.drop_last()) + chunks.last()@
    }
}

/// How many of `chunks`, taken in order from index `i`, a guard that
/// already holds `used` bytes under `limit` accepts before the first it
/// refuses (all of them when none is refused).
pub open spec fn accepted_chunks(used: int, limit: int, chunks: Seq<Vec<u8>>, i: nat) -> nat
    decreases chunks.len() - i,
{
    if i >= chunks.len() {
        chunks.len()
    } else if used + flatten(chunks.take((i + 1) as int)).len() > limit {
        i
    } else {
        accepted_chunks(used, limit, chunks, i + 1)
    }
}

/// Feeds `chunks` in order, then gives the verdict. How the content is cut
/// into chunks does not matter: the result is `TooLarge` when the content
/// exceeds the limit, and otherwise the verdict on the whole content.
/// Feeding stops at the first chunk the guard refuses: the guard then holds
/// its old content and the chunks before that one.
pub fn feed(guard: &mut PdfStreamGuard, chunks: &Vec<Vec<u8>>) -> (r: Result<(), PdfGuardError>)
    requires
        old(guard).wf(),
    ensures
        final(guard).wf(),
        final(guard).limit() == old(guard).limit(),
        final(guard).content() == old(guard).content() + flatten(
            chunks@.take(
                accepted_chunks(
                    old(guard).content().len() as int,
                    old(guard).limit() as int,
                    chunks@,
                    0,
                ) as int,
            ),
        ),
        old(guard).content().len() + flatten(chunks@).len() > old(guard).limit() ==> r == Err::<
            (),
            PdfGuardError,
        >(PdfGuardError::TooLarge { max: old(guard).limit() }),
        old(guard).content().len() + flatten(chunks@).len() <= old(guard).limit() ==> r
            == pdf_verdict(old(guard).content() + flatten(chunks@)),
{
    let ghost start = guard.content();
    let ghost max = guard.limit();
    let mut i: usize = 0;
    assert(chunks@.take(0) =~= Seq::<Vec<u8>>::empty());
    while i < chunks.len()
        invariant
            i <= chunks@.len(),
            guard.wf(),
            guard.limit() == max,
            start == old(guard).content(),
            max == old(guard).limit(),
            guard.content() == start + flatten(chunks@.take(i as int)),
            accepted_chunks(start.len() as int, max as int, chunks@, 0) == accepted_chunks(
                start.len() as int,
                max as int,
                chunks@,
                i as nat,
            ),
        decreases chunks@.len() - i,
    {
        proof {
            assert(chunks@.take(i + 1).drop_last() =~= chunks@.take(i as int));
            assert(chunks@.take(i + 1).last() == chunks@[i as int]);
            lemma_flatten_prefix_len(chunks@, i + 1);
        }
        assert(flatten(chunks@.take(i + 1)) =~= flatten(chunks@.take(i as int))
            + chunks@[i as int]@);
        match guard.update(chunks[i].as_slice()) {
            Ok(()) => {},
            Err(e) => {
                assert(accepted_chunks(start.len() as int, max as int, chunks@, i as nat) == i);
                return Err(e);
            },
        }
        assert(start + flatten(chunks@.take(i + 1)) =~= start + flatten(chunks@.take(i as int))
            + chunks@[i as int]@);
        i = i + 1;
    }
    assert(chunks@.take(chunks@.len() as int) =~= chunks@);
    assert(accepted_chunks(start.len() as int, max as int, chunks@, i as nat) == chunks@.len());
    guard.finish()
}

/// The bytes of a prefix of the chunks are no more than all the bytes.
proof fn lemma_flatten_prefix_len(chunks: Seq<Vec<u8>>, k: int)
    requires
        0 <= k <= chunks.len(),
    ensures
        flatten(chunks.take(k)).len() <= flatten(chunks).len(),
    decreases chunks.len() - k,
{
    if k < chunks.len() {
        lemma_flatten_prefix_len(chunks, k + 1);
        assert(chunks.take(k + 1).drop_last() =~= chunks.take(k));
    } else {
        assert(chunks.take(k) =~= chunks);
    }
}

/// The first `n` bytes of `a` followed by `b`, given that `a` already
/// holds the first bytes of its own content.
fn keep_first(a: &[u8], b: &[u8], n: usize) -> (r: Vec<u8>)
    requires
        a@.len() <= n,
    ensures
        r@ == (a@ + b@).take(min_int(n as int, (a@.len() + b@.len()) as int)),
{
    let room = n - a.len();
    let keep = if b.len() < room { a.len() + b.len() } else { n };
    let mut r: Vec<u8> = Vec::new();
    let mut i: usize = 0;
    while i < keep
        invariant
            i <= keep,
            keep == min_int(n as int, (a@.len() + b@.len()) as int),
            keep <= a@.len() + b@.len(),
            r@ == (a@ + b@).take(i as int),
        decreases keep - i,
    {
        let byte = if i < a.len() { a[i] } else { b[i - a.len()] };
        r.push(byte);
        assert((a@ + b@).take(i as int).push(byte) =~= (a@ + b@).take(i + 1));
        i = i + 1;
    }
    r
}

/// The last `n` bytes of `a` followed by `b`.
fn keep_last(a: &[u8], b: &[u8], n: usize) -> (r: Vec<u8>)
    requires
        a@.len() <= n <= 4096,
    ensures
        r@ == (a@ + b@).skip(a@.len() + b@.len() - min_int(n as int, (a@.len() + b@.len()) as int)),
{
    if b.len() >= n {
        let mut r: Vec<u8> = Vec::new();
        let start = b.len() - n;
        let mut i: usize = start;
        while i < b.len()
            invariant
                start <= i <= b@.len(),
                start == b@.len() - n,
                r@ == b@.subrange(start as int, i as int),
            decreases b@.len() - i,
        {
            r.push(b[i]);
            assert(b@.subrange(start as int, i as int).push(b@[i as int]) =~= b@.subrange(
                start as int,
                i + 1,
            ));
            i = i + 1;
        }
        assert(r@ =~= (a@ + b@).skip(a@.len() + b@.len() - n));
        return r;
    }
    let total = a.len() + b.len();
    let keep = if total < n { total } else { n };
    let start = total - keep;
    let mut r: Vec<u8> = Vec::new();
    let mut i: usize = start;
    while i < total
        invariant
            start <= i <= total,
            total == a@.len() + b@.len(),
            start == total - min_int(n as int, total as int),
            r@ == (a@ + b@).subrange(start as int, i as int),
        decreases total - i,
    {
        let byte = if i < a.len() { a[i] } else { b[i - a.len()] };
        r.push(byte);
        assert((a@ + b@).subrange(start as int, i as int).push(byte) =~= (a@ + b@).subrange(
            start as int,
            i + 1,
        ));
        i = i + 1;
    }
    assert((a@ + b@).subrange(start as int, total as int) =~= (a@ + b@).skip(start as int));
    r
}

fn pdf_space(b: u8) -> (r: bool)
    ensures
        r == is_pdf_space(b),
{
    b == 0 || b == 9 || b == 10 || b == 12 || b == 13 || b == 32
}

/// Whether the tail ends with `%%EOF`, trailing white space aside.
fn footer_present(tail: &[u8]) -> (r: bool)
    ensures
        r == has_footer(tail@),
{
    let mut end: usize = tail.len();
    assert(tail@.take(end as int) =~= tail@);
    while end > 0 && pdf_space(tail[end - 1])
        invariant
            end <= tail@.len(),
            strip_trailing_space(tail@) == strip_trailing_space(tail@.take(end as int)),
        decreases end,
    {
        assert(tail@.take(end as int).drop_last() =~= tail@.take(end - 1));
        end = end - 1;
    }
    let ghost u = tail@.take(end as int);
    assert(strip_trailing_space(u) == u) by {
        if end > 0 {
            assert(u.last() == tail@[end - 1]);
        }
    }
    if end < 5 {
        return false;
    }
    let ok = tail[end - 5] == 37 && tail[end - 4] == 37 && tail[end - 3] == 69 && tail[end - 2]
        == 79 && tail[end - 1] == 70;
    assert(ok == (u.skip(u.len() - 5) =~= eof_marker())) by {
        assert(u.skip(u.len() - 5)[0] == tail@[end - 5]);
        assert(u.skip(u.len() - 5)[1] == tail@[end - 4]);
        assert(u.skip(u.len() - 5)[2] == tail@[end - 3]);
        assert(u.skip(u.len() - 5)[3] == tail@[end - 2]);
        assert(u.skip(u.len() - 5)[4] == tail@[end - 1]);
    }
    ok
}

/// Whether `h` is a content digest: 32 lowercase hex digits.
pub open spec fn is_content_hash(h: Seq<char>) -> bool {
    h.len() == 32 && is_lower_hex(h)
}

/// Where the PDF with digest `h` is stored, relative to the storage root:
/// two levels of two-digit directories, then the digest and `.pdf`.
pub open spec fn rel_path_of(h: Seq<char>) -> Seq<char> {
    h.subrange(0, 2) + seq!['/'] + h.subrange(2, 4) + seq!['/'] + h + seq!['.', 'p', 'd', 'f']
}

/// Whether `hash` is a content digest.
pub fn valid_content_hash(hash: &str) -> (r: bool)
    ensures
        r == is_content_hash(hash@),
{
    let c = chars_of(hash);
    if c.len() != 32 {
        return false;
    }
    for i in 0..c.len()
        invariant
            c@ == hash@,
            forall|j: int| 0 <= j < i ==> is_lower_hex_char(#[trigger] c@[j]),
    {
        let ch = c[i];
        if !(('0' <= ch && ch <= '9') || ('a' <= ch && ch <= 'f')) {
            return false;
        }
    }
    true
}

/// The storage path of the PDF with digest `hash`; `None` when `hash` is
/// not a content digest.
pub fn content_hash_rel_path(hash: &str) -> (r: Option<String>)
    ensures
        r matches Some(p) ==> is_content_hash(hash@) && p@ == rel_path_of(hash@),
        r is None ==> !is_content_hash(hash@),
{
    if !valid_content_hash(hash) {
        return None;
    }
    let c = chars_of(hash);
    let mut out: Vec<char> = Vec::new();
    out.push(c[0]);
    out.push(c[1]);
    out.push('/');
    out.push(c[2]);
    out.push(c[3]);
    out.push('/');
    for i in 0..c.len()
        invariant
            c@ == hash@,
            c@.len() == 32,
            out@ == c@.subrange(0, 2) + seq!['/'] + c@.subrange(2, 4) + seq!['/'] + c@.take(
                i as int,
            ),
    {
        out.push(c[i]);
        assert(c@.take(i as int).push(c@[i as int]) =~= c@.take(i + 1));
        assert(out@ =~= c@.subrange(0, 2) + seq!['/'] + c@.subrange(2, 4) + seq!['/'] + c@.take(
            i + 1,
        ));
    }
    out.push('.');
    out.push('p');
    out.push('d');
    out.push('f');
    assert(c@.take(32) =~= c@);
    assert(out@ =~= rel_path_of(hash@));
    Some(string_of(out.as_slice()))
}

/// Characters kept in a download file name: ASCII letters and digits,
/// `.`, `-` and `_`.
pub open spec fn is_filename_char(c: char) -> bool {
    ('a' <= c && c <= 'z') || ('A' <= c && c <= 'Z') || ('0' <= c && c <= '9') || c == '.' || c
        == '-' || c == '_'
}

/// The characters of `s` that a file name keeps, in order.
pub open spec fn filename_chars(s: Seq<char>) -> Seq<char>
    decreases s.len(),
{
    if s.len() == 0 {
        Seq::empty()
    } else if is_filename_char(s.last()) {
        filename_chars(s.drop_last()).push(s.last())
    } else {
        filename_chars(s.drop_last())
    }
}

/// The name used when nothing of the given one survives.
pub open spec fn fallback_filename() -> Seq<char> {
    seq!['a', 'r', 't', 'i', 'c', 'l', 'e', '.', 'p', 'd', 'f']
}

/// The download file name for `name`: its safe characters, or
/// `article.pdf` when none are left.
pub open spec fn attachment_filename(name: Seq<char>) -> Seq<char> {
    if filename_chars(name).len() == 0 {
        fallback_filename()
    } else {
        filename_chars(name)
    }
}

/// Every character that a file name keeps is a safe one.
proof fn lemma_filename_chars_safe(s: Seq<char>)
    ensures
        forall|i: int|
            0 <= i < filename_chars(s).len() ==> is_filename_char(#[trigger] filename_chars(s)[i]),
    decreases s.len(),
{
    if s.len() > 0 {
        let p = s.drop_last();
        lemma_filename_chars_safe(p);
        let f = filename_chars(s);
        assert forall|i: int| 0 <= i < f.len() implies is_filename_char(#[trigger] f[i]) by {
            if i < filename_chars(p).len() {
                assert(f[i] == filename_chars(p)[i]);
            }
        }
    }
}

/// A file name safe to put in a `Content-Disposition` header: never
/// empty, and made of safe characters only.
pub fn sanitize_attachment_filename(name: &str) -> (r: String)
    ensures
        r@ == attachment_filename(name@),
        r@.len() > 0,
        forall|i: int| 0 <= i < r@.len() ==> is_filename_char(#[trigger] r@[i]),
{
    proof {
        lemma_filename_chars_safe(name@);
    }
    let c = chars_of(name);
    let mut out: Vec<char> = Vec::new();
    for i in 0..c.len()
        invariant
            c@ == name@,
            out@ == filename_chars(c@.take(i as int)),
    {
        let ch = c[i];
        assert(c@.take(i + 1).drop_last() =~= c@.take(i as int));
        if ('a' <= ch && ch <= 'z') || ('A' <= ch && ch <= 'Z') || ('0' <= ch && ch <= '9') || ch
            == '.' || ch == '-' || ch == '_' {
            out.push(ch);
        }
    }
    assert(c@.take(c@.len() as int) =~= c@);
    if out.len() == 0 {
        let fallback: Vec<char> = vec!['a', 'r', 't', 'i', 'c', 'l', 'e', '.', 'p', 'd', 'f'];
        assert(fallback@ =~= fallback_filename());
        return string_of(fallback.as_slice());
    }
    string_of(out.as_slice())
}

} // verus!
