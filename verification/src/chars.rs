//! Character-level helpers shared by the validators.

use vstd::prelude::*;

verus! {

/// Appends `c` to `s` (std's `String::push`).
#[verifier::external_body]
pub(crate) fn string_push(s: &mut String, c: char)
    ensures
        final(s)@ == old(s)@.push(c),
{
    s.push(c);
}

/// The characters of `s`, in order.
pub fn chars_of(s: &str) -> (v: Vec<char>)
    ensures
        v@ == s@,
{
    let mut v: Vec<char> = Vec::new();
    for c in it: s.chars()
        invariant
            v@ == it.seq().take(it.index() as int),
            it.seq() == s@,
    {
        v.push(c);
    }
    assert(s@.take(s@.len() as int) =~= s@);
    v
}

/// An owned copy of `s`.
pub fn owned(s: &str) -> (r: String)
    ensures
        r@ == s@,
{
    s.to_owned()
}

/// A `String` holding exactly the characters of `v`.
pub fn string_of(v: &[char]) -> (s: String)
    ensures
        s@ == v@,
{
    let mut s = String::new();
    for i in 0..v.len()
        invariant
            s@ == v@.take(i as int),
    {
        string_push(&mut s, v[i]);
        assert(v@.take(i as int).push(v@[i as int]) =~= v@.take(i + 1));
    }
    assert(v@.take(v.len() as int) =~= v@);
    s
}

/// Whether a character outside ASCII has the Unicode White_Space property
/// (PropList.txt): U+0085, U+00A0, U+1680, U+2000 to U+200A, U+2028,
/// U+2029, U+202F, U+205F and U+3000.
pub open spec fn non_ascii_white_space(c: char) -> bool {
    let u = c as u32;
    u == 0x85 || u == 0xa0 || u == 0x1680 || (0x2000 <= u && u <= 0x200a) || u == 0x2028 || u
        == 0x2029 || u == 0x202f || u == 0x205f || u == 0x3000
}

/// ASCII white space: space, and tab through carriage return.
pub open spec fn ascii_white_space(c: char) -> bool {
    c == ' ' || ('\t' <= c && c <= '\r')
}

/// Unicode White_Space, as `char::is_whitespace` decides it.
pub open spec fn white_space(c: char) -> bool {
    if (c as u32) < 128 {
        ascii_white_space(c)
    } else {
        non_ascii_white_space(c)
    }
}

/// Whether `c` has the Unicode White_Space property, as
/// `char::is_whitespace` decides it.
pub(crate) fn is_whitespace(c: char) -> (b: bool)
    ensures
        b == white_space(c),
        (c as u32) < 128 ==> b == ascii_white_space(c),
        (c as u32) >= 128 ==> b == non_ascii_white_space(c),
{
    let u = c as u32;
    if u < 128 {
        u == 32 || (9 <= u && u <= 13)
    } else {
        u == 0x85 || u == 0xa0 || u == 0x1680 || (0x2000 <= u && u <= 0x200a) || u == 0x2028 || u
            == 0x2029 || u == 0x202f || u == 0x205f || u == 0x3000
    }
}

/// `s` without leading white space.
pub open spec fn trim_start(s: Seq<char>) -> Seq<char>
    decreases s.len(),
{
    if s.len() > 0 && white_space(s[0]) {
        trim_start(s.drop_first())
    } else {
        s
    }
}

/// `s` without trailing white space.
pub open spec fn trim_end(s: Seq<char>) -> Seq<char>
    decreases s.len(),
{
    if s.len() > 0 && white_space(s.last()) {
        trim_end(s.drop_last())
    } else {
        s
    }
}

/// `s` without leading and trailing white space (`str::trim`).
pub open spec fn trim(s: Seq<char>) -> Seq<char> {
    trim_end(trim_start(s))
}

proof fn lemma_trim_start_shape(s: Seq<char>)
    ensures
        trim_start(s).len() <= s.len(),
        trim_start(s) == s.skip(s.len() - trim_start(s).len()),
        trim_start(s).len() == 0 || !white_space(trim_start(s)[0]),
    decreases s.len(),
{
    if s.len() > 0 && white_space(s[0]) {
        lemma_trim_start_shape(s.drop_first());
        assert(s.drop_first().skip(s.drop_first().len() - trim_start(s).len()) =~= s.skip(
            s.len() - trim_start(s).len(),
        ));
    } else {
        assert(s.skip(0) =~= s);
    }
}

proof fn lemma_trim_end_shape(s: Seq<char>)
    ensures
        trim_end(s).len() <= s.len(),
        trim_end(s) == s.take(trim_end(s).len() as int),
        trim_end(s).len() == 0 || !white_space(trim_end(s).last()),
    decreases s.len(),
{
    if s.len() > 0 && white_space(s.last()) {
        lemma_trim_end_shape(s.drop_last());
        assert(s.drop_last().take(trim_end(s).len() as int) =~= s.take(trim_end(s).len() as int));
    } else {
        assert(s.take(s.len() as int) =~= s);
    }
}

/// Text without white space at either end is its own trim.
pub proof fn lemma_trim_fixed(s: Seq<char>)
    requires
        s.len() == 0 || (!white_space(s[0]) && !white_space(s.last())),
    ensures
        trim(s) == s,
{
    assert(trim_start(s) == s);
    assert(trim_end(s) == s);
}

/// Trimming twice is trimming once.
pub proof fn lemma_trim_idempotent(s: Seq<char>)
    ensures
        trim(trim(s)) == trim(s),
{
    let a = trim_start(s);
    lemma_trim_start_shape(s);
    lemma_trim_end_shape(a);
    let t = trim_end(a);
    if t.len() > 0 {
        assert(t[0] == a[0]);
    }
    lemma_trim_fixed(t);
}

proof fn lemma_trim_start_step(s: Seq<char>, i: int)
    requires
        0 <= i < s.len(),
        white_space(s[i]),
    ensures
        trim_start(s.skip(i)) == trim_start(s.skip(i + 1)),
{
    assert(s.skip(i).drop_first() =~= s.skip(i + 1));
}

proof fn lemma_trim_end_step(s: Seq<char>, j: int)
    requires
        0 < j <= s.len(),
        white_space(s[j - 1]),
    ensures
        trim_end(s.take(j)) == trim_end(s.take(j - 1)),
{
    assert(s.take(j).drop_last() =~= s.take(j - 1));
}

/// The characters of `v` without leading and trailing white space.
pub fn trim_chars(v: &[char]) -> (r: Vec<char>)
    ensures
        r@ == trim(v@),
{
    let n = v.len();
    let mut i: usize = 0;
    assert(v@.skip(0) =~= v@);
    while i < n && is_whitespace(v[i])
        invariant
            n == v@.len(),
            i <= n,
            trim_start(v@) == trim_start(v@.skip(i as int)),
        decreases n - i,
    {
        proof {
            lemma_trim_start_step(v@, i as int);
        }
        i = i + 1;
    }
    let ghost front = v@.skip(i as int);
    assert(trim_start(v@) == front) by {
        if i < n {
            assert(front[0] == v@[i as int]);
        } else {
            assert(front.len() == 0);
        }
    }
    let mut j: usize = n;
    assert(front.take(front.len() as int) =~= front);
    while j > i && is_whitespace(v[j - 1])
        invariant
            n == v@.len(),
            i <= j <= n,
            front == v@.skip(i as int),
            trim_end(front) == trim_end(front.take(j - i)),
        decreases j,
    {
        proof {
            assert(front[j - i - 1] == v@[j - 1]);
            lemma_trim_end_step(front, j - i);
        }
        j = j - 1;
    }
    let mut r: Vec<char> = Vec::new();
    let mut k: usize = i;
    while k < j
        invariant
            i <= k <= j <= n,
            n == v@.len(),
            r@ == v@.subrange(i as int, k as int),
        decreases j - k,
    {
        r.push(v[k]);
        assert(v@.subrange(i as int, k as int).push(v@[k as int]) =~= v@.subrange(
            i as int,
            k + 1,
        ));
        k = k + 1;
    }
    assert(front.take(j - i) =~= r@);
    assert(trim_end(front.take(j - i)) == front.take(j - i)) by {
        if j > i {
            assert(front.take(j - i).last() == v@[j - 1]);
        }
    }
    r
}

/// The characters of `s` without leading and trailing white space.
pub fn trimmed(s: &str) -> (r: Vec<char>)
    ensures
        r@ == trim(s@),
{
    let v = chars_of(s);
    trim_chars(v.as_slice())
}

/// The first character of `s` that `ok` rejects.
pub open spec fn first_rejected(s: Seq<char>, ok: spec_fn(char) -> bool) -> Option<char>
    decreases s.len(),
{
    if s.len() == 0 {
        None
    } else if !ok(s[0]) {
        Some(s[0])
    } else {
        first_rejected(s.drop_first(), ok)
    }
}

/// Skipping a prefix that `ok` accepts does not change the first rejected
/// character.
pub proof fn lemma_first_rejected_skip(s: Seq<char>, ok: spec_fn(char) -> bool, i: int)
    requires
        0 <= i <= s.len(),
        forall|j: int| 0 <= j < i ==> ok(#[trigger] s[j]),
    ensures
        first_rejected(s, ok) == first_rejected(s.skip(i), ok),
    decreases i,
{
    if i > 0 {
        lemma_first_rejected_skip(s.drop_first(), ok, i - 1);
        assert(s.drop_first().skip(i - 1) =~= s.skip(i));
    } else {
        assert(s.skip(0) =~= s);
    }
}

/// A sequence that `ok` accepts throughout has no rejected character.
pub proof fn lemma_first_rejected_none(s: Seq<char>, ok: spec_fn(char) -> bool)
    requires
        forall|j: int| 0 <= j < s.len() ==> ok(#[trigger] s[j]),
    ensures
        first_rejected(s, ok) is None,
{
    lemma_first_rejected_skip(s, ok, s.len() as int);
}

/// The first rejected character of `s`, when `s[i]` is rejected and all
/// before it are accepted.
pub proof fn lemma_first_rejected_at(s: Seq<char>, ok: spec_fn(char) -> bool, i: int)
    requires
        0 <= i < s.len(),
        forall|j: int| 0 <= j < i ==> ok(#[trigger] s[j]),
        !ok(s[i]),
    ensures
        first_rejected(s, ok) == Some(s[i]),
{
    lemma_first_rejected_skip(s, ok, i);
    assert(s.skip(i)[0] == s[i]);
}

/// When nothing is rejected, every character is accepted.
pub proof fn lemma_first_rejected_all(s: Seq<char>, ok: spec_fn(char) -> bool)
    requires
        first_rejected(s, ok) is None,
    ensures
        forall|j: int| 0 <= j < s.len() ==> ok(#[trigger] s[j]),
    decreases s.len(),
{
    if s.len() > 0 {
        lemma_first_rejected_all(s.drop_first(), ok);
        assert forall|j: int| 0 <= j < s.len() implies ok(#[trigger] s[j]) by {
            if j > 0 {
                assert(s[j] == s.drop_first()[j - 1]);
            }
        }
    }
}

/// The text split at every `sep` (an empty text is one empty piece).
pub open spec fn split_on(s: Seq<char>, sep: char) -> Seq<Seq<char>>
    decreases s.len(),
{
    if s.len() == 0 {
        seq![Seq::empty()]
    } else {
        let p = split_on(s.drop_last(), sep);
        if s.last() == sep {
            p.push(Seq::empty())
        } else {
            p.update(p.len() - 1, p.last().push(s.last()))
        }
    }
}

/// The pieces of `s` between the separators `sep`.
pub fn split_chars(s: &[char], sep: char) -> (parts: Vec<Vec<char>>)
    ensures
        parts@.map_values(|p: Vec<char>| p@) == split_on(s@, sep),
        parts@.len() >= 1,
{
    let mut parts: Vec<Vec<char>> = Vec::new();
    parts.push(Vec::new());
    let mut i: usize = 0;
    assert(s@.take(0) =~= Seq::<char>::empty());
    assert(parts@.map_values(|p: Vec<char>| p@) =~= seq![Seq::<char>::empty()]);
    while i < s.len()
        invariant
            i <= s@.len(),
            parts@.map_values(|p: Vec<char>| p@) == split_on(s@.take(i as int), sep),
            parts@.len() >= 1,
        decreases s@.len() - i,
    {
        let c = s[i];
        let ghost before = parts@.map_values(|p: Vec<char>| p@);
        assert(s@.take(i + 1).drop_last() =~= s@.take(i as int));
        if c == sep {
            parts.push(Vec::new());
            assert(parts@.map_values(|p: Vec<char>| p@) =~= before.push(Seq::empty()));
        } else {
            let mut piece = parts.pop().unwrap();
            piece.push(c);
            parts.push(piece);
            assert(parts@.map_values(|p: Vec<char>| p@) =~= before.update(
                before.len() - 1,
                before.last().push(c),
            ));
        }
        i = i + 1;
    }
    assert(s@.take(s@.len() as int) =~= s@);
    parts
}

/// Whether two character sequences are equal.
pub fn chars_equal(a: &[char], b: &[char]) -> (eq: bool)
    ensures
        eq == (a@ == b@),
{
    if a.len() != b.len() {
        return false;
    }
    for i in 0..a.len()
        invariant
            a@.len() == b@.len(),
            forall|j: int| 0 <= j < i ==> a@[j] == b@[j],
    {
        if a[i] != b[i] {
            return false;
        }
    }
    assert(a@ =~= b@);
    true
}

} // verus!
