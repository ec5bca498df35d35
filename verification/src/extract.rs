//! Reading values back out of what the service renders: search text with
//! its highlight marks removed, and the token of a download URL.

use vstd::prelude::*;
use crate::chars::{chars_of, string_of};

verus! {

/// Whether `pat` occurs in `s` at position `i`.
pub open spec fn occurs_at(s: Seq<char>, pat: Seq<char>, i: int) -> bool {
    0 <= i && i + pat.len() <= s.len() && s.subrange(i, i + pat.len()) == pat
}

/// `s` with every occurrence of `pat` removed, scanning from the left and
/// never reusing a removed character (as `str::replace` with `""` does).
pub open spec fn remove_all(s: Seq<char>, pat: Seq<char>) -> Seq<char>
    recommends
        pat.len() > 0,
    decreases s.len(),
{
    if s.len() == 0 || pat.len() == 0 {
        s
    } else if occurs_at(s, pat, 0) {
        remove_all(s.skip(pat.len() as int), pat)
    } else {
        seq![s[0]] + remove_all(s.skip(1), pat)
    }
}

/// Whether `pat` occurs in `v` at position `i`.
fn matches_at(v: &Vec<char>, pat: &Vec<char>, i: usize) -> (b: bool)
    requires
        i <= v@.len(),
    ensures
        b == occurs_at(v@, pat@, i as int),
{
    if pat.len() > v.len() - i {
        return false;
    }
    let mut k: usize = 0;
    while k < pat.len()
        invariant
            k <= pat@.len(),
            i + pat@.len() <= v.len(),
            forall|j: int| 0 <= j < k ==> v@[i + j] == pat@[j],
        decreases pat@.len() - k,
    {
        if v[i + k] != pat[k] {
            assert(v@.subrange(i as int, i + pat@.len())[k as int] != pat@[k as int]);
            return false;
        }
        k = k + 1;
    }
    assert(v@.subrange(i as int, i + pat@.len()) =~= pat@);
    true
}

/// `v` with every occurrence of `pat` removed, from the left.
fn remove_chars(v: &Vec<char>, pat: &Vec<char>) -> (r: Vec<char>)
    requires
        pat@.len() > 0,
    ensures
        r@ == remove_all(v@, pat@),
{
    let mut out: Vec<char> = Vec::new();
    let mut i: usize = 0;
    assert(v@.skip(0) =~= v@);
    while i < v.len()
        invariant
            i <= v@.len(),
            pat@.len() > 0,
            remove_all(v@, pat@) == out@ + remove_all(v@.skip(i as int), pat@),
        decreases v@.len() - i,
    {
        let ghost rest = v@.skip(i as int);
        if matches_at(v, pat, i) {
            assert(rest.subrange(0, pat@.len() as int) =~= v@.subrange(i as int, i + pat@.len()));
            assert(rest.skip(pat@.len() as int) =~= v@.skip(i + pat@.len()));
            i = i + pat.len();
        } else {
            assert(rest.len() >= pat@.len() ==> rest.subrange(0, pat@.len() as int) =~= v@.subrange(
                i as int,
                i + pat@.len(),
            ));
            assert(rest.skip(1) =~= v@.skip(i + 1));
            assert(out@.push(v@[i as int]) =~= out@ + seq![rest[0]]);
            out.push(v[i]);
            i = i + 1;
        }
    }
    assert(v@.skip(v@.len() as int) =~= Seq::<char>::empty());
    assert(out@ + Seq::<char>::empty() =~= out@);
    out
}

/// Search text without its highlight marks: every `<mark>` removed, then
/// every `</mark>`.
pub fn strip_marks(text: &str) -> (r: String)
    ensures
        r@ == remove_all(remove_all(text@, "<mark>"@), "</mark>"@),
{
    let open = chars_of("<mark>");
    let close = chars_of("</mark>");
    proof {
        reveal_strlit("<mark>");
        reveal_strlit("</mark>");
    }
    let v = chars_of(text);
    let without_open = remove_chars(&v, &open);
    let without_both = remove_chars(&without_open, &close);
    string_of(without_both.as_slice())
}

/// The first position at or after `from` where `pat` occurs in `s`.
pub open spec fn first_occurrence(s: Seq<char>, pat: Seq<char>, from: int) -> Option<int>
    decreases s.len() + 1 - from,
{
    if from < 0 || from + pat.len() > s.len() {
        None
    } else if occurs_at(s, pat, from) {
        Some(from)
    } else {
        first_occurrence(s, pat, from + 1)
    }
}

/// The text between the first `?token=` of a URL and the next one (or the
/// end); `None` when the URL holds no `?token=`.
pub open spec fn url_token(url: Seq<char>) -> Option<Seq<char>> {
    let pat = "?token="@;
    match first_occurrence(url, pat, 0) {
        None => None,
        Some(i) => {
            let start = i + pat.len();
            match first_occurrence(url, pat, start) {
                Some(j) => Some(url.subrange(start, j)),
                None => Some(url.subrange(start, url.len() as int)),
            }
        },
    }
}

/// A first occurrence is an occurrence, at or after where the search began.
pub proof fn lemma_first_occurrence_occurs(s: Seq<char>, pat: Seq<char>, from: int)
    requires
        first_occurrence(s, pat, from) is Some,
    ensures
        from <= first_occurrence(s, pat, from)->Some_0,
        occurs_at(s, pat, first_occurrence(s, pat, from)->Some_0),
    decreases s.len() + 1 - from,
{
    if !occurs_at(s, pat, from) {
        lemma_first_occurrence_occurs(s, pat, from + 1);
    }
}

/// The first position at or after `from` where `pat` occurs in `v`.
fn find_from(v: &Vec<char>, pat: &Vec<char>, from: usize) -> (r: Option<usize>)
    requires
        from <= v@.len(),
    ensures
        match r {
            Some(i) => first_occurrence(v@, pat@, from as int) == Some(i as int),
            None => first_occurrence(v@, pat@, from as int) is None,
        },
{
    let mut i = from;
    loop
        invariant
            from <= i <= v@.len(),
            first_occurrence(v@, pat@, from as int) == first_occurrence(v@, pat@, i as int),
        decreases v@.len() - i,
    {
        if matches_at(v, pat, i) {
            return Some(i);
        }
        if i == v.len() {
            assert(first_occurrence(v@, pat@, i + 1) is None);
            return None;
        }
        i = i + 1;
    }
}

/// The token of a minted download URL: what follows its first `?token=`,
/// up to another `?token=` if there is one. The URL must hold `?token=`.
pub fn token_from_url(url: &str) -> (r: String)
    requires
        url_token(url@) is Some,
    ensures
        url_token(url@) == Some(r@),
{
    let pat = chars_of("?token=");
    proof {
        reveal_strlit("?token=");
    }
    let v = chars_of(url);
    match find_from(&v, &pat, 0) {
        None => {
            assert(false);
            String::new()
        },
        Some(i) => {
            proof {
                lemma_first_occurrence_occurs(v@, pat@, 0);
                assert(occurs_at(v@, pat@, i as int));
                assert(i + pat@.len() <= v.len());
            }
            let start = i + pat.len();
            let end = match find_from(&v, &pat, start) {
                Some(j) => {
                    proof {
                        lemma_first_occurrence_occurs(v@, pat@, start as int);
                    }
                    j
                },
                None => v.len(),
            };
            let mut t: Vec<char> = Vec::new();
            let mut k = start;
            while k < end
                invariant
                    start <= k <= end <= v@.len(),
                    t@ == v@.subrange(start as int, k as int),
                decreases end - k,
            {
                t.push(v[k]);
                assert(v@.subrange(start as int, k + 1) =~= v@.subrange(start as int, k as int)
                    .push(v@[k as int]));
                k = k + 1;
            }
            string_of(t.as_slice())
        },
    }
}

/// `a` comes strictly before `b` in code-point order (the order of Rust
/// strings).
pub open spec fn lex_lt(a: Seq<char>, b: Seq<char>) -> bool
    decreases a.len(),
{
    if a.len() == 0 {
        b.len() > 0
    } else if b.len() == 0 {
        false
    } else if a[0] != b[0] {
        (a[0] as int) < (b[0] as int)
    } else {
        lex_lt(a.skip(1), b.skip(1))
    }
}

proof fn lemma_lex_irreflexive(a: Seq<char>)
    ensures
        !lex_lt(a, a),
    decreases a.len(),
{
    if a.len() > 0 {
        lemma_lex_irreflexive(a.skip(1));
    }
}

proof fn lemma_lex_transitive(a: Seq<char>, b: Seq<char>, c: Seq<char>)
    requires
        lex_lt(a, b),
        lex_lt(b, c),
    ensures
        lex_lt(a, c),
    decreases a.len(),
{
    if a.len() > 0 && b.len() > 0 && c.len() > 0 && a[0] == b[0] && b[0] == c[0] {
        lemma_lex_transitive(a.skip(1), b.skip(1), c.skip(1));
    }
}

proof fn lemma_lex_total(a: Seq<char>, b: Seq<char>)
    requires
        a != b,
    ensures
        lex_lt(a, b) || lex_lt(b, a),
    decreases a.len(),
{
    if a.len() > 0 && b.len() > 0 && a[0] == b[0] {
        if a.skip(1) == b.skip(1) {
            assert(a =~= seq![a[0]] + a.skip(1));
            assert(b =~= seq![b[0]] + b.skip(1));
        }
        lemma_lex_total(a.skip(1), b.skip(1));
    } else if a.len() > 0 && b.len() > 0 {
        assert((a[0] as int) != (b[0] as int));
    } else if a.len() == 0 && b.len() == 0 {
        assert(a =~= b);
    }
}

/// Whether `a` comes strictly before `b`.
fn chars_lt(a: &Vec<char>, b: &Vec<char>) -> (r: bool)
    ensures
        r == lex_lt(a@, b@),
{
    let mut i: usize = 0;
    assert(a@.skip(0) =~= a@);
    assert(b@.skip(0) =~= b@);
    while i < a.len() && i < b.len()
        invariant
            i <= a@.len(),
            i <= b@.len(),
            lex_lt(a@, b@) == lex_lt(a@.skip(i as int), b@.skip(i as int)),
        decreases a@.len() - i,
    {
        if a[i] != b[i] {
            return a[i] < b[i];
        }
        assert(a@.skip(i as int).skip(1) =~= a@.skip(i + 1));
        assert(b@.skip(i as int).skip(1) =~= b@.skip(i + 1));
        i = i + 1;
    }
    i < b.len()
}

/// `"Action::\""`, the opening of an action name in policy text.
pub open spec fn action_marker() -> Seq<char> {
    seq!['A', 'c', 't', 'i', 'o', 'n', ':', ':', '"']
}

/// The action names a policy text mentions, in order: each `Action::"`
/// followed by the text up to the next `"`; scanning stops at a name that
/// is never closed.
pub open spec fn action_names(rest: Seq<char>) -> Seq<Seq<char>>
    decreases rest.len(),
{
    match first_occurrence(rest, action_marker(), 0) {
        None => Seq::empty(),
        Some(i) => {
            let after = rest.skip(i + 9);
            match first_occurrence(after, seq!['"'], 0) {
                None => Seq::empty(),
                Some(e) => {
                    proof {
                        lemma_first_occurrence_occurs(rest, action_marker(), 0);
                        lemma_first_occurrence_occurs(after, seq!['"'], 0);
                    }
                    seq![after.take(e)] + action_names(after.skip(e + 1))
                },
            }
        },
    }
}

/// Whether `v` is in strictly increasing order.
pub open spec fn strictly_sorted(v: Seq<Seq<char>>) -> bool {
    forall|i: int, j: int| 0 <= i < j < v.len() ==> lex_lt(#[trigger] v[i], #[trigger] v[j])
}

/// The names found so far, as text.
spec fn name_views(v: Seq<Vec<char>>) -> Seq<Seq<char>> {
    v.map_values(|n: Vec<char>| n@)
}

/// Adds `x` to the strictly sorted `out` unless it is already there.
fn insert_sorted(out: &mut Vec<Vec<char>>, x: Vec<char>)
    requires
        strictly_sorted(name_views(old(out)@)),
    ensures
        strictly_sorted(name_views(final(out)@)),
        forall|s: Seq<char>|
            name_views(final(out)@).contains(s) <==> (name_views(old(out)@).contains(s) || s
                == x@),
{
    let ghost before = name_views(out@);
    let mut k: usize = 0;
    while k < out.len() && chars_lt(&out[k], &x)
        invariant
            k <= out@.len(),
            name_views(out@) == before,
            forall|i: int| 0 <= i < k ==> lex_lt(#[trigger] before[i], x@),
        decreases out@.len() - k,
    {
        k = k + 1;
    }
    if k < out.len() && !chars_lt(&x, &out[k]) && !chars_lt(&out[k], &x) {
        proof {
            if out@[k as int]@ != x@ {
                lemma_lex_total(out@[k as int]@, x@);
            }
            assert(before[k as int] == x@);
        }
        return;
    }
    proof {
        if k < out@.len() {
            if !lex_lt(x@, before[k as int]) {
                if before[k as int] != x@ {
                    lemma_lex_total(before[k as int], x@);
                }
            }
        }
    }
    let ghost bigger = k < out@.len() ==> lex_lt(x@, before[k as int]);
    out.insert(k, x);
    proof {
        let after = name_views(out@);
        assert(after =~= before.insert(k as int, x@));
        assert forall|i: int, j: int| 0 <= i < j < after.len() implies lex_lt(
            #[trigger] after[i],
            #[trigger] after[j],
        ) by {
            if j < k {
                assert(after[i] == before[i] && after[j] == before[j]);
            } else if j == k {
                assert(after[i] == before[i]);
            } else if i == k {
                assert(after[j] == before[j - 1]);
                if j - 1 > k {
                    assert(lex_lt(before[k as int], before[j - 1]));
                    lemma_lex_transitive(x@, before[k as int], before[j - 1]);
                }
            } else if i < k {
                assert(after[i] == before[i] && after[j] == before[j - 1]);
            } else {
                assert(after[i] == before[i - 1] && after[j] == before[j - 1]);
            }
        }
        assert forall|s: Seq<char>| after.contains(s) <==> (before.contains(s) || s == x@) by {
            if after.contains(s) {
                let i = choose|i: int| 0 <= i < after.len() && after[i] == s;
                if i < k {
                    assert(before[i] == s);
                } else if i > k {
                    assert(before[i - 1] == s);
                }
            }
            if before.contains(s) {
                let i = choose|i: int| 0 <= i < before.len() && before[i] == s;
                if i < k {
                    assert(after[i] == s);
                } else {
                    assert(after[i + 1] == s);
                }
            }
            if s == x@ {
                assert(after[k as int] == s);
            }
        }
    }
}

/// Searching a suffix of `v` is searching `v` from where the suffix starts.
proof fn lemma_first_occurrence_shift(v: Seq<char>, pat: Seq<char>, p: int, k: int)
    requires
        0 <= p <= v.len(),
        0 <= k,
    ensures
        first_occurrence(v.skip(p), pat, k) == match first_occurrence(v, pat, p + k) {
            Some(i) => Some(i - p),
            None => None::<int>,
        },
    decreases v.len() + 1 - (p + k),
{
    let w = v.skip(p);
    if k + pat.len() <= w.len() {
        assert(w.subrange(k, k + pat.len()) =~= v.subrange(p + k, p + k + pat.len()));
        if !occurs_at(w, pat, k) {
            lemma_first_occurrence_shift(v, pat, p, k + 1);
        }
    }
}

/// The action names a policy text mentions, each once, in code-point
/// order.
pub fn policy_action_names(policy: &str) -> (r: Vec<String>)
    ensures
        strictly_sorted(r@.map_values(|n: String| n@)),
        forall|s: Seq<char>|
            r@.map_values(|n: String| n@).contains(s) <==> action_names(policy@).contains(s),
{
    let v = chars_of(policy);
    let marker = chars_of("Action::\"");
    let quote = chars_of("\"");
    proof {
        reveal_strlit("Action::\"");
        reveal_strlit("\"");
        assert(marker@ =~= action_marker());
        assert(quote@ =~= seq!['"']);
    }
    let mut out: Vec<Vec<char>> = Vec::new();
    let ghost mut found: Seq<Seq<char>> = Seq::empty();
    let mut pos: usize = 0;
    assert(v@.skip(0) =~= v@);
    while pos <= v.len()
        invariant_except_break
            pos <= v@.len(),
            found + action_names(v@.skip(pos as int)) == action_names(v@),
        invariant
            v@ == policy@,
            marker@ == action_marker(),
            quote@ == seq!['"'],
            strictly_sorted(name_views(out@)),
            forall|s: Seq<char>| name_views(out@).contains(s) <==> found.contains(s),
        ensures
            found == action_names(v@),
        decreases v@.len() + 1 - pos,
    {
        let ghost rest = v@.skip(pos as int);
        proof {
            lemma_first_occurrence_shift(v@, action_marker(), pos as int, 0);
        }
        let i = match find_from(&v, &marker, pos) {
            None => {
                assert(action_names(rest) =~= Seq::<Seq<char>>::empty());
                assert(found + Seq::<Seq<char>>::empty() =~= found);
                break;
            },
            Some(i) => i,
        };
        proof {
            lemma_first_occurrence_occurs(v@, action_marker(), pos as int);
        }
        let start = i + 9;
        let ghost after = rest.skip(i - pos + 9);
        assert(after =~= v@.skip(start as int));
        proof {
            lemma_first_occurrence_shift(v@, seq!['"'], start as int, 0);
        }
        let e = match find_from(&v, &quote, start) {
            None => {
                assert(action_names(rest) =~= Seq::<Seq<char>>::empty());
                assert(found + Seq::<Seq<char>>::empty() =~= found);
                break;
            },
            Some(e) => e,
        };
        proof {
            lemma_first_occurrence_occurs(v@, seq!['"'], start as int);
        }
        let mut name: Vec<char> = Vec::new();
        let mut k = start;
        while k < e
            invariant
                start <= k <= e < v@.len(),
                name@ == v@.subrange(start as int, k as int),
            decreases e - k,
        {
            name.push(v[k]);
            assert(v@.subrange(start as int, k + 1) =~= v@.subrange(start as int, k as int).push(
                v@[k as int],
            ));
            k = k + 1;
        }
        proof {
            assert(after.take(e - start) =~= name@);
            assert(after.skip(e - start + 1) =~= v@.skip(e + 1));
            assert(action_names(rest) == seq![name@] + action_names(v@.skip(e + 1)));
            assert(found + action_names(rest) =~= found.push(name@) + action_names(v@.skip(e + 1)));
        }
        let ghost new_name = name@;
        let ghost old_views = name_views(out@);
        insert_sorted(&mut out, name);
        proof {
            assert forall|s: Seq<char>| name_views(out@).contains(s) <==> (old_views.contains(s)
                || s == new_name) by {}
            assert forall|s: Seq<char>| found.push(new_name).contains(s) <==> (found.contains(s)
                || s == new_name) by {
                if found.push(new_name).contains(s) && s != new_name {
                    let j = choose|j: int|
                        0 <= j < found.push(new_name).len() && found.push(new_name)[j] == s;
                    assert(found[j] == s);
                }
                if found.contains(s) {
                    let j = choose|j: int| 0 <= j < found.len() && found[j] == s;
                    assert(found.push(new_name)[j] == s);
                }
                if s == new_name {
                    assert(found.push(new_name)[found.len() as int] == s);
                }
            }
            assert forall|s: Seq<char>| name_views(out@).contains(s) <==> found.push(
                new_name,
            ).contains(s) by {
                assert(old_views.contains(s) <==> found.contains(s));
            }
            found = found.push(new_name);
        }
        pos = e + 1;
    }
    let mut r: Vec<String> = Vec::new();
    for m in 0..out.len()
        invariant
            r@.map_values(|n: String| n@) == name_views(out@).take(m as int),
    {
        let ghost prev = r@.map_values(|n: String| n@);
        let text = string_of(out[m].as_slice());
        r.push(text);
        assert(r@.map_values(|n: String| n@) =~= prev.push(out@[m as int]@));
        assert(name_views(out@).take(m + 1) =~= name_views(out@).take(m as int).push(
            out@[m as int]@,
        ));
    }
    assert(name_views(out@).take(out@.len() as int) =~= name_views(out@));
    r
}

} // verus!
