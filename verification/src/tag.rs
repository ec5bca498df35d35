//! Hashtag names and the `#tag#tag #tag` list syntax.

use vstd::prelude::*;
use crate::chars::{
    chars_equal, chars_of, first_rejected, trim_end, trim_start, is_whitespace, lemma_first_rejected_at,
    lemma_first_rejected_all, lemma_first_rejected_none, string_of, trim, trimmed, white_space,
};

verus! {

/// Longest tag, counting its leading `#`.
pub const MAX_TAG_CHARS: usize = 32;

/// Why a single tag is rejected.
#[derive(Clone, Copy, Debug, PartialEq, Eq, Structural)]
pub enum TagNameError {
    Empty,
    MissingHash,
    TooLong,
    ContainsForbiddenChar(char),
}

/// Why a tag list is rejected.
#[derive(Clone, Copy, Debug, PartialEq, Eq, Structural)]
pub enum TagNamesError {
    Name(TagNameError),
    TooManyTags { max_count: usize },
}

/// Characters allowed after the `#`: ASCII letters and digits, `-`, `_`.
pub open spec fn is_tag_char(c: char) -> bool {
    ('a' <= c && c <= 'z') || ('A' <= c && c <= 'Z') || ('0' <= c && c <= '9') || c == '-'
        || c == '_'
}

/// The rules on the text after a tag's `#`: not empty, then no forbidden
/// character, then not too long (the `#` counts toward the length).
pub open spec fn check_body(body: Seq<char>) -> Result<(), TagNameError> {
    if body.len() == 0 {
        Err(TagNameError::Empty)
    } else {
        match first_rejected(body, |c: char| is_tag_char(c)) {
            Some(c) => Err(TagNameError::ContainsForbiddenChar(c)),
            None => if body.len() + 1 > MAX_TAG_CHARS {
                Err(TagNameError::TooLong)
            } else {
                Ok(())
            },
        }
    }
}

/// A single tag as written, surrounding white space ignored.
pub open spec fn tag_name_result(raw: Seq<char>) -> Result<Seq<char>, TagNameError> {
    let t = trim(raw);
    if t.len() == 0 {
        Err(TagNameError::Empty)
    } else if t[0] != '#' {
        Err(TagNameError::MissingHash)
    } else {
        match check_body(t.drop_first()) {
            Ok(()) => Ok(t),
            Err(e) => Err(e),
        }
    }
}

/// State of the left-to-right reading of a tag list.
pub enum Scan {
    /// Between words; `bodies` are the tag bodies read so far.
    Gap { bodies: Seq<Seq<char>> },
    /// Inside a tag whose body so far is `cur`.
    Piece { bodies: Seq<Seq<char>>, cur: Seq<char> },
    /// A rule was broken.
    Failed { error: TagNameError },
}

/// Ends the tag `cur`, keeping it when its body is valid.
pub open spec fn close(bodies: Seq<Seq<char>>, cur: Seq<char>) -> Result<Seq<Seq<char>>, TagNameError> {
    match check_body(cur) {
        Ok(()) => Ok(bodies.push(cur)),
        Err(e) => Err(e),
    }
}

/// Reads one more character. White space ends a tag; `#` ends a tag and
/// starts the next; a word must start with `#`.
pub open spec fn step(st: Scan, c: char) -> Scan {
    match st {
        Scan::Failed { error } => Scan::Failed { error },
        Scan::Gap { bodies } => if white_space(c) {
            Scan::Gap { bodies }
        } else if c == '#' {
            Scan::Piece { bodies, cur: Seq::empty() }
        } else {
            Scan::Failed { error: TagNameError::MissingHash }
        },
        Scan::Piece { bodies, cur } => if white_space(c) {
            match close(bodies, cur) {
                Ok(b) => Scan::Gap { bodies: b },
                Err(e) => Scan::Failed { error: e },
            }
        } else if c == '#' {
            match close(bodies, cur) {
                Ok(b) => Scan::Piece { bodies: b, cur: Seq::empty() },
                Err(e) => Scan::Failed { error: e },
            }
        } else {
            Scan::Piece { bodies, cur: cur.push(c) }
        },
    }
}

/// The state after reading all of `s`.
pub open spec fn scan(s: Seq<char>) -> Scan
    decreases s.len(),
{
    if s.len() == 0 {
        Scan::Gap { bodies: Seq::empty() }
    } else {
        step(scan(s.drop_last()), s.last())
    }
}

/// The tag bodies of a whole list, or the first broken rule.
pub open spec fn list_bodies(s: Seq<char>) -> Result<Seq<Seq<char>>, TagNameError> {
    match scan(s) {
        Scan::Failed { error } => Err(error),
        Scan::Gap { bodies } => Ok(bodies),
        Scan::Piece { bodies, cur } => close(bodies, cur),
    }
}

/// `s` with later repeats of an element removed.
pub open spec fn dedup(s: Seq<Seq<char>>) -> Seq<Seq<char>>
    decreases s.len(),
{
    if s.len() == 0 {
        Seq::empty()
    } else {
        let d = dedup(s.drop_last());
        if d.contains(s.last()) {
            d
        } else {
            d.push(s.last())
        }
    }
}

/// The tags of a list: each distinct body once, in order of first
/// appearance, with its `#`.
pub open spec fn hashtags(s: Seq<char>, max_count: usize) -> Result<Seq<Seq<char>>, TagNamesError> {
    match list_bodies(s) {
        Err(e) => Err(TagNamesError::Name(e)),
        Ok(bodies) => {
            let distinct = dedup(bodies);
            if distinct.len() > max_count {
                Err(TagNamesError::TooManyTags { max_count })
            } else {
                Ok(distinct.map_values(|b: Seq<char>| seq!['#'] + b))
            }
        },
    }
}

fn tag_char(c: char) -> (b: bool)
    ensures
        b == is_tag_char(c),
{
    ('a' <= c && c <= 'z') || ('A' <= c && c <= 'Z') || ('0' <= c && c <= '9') || c == '-'
        || c == '_'
}

fn body_check(body: &[char]) -> (r: Result<(), TagNameError>)
    ensures
        r == check_body(body@),
{
    if body.len() == 0 {
        return Err(TagNameError::Empty);
    }
    for i in 0..body.len()
        invariant
            forall|j: int| 0 <= j < i ==> is_tag_char(#[trigger] body@[j]),
    {
        if !tag_char(body[i]) {
            proof {
                lemma_first_rejected_at(body@, |c: char| is_tag_char(c), i as int);
            }
            return Err(TagNameError::ContainsForbiddenChar(body[i]));
        }
    }
    proof {
        lemma_first_rejected_none(body@, |c: char| is_tag_char(c));
    }
    if body.len() >= MAX_TAG_CHARS {
        Err(TagNameError::TooLong)
    } else {
        Ok(())
    }
}

/// Checks one tag (`#` and a body), ignoring surrounding white space, and
/// returns it trimmed.
pub fn validate_tag_name(raw: &str) -> (r: Result<String, TagNameError>)
    ensures
        match r {
            Ok(s) => tag_name_result(raw@) == Ok::<Seq<char>, TagNameError>(s@),
            Err(e) => tag_name_result(raw@) == Err::<Seq<char>, TagNameError>(e),
        },
{
    let t = trimmed(raw);
    if t.len() == 0 {
        return Err(TagNameError::Empty);
    }
    if t[0] != '#' {
        return Err(TagNameError::MissingHash);
    }
    let mut body: Vec<char> = Vec::new();
    for i in 1..t.len()
        invariant
            1 <= t@.len(),
            body@ == t@.subrange(1, i as int),
    {
        body.push(t[i]);
        assert(t@.subrange(1, i as int).push(t@[i as int]) =~= t@.subrange(1, i + 1));
    }
    assert(body@ =~= t@.drop_first());
    match body_check(body.as_slice()) {
        Ok(()) => Ok(string_of(t.as_slice())),
        Err(e) => Err(e),
    }
}

/// Whether `list` already holds `item`.
fn holds(list: &Vec<Vec<char>>, item: &Vec<char>) -> (b: bool)
    ensures
        b == list@.map_values(|v: Vec<char>| v@).contains(item@),
{
    let ghost views = list@.map_values(|v: Vec<char>| v@);
    for i in 0..list.len()
        invariant
            views == list@.map_values(|v: Vec<char>| v@),
            forall|j: int| 0 <= j < i ==> views[j] != item@,
    {
        if chars_equal(list[i].as_slice(), item.as_slice()) {
            assert(views[i as int] == item@);
            return true;
        }
    }
    assert(!views.contains(item@)) by {
        if views.contains(item@) {
            let j = choose|j: int| 0 <= j < views.len() && views[j] == item@;
            assert(views[j] != item@);
        }
    }
    false
}

/// The views of a list of character vectors.
pub open spec fn views(v: Seq<Vec<char>>) -> Seq<Seq<char>> {
    v.map_values(|x: Vec<char>| x@)
}

/// Once a rule is broken, the rest of the list does not matter.
proof fn lemma_failed_sticks(s: Seq<char>, k: int, e: TagNameError)
    requires
        0 <= k <= s.len(),
        scan(s.take(k)) == (Scan::Failed { error: e }),
    ensures
        scan(s) == (Scan::Failed { error: e }),
    decreases s.len() - k,
{
    if k < s.len() {
        assert(s.take(k + 1).drop_last() =~= s.take(k));
        lemma_failed_sticks(s, k + 1, e);
    } else {
        assert(s.take(k) =~= s);
    }
}

/// Parses a list of hashtags such as `#rust #web#db`.
///
/// Words are separated by white space, and a word is one or more tags
/// written back to back, each starting with `#`. The first broken rule, in
/// reading order, is reported; repeated tags are kept once (tags are case
/// sensitive); more than `max_count` distinct tags is an error.
pub fn parse_hashtag_tags(raw: &str, max_count: usize) -> (r: Result<Vec<String>, TagNamesError>)
    ensures
        match r {
            Ok(tags) => hashtags(raw@, max_count) == Ok::<Seq<Seq<char>>, TagNamesError>(
                tags@.map_values(|t: String| t@),
            ),
            Err(e) => hashtags(raw@, max_count) == Err::<Seq<Seq<char>>, TagNamesError>(e),
        },
{
    let s = chars_of(raw);
    let mut bodies: Vec<Vec<char>> = Vec::new();
    let mut cur: Vec<char> = Vec::new();
    let mut in_piece = false;
    let mut i: usize = 0;
    assert(s@.take(0) =~= Seq::<char>::empty());
    assert(views(bodies@) =~= Seq::<Seq<char>>::empty());
    while i < s.len()
        invariant
            i <= s@.len(),
            s@ == raw@,
            in_piece ==> scan(s@.take(i as int)) == (Scan::Piece {
                bodies: views(bodies@),
                cur: cur@,
            }),
            !in_piece ==> scan(s@.take(i as int)) == (Scan::Gap { bodies: views(bodies@) }),
        decreases s@.len() - i,
    {
        let c = s[i];
        let ws = is_whitespace(c);
        let ghost prev = s@.take(i as int);
        assert(s@.take(i + 1).drop_last() =~= prev);
        assert(s@.take(i + 1).last() == c);
        if !in_piece {
            if ws {
            } else if c == '#' {
                in_piece = true;
                cur = Vec::new();
            } else {
                proof {
                    lemma_failed_sticks(s@, i + 1, TagNameError::MissingHash);
                }
                return Err(TagNamesError::Name(TagNameError::MissingHash));
            }
        } else if ws || c == '#' {
            match body_check(cur.as_slice()) {
                Ok(()) => {
                    let ghost old_views = views(bodies@);
                    let done = cur;
                    bodies.push(done);
                    assert(views(bodies@) =~= old_views.push(cur@));
                    cur = Vec::new();
                    in_piece = !ws;
                },
                Err(e) => {
                    proof {
                        lemma_failed_sticks(s@, i + 1, e);
                    }
                    return Err(TagNamesError::Name(e));
                },
            }
        } else {
            cur.push(c);
        }
        i = i + 1;
    }
    assert(s@.take(s@.len() as int) =~= s@);
    if in_piece {
        match body_check(cur.as_slice()) {
            Ok(()) => {
                let ghost old_views = views(bodies@);
                bodies.push(cur);
                assert(views(bodies@) =~= old_views.push(cur@));
            },
            Err(e) => {
                return Err(TagNamesError::Name(e));
            },
        }
    }
    let ghost all = views(bodies@);
    assert(list_bodies(raw@) == Ok::<Seq<Seq<char>>, TagNameError>(all));
    let mut distinct: Vec<Vec<char>> = Vec::new();
    let mut k: usize = 0;
    assert(all.take(0) =~= Seq::<Seq<char>>::empty());
    while k < bodies.len()
        invariant
            k <= bodies@.len(),
            all == views(bodies@),
            views(distinct@) == dedup(all.take(k as int)),
        decreases bodies@.len() - k,
    {
        let item = bodies[k].clone();
        assert(item@ == all[k as int]);
        assert(all.take(k + 1).drop_last() =~= all.take(k as int));
        let seen = holds(&distinct, &item);
        if !seen {
            let ghost old_views = views(distinct@);
            distinct.push(item);
            assert(views(distinct@) =~= old_views.push(all[k as int]));
        }
        k = k + 1;
    }
    assert(all.take(bodies@.len() as int) =~= all);
    if distinct.len() > max_count {
        return Err(TagNamesError::TooManyTags { max_count });
    }
    let mut out: Vec<String> = Vec::new();
    let ghost dv = views(distinct@);
    for m in 0..distinct.len()
        invariant
            dv == views(distinct@),
            out@.map_values(|t: String| t@) == dv.take(m as int).map_values(
                |b: Seq<char>| seq!['#'] + b,
            ),
    {
        let mut tag: Vec<char> = Vec::new();
        tag.push('#');
        let body = &distinct[m];
        for q in 0..body.len()
            invariant
                tag@ == seq!['#'] + body@.take(q as int),
        {
            tag.push(body[q]);
            assert(body@.take(q as int).push(body@[q as int]) =~= body@.take(q + 1));
        }
        assert(body@.take(body@.len() as int) =~= body@);
        let text = string_of(tag.as_slice());
        let ghost before = out@.map_values(|t: String| t@);
        out.push(text);
        assert(out@.map_values(|t: String| t@) =~= before.push(seq!['#'] + dv[m as int]));
        assert(dv.take(m + 1).map_values(|b: Seq<char>| seq!['#'] + b) =~= dv.take(
            m as int,
        ).map_values(|b: Seq<char>| seq!['#'] + b).push(seq!['#'] + dv[m as int]));
    }
    assert(dv.take(distinct@.len() as int) =~= dv);
    Ok(out)
}

/// Every body that the reading has kept so far is valid.
proof fn lemma_scan_bodies_valid(s: Seq<char>)
    ensures
        scan(s) matches Scan::Gap { bodies } ==> forall|i: int|
            0 <= i < bodies.len() ==> check_body(#[trigger] bodies[i]) is Ok,
        scan(s) matches Scan::Piece { bodies, cur } ==> forall|i: int|
            0 <= i < bodies.len() ==> check_body(#[trigger] bodies[i]) is Ok,
    decreases s.len(),
{
    if s.len() > 0 {
        lemma_scan_bodies_valid(s.drop_last());
    }
}

/// Every element of `dedup(s)` occurs in `s`, and none occurs twice.
proof fn lemma_dedup(s: Seq<Seq<char>>)
    ensures
        forall|i: int| 0 <= i < dedup(s).len() ==> s.contains(#[trigger] dedup(s)[i]),
        forall|i: int, j: int|
            0 <= i < j < dedup(s).len() ==> #[trigger] dedup(s)[i] != #[trigger] dedup(s)[j],
    decreases s.len(),
{
    if s.len() > 0 {
        let p = s.drop_last();
        lemma_dedup(p);
        let d = dedup(p);
        assert forall|i: int| 0 <= i < dedup(s).len() implies s.contains(#[trigger] dedup(s)[i]) by {
            if i < d.len() {
                let k = choose|k: int| 0 <= k < p.len() && p[k] == d[i];
                assert(s[k] == p[k]);
            } else {
                assert(s[s.len() - 1] == s.last());
            }
        }
    }
}

/// A tag made of `#` and a valid body reads back unchanged as one tag.
proof fn lemma_valid_body_is_tag(body: Seq<char>)
    requires
        check_body(body) is Ok,
    ensures
        tag_name_result(seq!['#'] + body) == Ok::<Seq<char>, TagNameError>(seq!['#'] + body),
{
    let t = seq!['#'] + body;
    lemma_first_rejected_all(body, |c: char| is_tag_char(c));
    assert(!white_space(t[0]));
    assert(trim_start(t) == t);
    assert(t.last() == body[body.len() - 1]);
    assert(is_tag_char(body[body.len() - 1]));
    assert(!white_space(t.last()));
    assert(trim_end(t) == t);
    assert(t.drop_first() =~= body);
}

/// What a tag list yields: at most `max_count` tags, none repeated, each
/// of which is accepted unchanged by [`validate_tag_name`].
pub proof fn lemma_hashtags_are_valid_tags(s: Seq<char>, max_count: usize)
    requires
        hashtags(s, max_count) is Ok,
    ensures
        ({
            let tags = hashtags(s, max_count)->Ok_0;
            &&& tags.len() <= max_count
            &&& forall|i: int|
                0 <= i < tags.len() ==> tag_name_result(#[trigger] tags[i]) == Ok::<
                    Seq<char>,
                    TagNameError,
                >(tags[i])
            &&& forall|i: int, j: int|
                0 <= i < j < tags.len() ==> #[trigger] tags[i] != #[trigger] tags[j]
        }),
{
    lemma_scan_bodies_valid(s);
    let bodies = list_bodies(s)->Ok_0;
    assert forall|i: int| 0 <= i < bodies.len() implies check_body(#[trigger] bodies[i]) is Ok by {
        match scan(s) {
            Scan::Piece { bodies: b, cur } => {
                if i == b.len() {
                    assert(bodies[i] == cur);
                } else {
                    assert(bodies[i] == b[i]);
                }
            },
            _ => {},
        }
    }
    lemma_dedup(bodies);
    let d = dedup(bodies);
    let tags = hashtags(s, max_count)->Ok_0;
    assert forall|i: int| 0 <= i < tags.len() implies tag_name_result(#[trigger] tags[i]) == Ok::<
        Seq<char>,
        TagNameError,
    >(tags[i]) by {
        assert(bodies.contains(d[i]));
        let k = choose|k: int| 0 <= k < bodies.len() && bodies[k] == d[i];
        assert(check_body(bodies[k]) is Ok);
        lemma_valid_body_is_tag(d[i]);
    }
    assert forall|i: int, j: int| 0 <= i < j < tags.len() implies #[trigger] tags[i]
        != #[trigger] tags[j] by {
        assert(d[i] != d[j]);
        assert(tags[i].drop_first() =~= d[i]);
        assert(tags[j].drop_first() =~= d[j]);
    }
}

} // verus!
