//! What an article search looks in: its fields and its time window.

use vstd::prelude::*;
use crate::chars::{chars_equal, chars_of, split_chars, split_on, string_of, trim, trim_chars, trimmed};
use crate::datetime::{parse_instant, parse_iso8601_chars};
use crate::error::{ErrorKind, LogicError};
use crate::fmt::{decimal, push_all, radix_chars};

verus! {

/// A field that a search can look in.
#[derive(Clone, Copy, Debug, PartialEq, Eq, Structural)]
pub enum SearchRange {
    Title,
    Summary,
    AuthorName,
    Comment,
    Note,
    Tag,
    VersionNumber,
}

/// The range a wire name denotes.
pub open spec fn range_named(name: Seq<char>) -> Option<SearchRange> {
    if name == "title"@ {
        Some(SearchRange::Title)
    } else if name == "summary"@ {
        Some(SearchRange::Summary)
    } else if name == "author_name"@ {
        Some(SearchRange::AuthorName)
    } else if name == "comment"@ {
        Some(SearchRange::Comment)
    } else if name == "note"@ {
        Some(SearchRange::Note)
    } else if name == "tag"@ {
        Some(SearchRange::Tag)
    } else if name == "version_number"@ {
        Some(SearchRange::VersionNumber)
    } else {
        None
    }
}

/// Every range, in wire order.
pub open spec fn all_ranges() -> Seq<SearchRange> {
    seq![
        SearchRange::Title,
        SearchRange::Summary,
        SearchRange::AuthorName,
        SearchRange::Comment,
        SearchRange::Note,
        SearchRange::Tag,
        SearchRange::VersionNumber,
    ]
}

/// The ranges named by the comma-separated pieces `pieces` (each trimmed),
/// each kept once in order of first mention, or the first piece that names
/// no range.
pub open spec fn ranges_of(pieces: Seq<Seq<char>>) -> Result<Seq<SearchRange>, Seq<char>>
    decreases pieces.len(),
{
    if pieces.len() == 0 {
        Ok(Seq::empty())
    } else {
        match ranges_of(pieces.drop_last()) {
            Err(bad) => Err(bad),
            Ok(found) => match range_named(trim(pieces.last())) {
                None => Err(trim(pieces.last())),
                Some(r) => if found.contains(r) {
                    Ok(found)
                } else {
                    Ok(found.push(r))
                },
            },
        }
    }
}

/// The ranges of a search request: all of them when none are named.
pub open spec fn requested_ranges(raw: Option<Seq<char>>) -> Result<Seq<SearchRange>, Seq<char>> {
    match raw {
        None => Ok(all_ranges()),
        Some(text) => ranges_of(split_on(text, ',')),
    }
}

/// Each wire name denotes the field it names, and no other text denotes a
/// field: `title` the title, `summary` the summary, `author_name` the
/// author's name, `comment` the comments, `note` the version notes, `tag`
/// the tags and `version_number` the version numbers.
pub proof fn lemma_wire_names_denote_their_fields(other: Seq<char>)
    requires
        other != "title"@,
        other != "summary"@,
        other != "author_name"@,
        other != "comment"@,
        other != "note"@,
        other != "tag"@,
        other != "version_number"@,
    ensures
        range_named(seq!['t', 'i', 't', 'l', 'e']) == Some(SearchRange::Title),
        range_named(seq!['s', 'u', 'm', 'm', 'a', 'r', 'y']) == Some(SearchRange::Summary),
        range_named(seq!['a', 'u', 't', 'h', 'o', 'r', '_', 'n', 'a', 'm', 'e']) == Some(
            SearchRange::AuthorName,
        ),
        range_named(seq!['c', 'o', 'm', 'm', 'e', 'n', 't']) == Some(SearchRange::Comment),
        range_named(seq!['n', 'o', 't', 'e']) == Some(SearchRange::Note),
        range_named(seq!['t', 'a', 'g']) == Some(SearchRange::Tag),
        range_named(seq!['v', 'e', 'r', 's', 'i', 'o', 'n', '_', 'n', 'u', 'm', 'b', 'e', 'r'])
            == Some(SearchRange::VersionNumber),
        range_named(other) is None,
{
    reveal_strlit("title");
    reveal_strlit("summary");
    reveal_strlit("author_name");
    reveal_strlit("comment");
    reveal_strlit("note");
    reveal_strlit("tag");
    reveal_strlit("version_number");
    assert(seq!['t', 'i', 't', 'l', 'e'] =~= "title"@);
    assert(seq!['s', 'u', 'm', 'm', 'a', 'r', 'y'] =~= "summary"@);
    assert(seq!['a', 'u', 't', 'h', 'o', 'r', '_', 'n', 'a', 'm', 'e'] =~= "author_name"@);
    assert(seq!['c', 'o', 'm', 'm', 'e', 'n', 't'] =~= "comment"@);
    assert(seq!['n', 'o', 't', 'e'] =~= "note"@);
    assert(seq!['t', 'a', 'g'] =~= "tag"@);
    assert(seq!['v', 'e', 'r', 's', 'i', 'o', 'n', '_', 'n', 'u', 'm', 'b', 'e', 'r']
        =~= "version_number"@);
}

/// The range one trimmed wire name denotes.
fn lookup(name: &Vec<char>) -> (r: Option<SearchRange>)
    ensures
        r == range_named(name@),
{
    let n = name.as_slice();
    if chars_equal(n, chars_of("title").as_slice()) {
        Some(SearchRange::Title)
    } else if chars_equal(n, chars_of("summary").as_slice()) {
        Some(SearchRange::Summary)
    } else if chars_equal(n, chars_of("author_name").as_slice()) {
        Some(SearchRange::AuthorName)
    } else if chars_equal(n, chars_of("comment").as_slice()) {
        Some(SearchRange::Comment)
    } else if chars_equal(n, chars_of("note").as_slice()) {
        Some(SearchRange::Note)
    } else if chars_equal(n, chars_of("tag").as_slice()) {
        Some(SearchRange::Tag)
    } else if chars_equal(n, chars_of("version_number").as_slice()) {
        Some(SearchRange::VersionNumber)
    } else {
        None
    }
}

/// The ranges a search looks in: all of them when `raw` is absent,
/// otherwise the comma-separated names it lists (white space around a name
/// is ignored, repeats are kept once). A name that is no range is refused
/// with "unknown search range: " and the name.
pub fn parse_search_ranges(raw: Option<&str>) -> (r: Result<Vec<SearchRange>, LogicError>)
    ensures
        r matches Ok(v) ==> requested_ranges(
            match raw {
                Some(t) => Some(t@),
                None => None,
            },
        ) == Ok::<Seq<SearchRange>, Seq<char>>(v@),
        r matches Err(e) ==> requested_ranges(
            match raw {
                Some(t) => Some(t@),
                None => None,
            },
        ) matches Err(bad) && e.is(ErrorKind::BadRequest, "unknown search range: "@ + bad),
{
    let text = match raw {
        None => {
            let all: Vec<SearchRange> = vec![
                SearchRange::Title,
                SearchRange::Summary,
                SearchRange::AuthorName,
                SearchRange::Comment,
                SearchRange::Note,
                SearchRange::Tag,
                SearchRange::VersionNumber,
            ];
            assert(all@ =~= all_ranges());
            return Ok(all);
        },
        Some(t) => t,
    };
    let chars = chars_of(text);
    let pieces = split_chars(chars.as_slice(), ',');
    let ghost views = pieces@.map_values(|p: Vec<char>| p@);
    let mut found: Vec<SearchRange> = Vec::new();
    let mut i: usize = 0;
    assert(views.take(0) =~= Seq::<Seq<char>>::empty());
    while i < pieces.len()
        invariant
            i <= pieces@.len(),
            views == pieces@.map_values(|p: Vec<char>| p@),
            views == split_on(text@, ','),
            raw == Some(text),
            ranges_of(views.take(i as int)) == Ok::<Seq<SearchRange>, Seq<char>>(found@),
        decreases pieces@.len() - i,
    {
        assert(views.take(i + 1).drop_last() =~= views.take(i as int));
        assert(views.take(i + 1).last() == pieces@[i as int]@);
        let name = trim_chars(pieces[i].as_slice());
        match lookup(&name) {
            None => {
                let mut message = chars_of("unknown search range: ");
                push_all(&mut message, name.as_slice());
                proof {
                    assert(ranges_of(views.take(i + 1)) == Err::<Seq<SearchRange>, Seq<char>>(
                        name@,
                    ));
                    lemma_error_sticks(views, i + 1);
                    assert(message@ == "unknown search range: "@ + name@);
                }
                return Err(LogicError::BadRequest(string_of(message.as_slice())));
            },
            Some(range) => {
                let mut seen = false;
                for k in 0..found.len()
                    invariant
                        seen == found@.take(k as int).contains(range),
                {
                    assert(found@.take(k + 1) =~= found@.take(k as int).push(found@[k as int]));
                    if found[k] == range {
                        seen = true;
                        assert(found@.take(k + 1)[k as int] == range);
                    } else {
                        assert(found@.take(k + 1).contains(range) ==> found@.take(k as int).contains(
                            range,
                        )) by {
                            if found@.take(k + 1).contains(range) {
                                let j = choose|j: int|
                                    0 <= j < k + 1 && #[trigger] found@.take(k + 1)[j] == range;
                                assert(j != k);
                                assert(found@.take(k as int)[j] == range);
                            }
                        }
                    }
                }
                assert(found@.take(found@.len() as int) =~= found@);
                if !seen {
                    found.push(range);
                }
            },
        }
        i = i + 1;
    }
    assert(views.take(pieces@.len() as int) =~= views);
    Ok(found)
}

/// Once a piece names no range, later pieces do not change the outcome.
proof fn lemma_error_sticks(pieces: Seq<Seq<char>>, k: int)
    requires
        0 <= k <= pieces.len(),
        ranges_of(pieces.take(k)) is Err,
    ensures
        ranges_of(pieces) == ranges_of(pieces.take(k)),
    decreases pieces.len() - k,
{
    if k < pieces.len() {
        assert(pieces.take(k + 1).drop_last() =~= pieces.take(k));
        lemma_error_sticks(pieces, k + 1);
    } else {
        assert(pieces.take(k) =~= pieces);
    }
}

/// One bound of a search window as sent: absent or blank means no bound;
/// otherwise the instant its trimmed text names, `None` when it names none.
pub open spec fn window_bound(raw: Option<Seq<char>>) -> Option<Option<u64>> {
    match raw {
        None => Some(None),
        Some(t) => if trim(t).len() == 0 {
            Some(None)
        } else {
            match parse_instant(trim(t)) {
                Some(ms) => Some(Some(ms)),
                None => None,
            }
        },
    }
}

/// The text of an optional borrowed string.
pub open spec fn text_of(raw: Option<&str>) -> Option<Seq<char>> {
    match raw {
        Some(t) => Some(t@),
        None => None,
    }
}

/// The reason a `from` bound that names no instant is refused.
pub open spec fn bad_from_reason() -> Seq<char> {
    "from must be an ISO8601 datetime (year to second precision, no timezone means UTC)"@
}

/// The reason a `to` bound that names no instant is refused.
pub open spec fn bad_to_reason() -> Seq<char> {
    "to must be an ISO8601 datetime (year to second precision, no timezone means UTC)"@
}

/// The reason a window that ends before it starts is refused.
pub open spec fn reversed_window_reason() -> Seq<char> {
    "from must not be greater than to"@
}

/// Whether both bounds are present and the first lies after the second.
pub open spec fn window_reversed(from: Option<u64>, to: Option<u64>) -> bool {
    match (from, to) {
        (Some(a), Some(b)) => a > b,
        _ => false,
    }
}

/// One bound of a search window, in milliseconds since the epoch.
fn read_bound(raw: Option<&str>) -> (r: Option<Option<u64>>)
    ensures
        r == window_bound(text_of(raw)),
{
    match raw {
        None => Some(None),
        Some(t) => {
            let v = trimmed(t);
            if v.len() == 0 {
                Some(None)
            } else {
                match parse_iso8601_chars(&v) {
                    Some(ms) => Some(Some(ms)),
                    None => None,
                }
            }
        },
    }
}

/// The time window of a search, in milliseconds since the epoch: each
/// bound is absent when not sent or blank, otherwise the ISO 8601 instant
/// it names (year to second precision, no zone meaning UTC). A bound that
/// names no instant is refused with its own reason, `from` first; a window
/// whose `from` lies after its `to` is refused as well.
pub fn parse_time_window(from: Option<&str>, to: Option<&str>) -> (r: Result<
    (Option<u64>, Option<u64>),
    LogicError,
>)
    ensures
        window_bound(text_of(from)) is None ==> (r matches Err(e) && e.is(
            ErrorKind::BadRequest,
            bad_from_reason(),
        )),
        window_bound(text_of(from)) matches Some(f) ==> {
            &&& window_bound(text_of(to)) is None ==> (r matches Err(e) && e.is(
                ErrorKind::BadRequest,
                bad_to_reason(),
            ))
            &&& window_bound(text_of(to)) matches Some(t) ==> if window_reversed(f, t) {
                r matches Err(e) && e.is(ErrorKind::BadRequest, reversed_window_reason())
            } else {
                r == Ok::<(Option<u64>, Option<u64>), LogicError>((f, t))
            }
        },
        r matches Ok((Some(a), Some(b))) ==> a <= b,
{
    let f = match read_bound(from) {
        None => {
            return Err(
                LogicError::bad_request(
                    "from must be an ISO8601 datetime (year to second precision, no timezone means UTC)",
                ),
            );
        },
        Some(f) => f,
    };
    let t = match read_bound(to) {
        None => {
            return Err(
                LogicError::bad_request(
                    "to must be an ISO8601 datetime (year to second precision, no timezone means UTC)",
                ),
            );
        },
        Some(t) => t,
    };
    if let (Some(a), Some(b)) = (f, t) {
        if a > b {
            return Err(LogicError::bad_request("from must not be greater than to"));
        }
    }
    Ok((f, t))
}

/// The reason a search query longer than `max_chars` characters is
/// refused.
pub open spec fn long_query_reason(max_chars: u64) -> Seq<char> {
    "search query too long (max "@ + decimal(max_chars as nat) + " chars)"@
}

/// Checks the length of a search query: at most `max_chars` characters
/// (an absent query passes); a longer one is refused with
/// "search query too long (max N chars)".
pub fn check_search_query(query: Option<&str>, max_chars: u64) -> (r: Result<(), LogicError>)
    ensures
        match query {
            None => r is Ok,
            Some(q) => if q@.len() > max_chars {
                r matches Err(e) && e.is(ErrorKind::BadRequest, long_query_reason(max_chars))
            } else {
                r is Ok
            },
        },
{
    match query {
        None => Ok(()),
        Some(q) => {
            let chars = chars_of(q);
            if (chars.len() as u64) <= max_chars {
                Ok(())
            } else {
                let mut message = chars_of("search query too long (max ");
                let digits = radix_chars(max_chars, 10);
                push_all(&mut message, digits.as_slice());
                push_all(&mut message, chars_of(" chars)").as_slice());
                Err(LogicError::BadRequest(string_of(message.as_slice())))
            }
        },
    }
}

} // verus!
