//! One-based paging over an ordered collection.

use vstd::prelude::*;
use crate::error::{ErrorKind, LogicError};

verus! {

/// `a * b`, or `u64::MAX` when the product does not fit.
pub open spec fn saturating_mul(a: u64, b: u64) -> u64 {
    if a * b > u64::MAX {
        u64::MAX
    } else {
        (a * b) as u64
    }
}

/// The index of the first item of `page` (pages count from 1; page 0 is
/// page 1), saturating at `u64::MAX`.
pub open spec fn offset_of(page: u64, limit: u64) -> u64 {
    saturating_mul(if page == 0 { 0 } else { (page - 1) as u64 }, limit)
}

/// Where a page starts in a collection of `len` items.
pub open spec fn page_start(len: nat, page: u64, limit: u64) -> int {
    if offset_of(page, limit) >= len {
        len as int
    } else {
        offset_of(page, limit) as int
    }
}

/// Where a page ends in a collection of `len` items.
pub open spec fn page_end(len: nat, page: u64, limit: u64) -> int {
    if offset_of(page, limit) + limit >= len {
        len as int
    } else {
        offset_of(page, limit) + limit
    }
}

/// Whether items remain after the page.
pub open spec fn page_has_next(len: nat, page: u64, limit: u64) -> bool {
    len > offset_of(page, limit) + limit
}

/// The offset of `page` for pages of `limit` items.
pub fn page_offset(page: u64, limit: u64) -> (r: u64)
    ensures
        r == offset_of(page, limit),
{
    let before = if page == 0 { 0 } else { page - 1 };
    match before.checked_mul(limit) {
        Some(p) => p,
        None => u64::MAX,
    }
}

/// The items of `page` (at most `limit` of them) and whether more follow.
pub fn paginate<T>(items: Vec<T>, page: u64, limit: u64) -> (r: (Vec<T>, bool))
    ensures
        r.0@ == items@.subrange(
            page_start(items@.len(), page, limit),
            page_end(items@.len(), page, limit),
        ),
        r.1 == page_has_next(items@.len(), page, limit),
{
    let offset = page_offset(page, limit);
    let len = items.len();
    let has_next = (len as u64) > offset && (len as u64) - offset > limit;
    assert(has_next == page_has_next(len as nat, page, limit));
    if (len as u64) <= offset {
        return (Vec::new(), has_next);
    }
    let start = offset as usize;
    let mut rest = items;
    let mut tail = rest.split_off(start);
    if ((len - start) as u64) > limit {
        tail.truncate(limit as usize);
    }
    (tail, has_next)
}

/// Pages tile the collection: page `p + 1` starts where page `p` ends,
/// and a page has a successor exactly when that successor is not empty.
/// Page 0 reads as page 1.
pub proof fn lemma_pages_tile(len: nat, page: u64, limit: u64)
    requires
        page >= 1,
        limit >= 1,
        page < u64::MAX,
        page * limit <= u64::MAX,
    ensures
        page_start(len, (page + 1) as u64, limit) == page_end(len, page, limit),
        page_has_next(len, page, limit) <==> page_start(len, (page + 1) as u64, limit) < page_end(
            len,
            (page + 1) as u64,
            limit,
        ),
        page_start(len, 0, limit) == page_start(len, 1, limit),
        page_end(len, 0, limit) == page_end(len, 1, limit),
        page_has_next(len, 0, limit) == page_has_next(len, 1, limit),
{
    assert(offset_of((page + 1) as u64, limit) == offset_of(page, limit) + limit) by {
        assert(((page - 1) as u64) * limit + limit == page * limit) by (nonlinear_arith)
            requires
                page >= 1,
        ;
        assert(((page - 1) as u64) * limit <= page * limit) by (nonlinear_arith)
            requires
                page >= 1,
        ;
    }
}

/// Largest page size a request may ask for.
pub const MAX_PAGE_SIZE: u64 = 200;

/// The page a request asks for: absent or 0 means page 1.
pub open spec fn requested_page(page: Option<u64>) -> u64 {
    match page {
        Some(p) => if p == 0 {
            1
        } else {
            p
        },
        None => 1,
    }
}

/// The page size a request gets: absent means the default, and the size
/// is kept within `1..=MAX_PAGE_SIZE`.
pub open spec fn granted_limit(limit: Option<u64>, default_limit: u64) -> u64 {
    let l = match limit {
        Some(l) => l,
        None => default_limit,
    };
    if l == 0 {
        1
    } else if l > MAX_PAGE_SIZE {
        MAX_PAGE_SIZE
    } else {
        l
    }
}

/// The page and page size of a listing request, or a rejection when the
/// page lies beyond `max_pages`.
pub fn resolve_paging(page: Option<u64>, limit: Option<u64>, default_limit: u64, max_pages: u64) -> (r:
    Result<(u64, u64), LogicError>)
    ensures
        requested_page(page) > max_pages ==> (r matches Err(e) && e.is(
            ErrorKind::BadRequest,
            "page exceeds max search pages"@,
        )),
        requested_page(page) <= max_pages ==> r == Ok::<(u64, u64), LogicError>(
            (requested_page(page), granted_limit(limit, default_limit)),
        ),
{
    let p = match page {
        Some(p) => if p == 0 {
            1
        } else {
            p
        },
        None => 1,
    };
    if p > max_pages {
        return Err(LogicError::bad_request("page exceeds max search pages"));
    }
    let l = match limit {
        Some(l) => l,
        None => default_limit,
    };
    let granted = if l == 0 {
        1
    } else if l > MAX_PAGE_SIZE {
        MAX_PAGE_SIZE
    } else {
        l
    };
    Ok((p, granted))
}

} // verus!
