//! Which log files a prune removes: those past the retention period, and
//! of the rest, the oldest beyond the ring size.

use vstd::prelude::*;

verus! {

/// Whether a file last modified at `modified` (seconds since the epoch) is
/// past a retention of `retention_days` at time `now` (0 keeps files
/// forever).
pub open spec fn expired(modified: u64, now: u64, retention_days: u64) -> bool {
    retention_days > 0 && now - modified > retention_days * 86400
}

/// Whether file `j` comes before file `i` in the ring's order: newer, or
/// as new and earlier in the list.
pub open spec fn ranks_before(modified: Seq<u64>, j: int, i: int) -> bool {
    modified[j] > modified[i] || (modified[j] == modified[i] && j < i)
}

/// Whether file `j` outlives the retention and comes before file `i`.
pub open spec fn ahead_of(modified: Seq<u64>, now: u64, retention_days: u64, j: int, i: int) -> bool {
    !expired(modified[j], now, retention_days) && ranks_before(modified, j, i)
}

/// How many of the first `k` files outlive the retention and come before
/// file `i`.
pub open spec fn count_ahead(
    modified: Seq<u64>,
    now: u64,
    retention_days: u64,
    i: int,
    k: int,
) -> nat
    decreases k,
{
    if k <= 0 {
        0
    } else {
        count_ahead(modified, now, retention_days, i, k - 1) + if ahead_of(
            modified,
            now,
            retention_days,
            k - 1,
            i,
        ) {
            1nat
        } else {
            0nat
        }
    }
}

/// Whether a prune removes file `i`: it is past the retention, or the ring
/// is bounded (`ring_size` not 0) and at least `ring_size` files that
/// outlive the retention come before it.
pub open spec fn pruned(
    modified: Seq<u64>,
    now: u64,
    retention_days: u64,
    ring_size: u64,
    i: int,
) -> bool {
    expired(modified[i], now, retention_days) || (ring_size > 0 && count_ahead(
        modified,
        now,
        retention_days,
        i,
        modified.len() as int,
    ) >= ring_size)
}

/// Whether a file last modified at `modified` is past the retention.
fn is_expired(modified: u64, now: u64, retention_days: u64) -> (b: bool)
    ensures
        b == expired(modified, now, retention_days),
{
    retention_days > 0 && (now as i128) - (modified as i128) > (retention_days as i128) * 86400
}

/// For each file, given when it was last modified (seconds since the
/// epoch), whether a prune at time `now` removes it: files older than
/// `retention_days` days (0 keeps files forever), and then, beyond the
/// newest `ring_size` of the files left (0 for no limit), the older ones.
pub fn prune_plan(modified: &Vec<u64>, now: u64, retention_days: u64, ring_size: u64) -> (remove:
    Vec<bool>)
    ensures
        remove@.len() == modified@.len(),
        forall|i: int|
            0 <= i < modified@.len() ==> #[trigger] remove@[i] == pruned(
                modified@,
                now,
                retention_days,
                ring_size,
                i,
            ),
{
    let n = modified.len();
    let mut remove: Vec<bool> = Vec::new();
    for i in 0..n
        invariant
            n == modified@.len(),
            remove@.len() == i,
            forall|j: int|
                0 <= j < i ==> #[trigger] remove@[j] == pruned(
                    modified@,
                    now,
                    retention_days,
                    ring_size,
                    j,
                ),
    {
        let gone = if is_expired(modified[i], now, retention_days) {
            true
        } else if ring_size == 0 {
            false
        } else {
            let mut ahead: u64 = 0;
            for k in 0..n
                invariant
                    n == modified@.len(),
                    i < n,
                    ahead == count_ahead(modified@, now, retention_days, i as int, k as int),
                    ahead <= k,
            {
                if !is_expired(modified[k], now, retention_days) && (modified[k] > modified[i] || (
                modified[k] == modified[i] && k < i)) {
                    ahead = ahead + 1;
                }
            }
            ahead >= ring_size
        };
        remove.push(gone);
    }
    remove
}

/// If every file ahead of `a` is also ahead of `b`, then `b` has at least
/// as many files ahead of it, and one more for each file ahead of `b` only.
proof fn lemma_count_ahead_grows(
    modified: Seq<u64>,
    now: u64,
    retention_days: u64,
    a: int,
    b: int,
    extra: int,
    k: int,
)
    requires
        0 <= k <= modified.len(),
        forall|j: int|
            0 <= j < modified.len() && #[trigger] ahead_of(modified, now, retention_days, j, a)
                ==> ahead_of(modified, now, retention_days, j, b),
        0 <= extra < modified.len(),
        ahead_of(modified, now, retention_days, extra, b),
        !ahead_of(modified, now, retention_days, extra, a),
    ensures
        count_ahead(modified, now, retention_days, b, k) >= count_ahead(
            modified,
            now,
            retention_days,
            a,
            k,
        ) + if extra < k {
            1nat
        } else {
            0nat
        },
    decreases k,
{
    if k > 0 {
        lemma_count_ahead_grows(modified, now, retention_days, a, b, extra, k - 1);
        if ahead_of(modified, now, retention_days, k - 1, a) {
            assert(ahead_of(modified, now, retention_days, k - 1, b));
        }
    }
}

/// The ring keeps the newest: a kept file comes before every file that
/// outlives the retention and is removed by the ring.
pub proof fn lemma_ring_keeps_the_newest(
    modified: Seq<u64>,
    now: u64,
    retention_days: u64,
    ring_size: u64,
    kept: int,
    dropped: int,
)
    requires
        0 <= kept < modified.len(),
        0 <= dropped < modified.len(),
        !pruned(modified, now, retention_days, ring_size, kept),
        pruned(modified, now, retention_days, ring_size, dropped),
        !expired(modified[dropped], now, retention_days),
    ensures
        ranks_before(modified, kept, dropped),
{
    if !ranks_before(modified, kept, dropped) {
        assert(kept != dropped);
        assert(ranks_before(modified, dropped, kept));
        assert forall|j: int|
            0 <= j < modified.len() && #[trigger] ahead_of(
                modified,
                now,
                retention_days,
                j,
                dropped,
            ) implies ahead_of(modified, now, retention_days, j, kept) by {}
        lemma_count_ahead_grows(
            modified,
            now,
            retention_days,
            dropped,
            kept,
            dropped,
            modified.len() as int,
        );
    }
}

/// The files a prune keeps.
pub open spec fn kept_files(
    modified: Seq<u64>,
    now: u64,
    retention_days: u64,
    ring_size: u64,
) -> Set<int> {
    Set::new(
        |i: int| 0 <= i < modified.len() && !pruned(modified, now, retention_days, ring_size, i),
    )
}

/// Two different kept files have different numbers of files ahead of them.
proof fn lemma_kept_counts_differ(
    modified: Seq<u64>,
    now: u64,
    retention_days: u64,
    ring_size: u64,
    a: int,
    b: int,
)
    requires
        kept_files(modified, now, retention_days, ring_size).contains(a),
        kept_files(modified, now, retention_days, ring_size).contains(b),
        a != b,
    ensures
        count_ahead(modified, now, retention_days, a, modified.len() as int) != count_ahead(
            modified,
            now,
            retention_days,
            b,
            modified.len() as int,
        ),
{
    let n = modified.len() as int;
    if ranks_before(modified, a, b) {
        assert forall|j: int|
            0 <= j < n && #[trigger] ahead_of(modified, now, retention_days, j, a) implies ahead_of(
            modified,
            now,
            retention_days,
            j,
            b,
        ) by {}
        lemma_count_ahead_grows(modified, now, retention_days, a, b, a, n);
    } else {
        assert(ranks_before(modified, b, a));
        assert forall|j: int|
            0 <= j < n && #[trigger] ahead_of(modified, now, retention_days, j, b) implies ahead_of(
            modified,
            now,
            retention_days,
            j,
            a,
        ) by {}
        lemma_count_ahead_grows(modified, now, retention_days, b, a, b, n);
    }
}

/// A bounded ring keeps at most `ring_size` files.
pub proof fn lemma_ring_bounds_the_kept_files(
    modified: Seq<u64>,
    now: u64,
    retention_days: u64,
    ring_size: u64,
)
    requires
        ring_size > 0,
    ensures
        kept_files(modified, now, retention_days, ring_size).finite(),
        kept_files(modified, now, retention_days, ring_size).len() <= ring_size,
{
    let n = modified.len() as int;
    let kept = kept_files(modified, now, retention_days, ring_size);
    let rank = |i: int| count_ahead(modified, now, retention_days, i, n) as int;
    vstd::set_lib::lemma_int_range(0, n);
    vstd::set_lib::lemma_len_subset(kept, vstd::set_lib::set_int_range(0, n));
    assert forall|a: int, b: int|
        kept.contains(a) && kept.contains(b) && #[trigger] rank(a) == #[trigger] rank(b) implies a
        == b by {
        if a != b {
            lemma_kept_counts_differ(modified, now, retention_days, ring_size, a, b);
        }
    }
    assert(vstd::relations::injective_on(rank, kept));
    vstd::set_lib::lemma_map_size(kept, kept.map(rank), rank);
    vstd::set_lib::lemma_int_range(0, ring_size as int);
    assert(kept.map(rank).subset_of(vstd::set_lib::set_int_range(0, ring_size as int))) by {
        assert forall|r: int| kept.map(rank).contains(r) implies vstd::set_lib::set_int_range(
            0,
            ring_size as int,
        ).contains(r) by {
            let i = choose|i: int| kept.contains(i) && rank(i) == r;
            assert(kept.contains(i) && rank(i) == r);
        }
    }
    vstd::set_lib::lemma_len_subset(
        kept.map(rank),
        vstd::set_lib::set_int_range(0, ring_size as int),
    );
}

} // verus!
