//! Single-use, short-lived tokens (proof-of-work challenges, download
//! tokens): issued under a 128-bit id, good until they expire, and taken
//! back at most once.

use vstd::prelude::*;

verus! {

/// The entry recorded for `key`: its expiry (milliseconds since the epoch)
/// and its value, from the last entry with that key.
pub open spec fn find_entry<T>(entries: Seq<(u128, u64, T)>, key: u128) -> Option<(u64, T)>
    decreases entries.len(),
{
    if entries.len() == 0 {
        None
    } else if entries.last().0 == key {
        Some((entries.last().1, entries.last().2))
    } else {
        find_entry(entries.drop_last(), key)
    }
}

/// No two entries share a key.
pub open spec fn keys_distinct<T>(entries: Seq<(u128, u64, T)>) -> bool {
    forall|i: int, j: int| 0 <= i < j < entries.len() ==> #[trigger] entries[i].0 != #[trigger] entries[j].0
}

/// When a token issued at `now` with a lifetime of `ttl_secs` seconds
/// expires, saturating at `u64::MAX`.
pub open spec fn expiry(now: u64, ttl_secs: u64) -> u64 {
    if now + ttl_secs * 1000 > u64::MAX {
        u64::MAX
    } else {
        (now + ttl_secs * 1000) as u64
    }
}

/// Issued tokens that have not been taken back yet.
pub struct TokenStore<T> {
    ttl_secs: u64,
    entries: Vec<(u128, u64, T)>,
}

impl<T> TokenStore<T> {
    /// The lifetime of a token, in seconds.
    pub closed spec fn ttl(&self) -> u64 {
        self.ttl_secs
    }

    /// The expiry and value recorded for `key`, if any.
    pub closed spec fn entry(&self, key: u128) -> Option<(u64, T)> {
        find_entry(self.entries@, key)
    }

    /// The store's invariant: one entry per key.
    pub closed spec fn wf(&self) -> bool {
        keys_distinct(self.entries@)
    }

    /// A store whose tokens live `ttl_secs` seconds, holding none.
    pub fn new(ttl_secs: u64) -> (r: Self)
        ensures
            r.wf(),
            r.ttl() == ttl_secs,
            forall|key: u128| #[trigger] r.entry(key) is None,
    {
        TokenStore { ttl_secs, entries: Vec::new() }
    }

    /// The index of the entry for `key`.
    fn position(&self, key: u128) -> (r: Option<usize>)
        requires
            self.wf(),
        ensures
            match r {
                Some(i) => i < self.entries@.len() && self.entries@[i as int].0 == key
                    && self.entry(key) == Some(
                    (self.entries@[i as int].1, self.entries@[i as int].2),
                ),
                None => self.entry(key) is None,
            },
    {
        let mut i: usize = self.entries.len();
        assert(self.entries@.take(i as int) =~= self.entries@);
        while i > 0
            invariant
                i <= self.entries@.len(),
                keys_distinct(self.entries@),
                find_entry(self.entries@, key) == find_entry(self.entries@.take(i as int), key),
            decreases i,
        {
            assert(self.entries@.take(i as int).drop_last() =~= self.entries@.take(i - 1));
            assert(self.entries@.take(i as int).last() == self.entries@[i - 1]);
            if self.entries[i - 1].0 == key {
                return Some(i - 1);
            }
            i = i - 1;
        }
        None
    }

    /// Issues a token under `key` at time `now` (milliseconds since the
    /// epoch), replacing any token issued earlier under that key.
    pub fn issue(&mut self, key: u128, value: T, now: u64)
        requires
            old(self).wf(),
        ensures
            final(self).wf(),
            final(self).ttl() == old(self).ttl(),
            forall|k: u128|
                #[trigger] final(self).entry(k) == if k == key {
                    Some((expiry(now, old(self).ttl()), value))
                } else {
                    old(self).entry(k)
                },
    {
        let expires: u64 = if (now as u128) + (self.ttl_secs as u128) * 1000 > u64::MAX as u128 {
            u64::MAX
        } else {
            now + self.ttl_secs * 1000
        };
        let ghost before = self.entries@;
        match self.position(key) {
            Some(i) => {
                self.entries.set(i, (key, expires, value));
                proof {
                    lemma_find_after_update(before, i as int, (key, expires, value));
                }
            },
            None => {
                self.entries.push((key, expires, value));
                proof {
                    assert forall|k: u128|
                        #[trigger] find_entry(self.entries@, k) == if k == key {
                            Some((expires, value))
                        } else {
                            find_entry(before, k)
                        } by {
                        assert(self.entries@.drop_last() =~= before);
                    }
                    assert forall|a: int, b: int|
                        0 <= a < b < self.entries@.len() implies #[trigger] self.entries@[a].0
                        != #[trigger] self.entries@[b].0 by {
                        if b == before.len() && before[a].0 == key {
                            lemma_find_some(before, a);
                        }
                    }
                }
            },
        }
    }

    /// Takes back the token issued under `key` at time `now`: its value
    /// when it was issued and has not expired. A token is taken back at
    /// most once; an expired one is dropped all the same.
    pub fn consume(&mut self, key: u128, now: u64) -> (r: Option<T>)
        requires
            old(self).wf(),
        ensures
            final(self).wf(),
            final(self).ttl() == old(self).ttl(),
            r == match old(self).entry(key) {
                Some((expires, value)) => if now < expires {
                    Some(value)
                } else {
                    None
                },
                None => None,
            },
            forall|k: u128|
                #[trigger] final(self).entry(k) == if k == key {
                    None
                } else {
                    old(self).entry(k)
                },
    {
        let ghost before = self.entries@;
        match self.position(key) {
            None => None,
            Some(i) => {
                let (_, expires, value) = self.entries.remove(i);
                proof {
                    lemma_find_after_remove(before, i as int);
                }
                if now < expires {
                    Some(value)
                } else {
                    None
                }
            },
        }
    }
}

/// With distinct keys, the entry at index `i` is the one found for its key.
proof fn lemma_find_some<T>(entries: Seq<(u128, u64, T)>, i: int)
    requires
        0 <= i < entries.len(),
        keys_distinct(entries),
    ensures
        find_entry(entries, entries[i].0) == Some((entries[i].1, entries[i].2)),
    decreases entries.len(),
{
    if i < entries.len() - 1 {
        assert(entries.last() == entries[entries.len() - 1]);
        assert(entries.drop_last()[i] == entries[i]);
        lemma_find_some(entries.drop_last(), i);
    }
}

/// Overwriting entry `i` with a new expiry and value for the same key
/// changes what is found for that key only.
proof fn lemma_find_after_update<T>(entries: Seq<(u128, u64, T)>, i: int, e: (u128, u64, T))
    requires
        0 <= i < entries.len(),
        keys_distinct(entries),
        e.0 == entries[i].0,
    ensures
        keys_distinct(entries.update(i, e)),
        forall|k: u128|
            #[trigger] find_entry(entries.update(i, e), k) == if k == e.0 {
                Some((e.1, e.2))
            } else {
                find_entry(entries, k)
            },
    decreases entries.len(),
{
    let updated = entries.update(i, e);
    assert forall|a: int, b: int| 0 <= a < b < updated.len() implies #[trigger] updated[a].0
        != #[trigger] updated[b].0 by {
        assert(entries[a].0 != entries[b].0);
    }
    if i < entries.len() - 1 {
        assert(updated.drop_last() =~= entries.drop_last().update(i, e));
        assert(entries[entries.len() - 1].0 != entries[i].0);
        lemma_find_after_update(entries.drop_last(), i, e);
        assert forall|k: u128|
            #[trigger] find_entry(updated, k) == if k == e.0 {
                Some((e.1, e.2))
            } else {
                find_entry(entries, k)
            } by {
            assert(updated.last() == entries.last());
            assert(find_entry(updated.drop_last(), k) == find_entry(
                entries.drop_last().update(i, e),
                k,
            ));
        }
    } else {
        assert(updated.drop_last() =~= entries.drop_last());
        assert forall|k: u128|
            #[trigger] find_entry(updated, k) == if k == e.0 {
                Some((e.1, e.2))
            } else {
                find_entry(entries, k)
            } by {
            assert(updated.last() == e);
            assert(entries.last().0 == e.0);
        }
    }
}

/// Removing entry `i` drops its key and leaves every other key's entry.
proof fn lemma_find_after_remove<T>(entries: Seq<(u128, u64, T)>, i: int)
    requires
        0 <= i < entries.len(),
        keys_distinct(entries),
    ensures
        keys_distinct(entries.remove(i)),
        forall|k: u128|
            #[trigger] find_entry(entries.remove(i), k) == if k == entries[i].0 {
                None
            } else {
                find_entry(entries, k)
            },
    decreases entries.len(),
{
    let removed = entries.remove(i);
    assert forall|a: int, b: int| 0 <= a < b < removed.len() implies #[trigger] removed[a].0
        != #[trigger] removed[b].0 by {
        let a2 = if a < i { a } else { a + 1 };
        let b2 = if b < i { b } else { b + 1 };
        assert(removed[a] == entries[a2] && removed[b] == entries[b2]);
    }
    if i < entries.len() - 1 {
        assert(removed.drop_last() =~= entries.drop_last().remove(i));
        assert(removed.last() == entries.last());
        assert(entries[entries.len() - 1].0 != entries[i].0);
        assert(entries.drop_last()[i] == entries[i]);
        lemma_find_after_remove(entries.drop_last(), i);
        assert forall|k: u128|
            #[trigger] find_entry(removed, k) == if k == entries[i].0 {
                None
            } else {
                find_entry(entries, k)
            } by {
            assert(find_entry(removed.drop_last(), k) == find_entry(
                entries.drop_last().remove(i),
                k,
            ));
        }
    } else {
        assert(removed =~= entries.drop_last());
        assert forall|k: u128|
            #[trigger] find_entry(removed, k) == if k == entries[i].0 {
                None
            } else {
                find_entry(entries, k)
            } by {
            if k == entries[i].0 {
                if find_entry(removed, k) is Some {
                    lemma_find_is_some_index(removed, k);
                }
            }
        }
    }
}

/// A key that is found names some entry.
proof fn lemma_find_is_some_index<T>(entries: Seq<(u128, u64, T)>, key: u128)
    requires
        find_entry(entries, key) is Some,
    ensures
        exists|j: int| 0 <= j < entries.len() && entries[j].0 == key,
    decreases entries.len(),
{
    if entries.last().0 == key {
        assert(entries[entries.len() - 1].0 == key);
    } else {
        lemma_find_is_some_index(entries.drop_last(), key);
        let j = choose|j: int| 0 <= j < entries.drop_last().len() && entries.drop_last()[j].0 == key;
        assert(entries[j].0 == key);
    }
}

} // verus!
