//! The per-recipient cooldown of outgoing mail: a recipient that was sent a
//! message is not sent another until the cooldown has passed.

use vstd::prelude::*;
use crate::chars::{chars_equal, chars_of, owned};
use crate::time::now_ms;

verus! {

/// The last send time recorded for `to` in `entries`: the last entry with
/// that recipient.
pub open spec fn last_entry_for(entries: Seq<(Seq<char>, u64)>, to: Seq<char>) -> Option<u64>
    decreases entries.len(),
{
    if entries.len() == 0 {
        None
    } else if entries.last().0 == to {
        Some(entries.last().1)
    } else {
        last_entry_for(entries.drop_last(), to)
    }
}

/// Whether a message may go to a recipient last sent to at `last` (in
/// milliseconds since the epoch), at time `now`, under a cooldown of
/// `cooldown_secs` seconds (0 disables the cooldown).
pub open spec fn admissible(last: Option<u64>, cooldown_secs: u64, now: u64) -> bool {
    cooldown_secs == 0 || match last {
        None => true,
        Some(t) => now >= t + cooldown_secs * 1000,
    }
}

/// The send times of recent recipients and the cooldown they obey.
pub struct RateLimiter {
    cooldown_secs: u64,
    entries: Vec<(String, u64)>,
}

impl RateLimiter {
    /// The cooldown, in seconds.
    pub closed spec fn cooldown(&self) -> u64 {
        self.cooldown_secs
    }

    /// The recorded entries, as text.
    spec fn entry_view(&self) -> Seq<(Seq<char>, u64)> {
        self.entries@.map_values(|e: (String, u64)| (e.0@, e.1))
    }

    /// When `to` was last allowed, if ever.
    pub closed spec fn last_sent_to(&self, to: Seq<char>) -> Option<u64> {
        last_entry_for(self.entry_view(), to)
    }

    /// A limiter with the given cooldown that has allowed no one.
    pub fn new(cooldown_secs: u64) -> (r: Self)
        ensures
            r.cooldown() == cooldown_secs,
            forall|to: Seq<char>| #[trigger] r.last_sent_to(to) is None,
    {
        let r = RateLimiter { cooldown_secs, entries: Vec::new() };
        assert(r.entry_view() =~= Seq::<(Seq<char>, u64)>::empty());
        r
    }

    /// Decides whether a message may go to `to` at time `now`
    /// (milliseconds since the epoch), and records the send when it may.
    pub fn allow_at(&mut self, to: &str, now: u64) -> (ok: bool)
        ensures
            ok == admissible(old(self).last_sent_to(to@), old(self).cooldown(), now),
            final(self).cooldown() == old(self).cooldown(),
            forall|k: Seq<char>|
                #[trigger] final(self).last_sent_to(k) == if ok && k == to@ {
                    Some(now)
                } else {
                    old(self).last_sent_to(k)
                },
    {
        let ghost before = self.entry_view();
        let target = chars_of(to);
        let mut i: usize = self.entries.len();
        let mut found = false;
        assert(before.take(i as int) =~= before);
        while i > 0
            invariant_except_break
                !found,
                last_entry_for(before, to@) == last_entry_for(before.take(i as int), to@),
                forall|j: int| i <= j < before.len() ==> (#[trigger] before[j]).0 != to@,
            invariant
                i <= self.entries@.len(),
                self.entry_view() == before,
                before.len() == self.entries@.len(),
                target@ == to@,
            ensures
                found ==> i < before.len() && before[i as int].0 == to@ && last_entry_for(
                    before,
                    to@,
                ) == Some(before[i as int].1) && forall|j: int|
                    i < j < before.len() ==> (#[trigger] before[j]).0 != to@,
                !found ==> last_entry_for(before, to@) is None,
            decreases i,
        {
            let name = chars_of(self.entries[i - 1].0.as_str());
            assert(before[i - 1].0 == name@);
            assert(before.take(i as int).drop_last() =~= before.take(i - 1));
            assert(before.take(i as int).last() == before[i - 1]);
            if chars_equal(name.as_slice(), target.as_slice()) {
                i = i - 1;
                found = true;
                break;
            }
            i = i - 1;
        }
        let last = if found {
            Some(self.entries[i].1)
        } else {
            None
        };
        let ok = if self.cooldown_secs == 0 {
            true
        } else {
            match last {
                None => true,
                Some(t) => (now as u128) >= (t as u128) + (self.cooldown_secs as u128) * 1000,
            }
        };
        if ok {
            if found {
                let name = owned(to);
                self.entries.set(i, (name, now));
                proof {
                    lemma_update_last_match(before, to@, i as int, now);
                }
            } else {
                self.entries.push((owned(to), now));
                proof {
                    lemma_push_entry(before, to@, now);
                }
            }
            assert forall|k: Seq<char>| #[trigger] self.last_sent_to(k) == if k == to@ {
                Some(now)
            } else {
                last_entry_for(before, k)
            } by {
                if found {
                    assert(self.entry_view() =~= before.update(i as int, (to@, now)));
                } else {
                    assert(self.entry_view() =~= before.push((to@, now)));
                }
            }
        }
        ok
    }

    /// Decides whether a message may go to `to` now, by the system clock,
    /// and records the send when it may. The clock is read once; whatever
    /// it reads, the decision is that of `allow_at` at that time.
    pub fn allow(&mut self, to: &str) -> (ok: bool)
        ensures
            final(self).cooldown() == old(self).cooldown(),
            exists|now: u64|
                {
                    &&& ok == admissible(old(self).last_sent_to(to@), old(self).cooldown(), now)
                    &&& forall|k: Seq<char>|
                        #[trigger] final(self).last_sent_to(k) == if ok && k == to@ {
                            Some(now)
                        } else {
                            old(self).last_sent_to(k)
                        }
                },
    {
        let now = now_ms();
        self.allow_at(to, now)
    }
}

/// The last entry for a recipient, after an entry is added at the end.
proof fn lemma_push_entry(entries: Seq<(Seq<char>, u64)>, to: Seq<char>, now: u64)
    ensures
        forall|k: Seq<char>|
            #[trigger] last_entry_for(entries.push((to, now)), k) == if k == to {
                Some(now)
            } else {
                last_entry_for(entries, k)
            },
{
    assert forall|k: Seq<char>|
        #[trigger] last_entry_for(entries.push((to, now)), k) == if k == to {
            Some(now)
        } else {
            last_entry_for(entries, k)
        } by {
        assert(entries.push((to, now)).drop_last() =~= entries);
    }
}

/// Overwriting the time of an entry changes the last entry of its own
/// recipient only, provided no later entry names that recipient.
proof fn lemma_update_last_match(entries: Seq<(Seq<char>, u64)>, to: Seq<char>, i: int, now: u64)
    requires
        0 <= i < entries.len(),
        entries[i].0 == to,
        forall|j: int| i < j < entries.len() ==> entries[j].0 != to,
    ensures
        forall|k: Seq<char>|
            #[trigger] last_entry_for(entries.update(i, (to, now)), k) == if k == to {
                Some(now)
            } else {
                last_entry_for(entries, k)
            },
    decreases entries.len(),
{
    let updated = entries.update(i, (to, now));
    if i < entries.len() - 1 {
        assert(updated.drop_last() =~= entries.drop_last().update(i, (to, now)));
        assert(entries[entries.len() - 1].0 != to);
        lemma_update_last_match(entries.drop_last(), to, i, now);
    } else {
        assert(updated.drop_last() =~= entries.drop_last());
    }
    assert forall|k: Seq<char>|
        #[trigger] last_entry_for(updated, k) == if k == to {
            Some(now)
        } else {
            last_entry_for(entries, k)
        } by {
        if i < entries.len() - 1 {
            assert(entries[entries.len() - 1].0 != to);
            assert(updated.last() == entries.last());
            assert(last_entry_for(updated.drop_last(), k) == if k == to {
                Some(now)
            } else {
                last_entry_for(entries.drop_last(), k)
            });
        } else {
            assert(updated.last() == (to, now));
            assert(entries.last().0 == to);
        }
    }
}

} // verus!
