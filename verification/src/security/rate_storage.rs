//! Usage counts of rate limiting kept in memory, by the storage key of
//! what is limited. Entries not seen for an hour are dropped when a
//! cleanup is due. Times and durations are milliseconds.

use vstd::prelude::*;
use crate::keyed::{distinct_keys, put_entry, value_at};
use crate::security::rate_limit::{RateLimitKey, RateLimitUsage, storage_key};
use crate::support::now_millis;

verus! {

/// How long an entry may go unseen before a cleanup drops it: an hour.
pub const MAX_ENTRY_AGE: i64 = 3_600_000;

/// The interval between cleanups unless another is chosen: five minutes.
pub const DEFAULT_CLEANUP_INTERVAL: i64 = 300_000;

/// What the storage reports on itself.
#[derive(Debug, Clone)]
pub struct StorageStats {
    /// Entries kept.
    pub total_entries: usize,
    /// Memory the entries take, estimated.
    pub estimated_memory_bytes: usize,
    /// When the last cleanup ran.
    pub last_cleanup: i64,
}

/// The entries of `s` seen within `max_age` of `now`, in order.
pub open spec fn recent_entries(s: Seq<(String, RateLimitUsage)>, now: i64, max_age: i64) -> Seq<
    (String, RateLimitUsage),
>
    decreases s.len(),
{
    if s.len() == 0 {
        s
    } else if now - s.last().1.last_request <= max_age {
        recent_entries(s.drop_last(), now, max_age).push(s.last())
    } else {
        recent_entries(s.drop_last(), now, max_age)
    }
}

/// Usage counts kept in memory.
#[derive(Debug)]
pub struct MemoryRateLimitStorage {
    data: Vec<(String, RateLimitUsage)>,
    cleanup_interval: i64,
    last_cleanup: i64,
}

impl MemoryRateLimitStorage {
    /// The usage kept under each storage key.
    pub closed spec fn entries(&self) -> Seq<(String, RateLimitUsage)> {
        self.data@
    }

    /// The interval between cleanups.
    pub closed spec fn interval(&self) -> i64 {
        self.cleanup_interval
    }

    /// When the last cleanup ran.
    pub closed spec fn cleaned_at(&self) -> i64 {
        self.last_cleanup
    }

    /// Each storage key once.
    #[verifier::type_invariant]
    closed spec fn keys_distinct(&self) -> bool {
        distinct_keys(self.data@)
    }

    /// An empty storage cleaning every `cleanup_interval`, last cleaned at `now`.
    pub fn with_cleanup_interval_at(cleanup_interval: i64, now: i64) -> (s: Self)
        ensures
            s.entries().len() == 0,
            s.interval() == cleanup_interval,
            s.cleaned_at() == now,
    {
        MemoryRateLimitStorage { data: Vec::new(), cleanup_interval, last_cleanup: now }
    }

    /// An empty storage cleaning every `cleanup_interval`.
    pub fn with_cleanup_interval(cleanup_interval: i64) -> (s: Self)
        ensures
            s.entries().len() == 0,
            s.interval() == cleanup_interval,
    {
        Self::with_cleanup_interval_at(cleanup_interval, now_millis())
    }

    /// An empty storage cleaning every five minutes.
    pub fn new() -> (s: Self)
        ensures
            s.entries().len() == 0,
            s.interval() == DEFAULT_CLEANUP_INTERVAL,
    {
        Self::with_cleanup_interval(DEFAULT_CLEANUP_INTERVAL)
    }

    /// The number of entries, their memory estimated as the size of a usage
    /// count each, and when the last cleanup ran.
    pub fn get_stats(&self) -> (r: StorageStats)
        requires
            self.entries().len() * vstd::layout::size_of::<RateLimitUsage>() <= usize::MAX,
        ensures
            r.total_entries == self.entries().len(),
            r.estimated_memory_bytes == self.entries().len() * vstd::layout::size_of::<RateLimitUsage>(),
            r.last_cleanup == self.cleaned_at(),
    {
        let total_entries = self.data.len();
        let size = core::mem::size_of::<RateLimitUsage>();
        StorageStats {
            total_entries,
            estimated_memory_bytes: total_entries * size,
            last_cleanup: self.last_cleanup,
        }
    }

    /// Whether a cleanup is due at `now`: the interval has passed since the
    /// last one.
    pub fn should_cleanup_at(&self, now: i64) -> (r: bool)
        ensures
            r == (now - self.cleaned_at() >= self.interval()),
    {
        (now as i128) - (self.last_cleanup as i128) >= self.cleanup_interval as i128
    }

    /// Drops the entries not seen within `max_age` of `now`; gives how many.
    pub fn remove_old_entries_at(&mut self, max_age: i64, now: i64) -> (removed: usize)
        ensures
            final(self).entries() == recent_entries(old(self).entries(), now, max_age),
            removed == old(self).entries().len() - final(self).entries().len(),
            final(self).interval() == old(self).interval(),
            final(self).cleaned_at() == old(self).cleaned_at(),
    {
        proof {
            use_type_invariant(&*self);
        }
        let ghost before = self.data@;
        let mut kept: Vec<(String, RateLimitUsage)> = Vec::new();
        let mut i: usize = 0;
        while i < self.data.len()
            invariant
                i <= self.data@.len(),
                self.data@ == before,
                distinct_keys(before),
                kept@ == recent_entries(before.take(i as int), now, max_age),
                kept@.len() <= i,
                forall|j: int|
                    0 <= j < kept@.len() ==> exists|k: int|
                        0 <= k < i && #[trigger] kept@[j] == before[k],
                forall|a: int, b: int|
                    #![trigger kept@[a], kept@[b]]
                    0 <= a < b < kept@.len() ==> exists|x: int, y: int|
                        0 <= x < y < i && kept@[a] == #[trigger] before[x] && kept@[b] == #[trigger] before[y],
            decreases self.data.len() - i,
        {
            proof {
                assert(before.take(i + 1).drop_last() =~= before.take(i as int));
            }
            let usage = self.data[i].1;
            if (now as i128) - (usage.last_request as i128) <= max_age as i128 {
                let ghost k0 = kept@;
                kept.push((self.data[i].0.clone(), usage));
                proof {
                    assert(kept@[k0.len() as int] == before[i as int]);
                    assert forall|a: int, b: int|
                        #![trigger kept@[a], kept@[b]]
                        0 <= a < b < kept@.len() implies exists|x: int, y: int|
                            0 <= x < y < i + 1 && kept@[a] == #[trigger] before[x] && kept@[b]
                                == #[trigger] before[y] by {
                        if b < k0.len() {
                            assert(kept@[a] == k0[a] && kept@[b] == k0[b]);
                        } else {
                            assert(kept@[a] == k0[a]);
                            let x = choose|x: int| 0 <= x < i && #[trigger] k0[a] == before[x];
                            assert(kept@[b] == before[i as int]);
                        }
                    }
                }
            }
            i = i + 1;
        }
        assert(before.take(before.len() as int) =~= before);
        proof {
            assert forall|a: int, b: int|
                #![trigger kept@[a], kept@[b]]
                0 <= a < b < kept@.len() implies kept@[a].0@ != kept@[b].0@ by {
                let (x, y) = choose|x: int, y: int|
                    0 <= x < y < before.len() && kept@[a] == #[trigger] before[x] && kept@[b] == #[trigger] before[y];
            }
        }
        let removed = self.data.len() - kept.len();
        self.data = kept;
        removed
    }

    /// Drops the entries not seen for an hour and records `now` as the time
    /// of the last cleanup; gives how many were dropped.
    pub fn cleanup_expired_at(&mut self, now: i64) -> (removed: usize)
        ensures
            final(self).entries() == recent_entries(old(self).entries(), now, MAX_ENTRY_AGE),
            removed == old(self).entries().len() - final(self).entries().len(),
            final(self).interval() == old(self).interval(),
            final(self).cleaned_at() == now,
    {
        let removed = self.remove_old_entries_at(MAX_ENTRY_AGE, now);
        proof {
            use_type_invariant(&*self);
        }
        self.last_cleanup = now;
        removed
    }

    /// The usage under `key` at `now`, after the cleanup that is due.
    pub fn get_usage_at(&mut self, key: &RateLimitKey, now: i64) -> (r: Option<RateLimitUsage>)
        ensures
            old(self).should_cleanup_spec(now) ==> final(self).entries() == recent_entries(
                old(self).entries(),
                now,
                MAX_ENTRY_AGE,
            ) && final(self).cleaned_at() == now,
            !old(self).should_cleanup_spec(now) ==> final(self).entries() == old(self).entries()
                && final(self).cleaned_at() == old(self).cleaned_at(),
            final(self).interval() == old(self).interval(),
            r == value_at(final(self).entries(), storage_key(*key)),
    {
        if self.should_cleanup_at(now) {
            let _ = self.cleanup_expired_at(now);
        }
        let k = key.to_storage_key();
        self.lookup(k.as_str())
    }

    /// Whether a cleanup is due at `now`.
    pub open spec fn should_cleanup_spec(&self, now: i64) -> bool {
        now - self.cleaned_at() >= self.interval()
    }

    /// The usage under the storage key `k`.
    fn lookup(&self, k: &str) -> (r: Option<RateLimitUsage>)
        ensures
            r == value_at(self.entries(), k@),
    {
        proof {
            use_type_invariant(self);
        }
        let mut i: usize = 0;
        while i < self.data.len()
            invariant
                i <= self.data@.len(),
                distinct_keys(self.data@),
                forall|j: int| 0 <= j < i ==> #[trigger] self.data@[j].0@ != k@,
            decreases self.data.len() - i,
        {
            if crate::runtime::text::same_text(self.data[i].0.as_str(), k) {
                proof {
                    let c = choose|c: int| 0 <= c < self.data@.len() && #[trigger] self.data@[c].0@ == k@;
                    if c != i as int {
                        if c < i as int {
                            assert(self.data@[c].0@ != k@);
                        } else {
                            assert(self.data@[i as int].0@ != self.data@[c].0@);
                        }
                    }
                }
                return Some(self.data[i].1);
            }
            i = i + 1;
        }
        None
    }

    /// The usage under `key` now, after the cleanup that is due.
    pub fn get_usage(&mut self, key: &RateLimitKey) -> (r: Option<RateLimitUsage>) {
        self.get_usage_at(key, now_millis())
    }

    /// Keeps `usage` under `key`, in place of the usage it had.
    pub fn update_usage(&mut self, key: &RateLimitKey, usage: &RateLimitUsage)
        ensures
            forall|k: Seq<char>|
                #[trigger] value_at(final(self).entries(), k) == if k == storage_key(*key) {
                    Some(*usage)
                } else {
                    value_at(old(self).entries(), k)
                },
            final(self).interval() == old(self).interval(),
            final(self).cleaned_at() == old(self).cleaned_at(),
    {
        proof {
            use_type_invariant(&*self);
        }
        let k = key.to_storage_key();
        let mut data: Vec<(String, RateLimitUsage)> = Vec::new();
        std::mem::swap(&mut data, &mut self.data);
        put_entry(&mut data, k, *usage);
        self.data = data;
    }

    /// Counts `amount` more requests under `key` at `now`, starting a usage
    /// at `now` for a key not seen yet; gives the usage after.
    pub fn increment_usage_at(&mut self, key: &RateLimitKey, amount: u64, now: i64) -> (r:
        RateLimitUsage)
        requires
            value_at(old(self).entries(), storage_key(*key)) matches Some(u) ==> u.count + amount
                <= u64::MAX && u.total_requests + amount <= u64::MAX,
        ensures
            r.count == match value_at(old(self).entries(), storage_key(*key)) {
                Some(u) => u.count + amount,
                None => amount as int,
            },
            r.total_requests == match value_at(old(self).entries(), storage_key(*key)) {
                Some(u) => u.total_requests + amount,
                None => amount as int,
            },
            r.window_start == match value_at(old(self).entries(), storage_key(*key)) {
                Some(u) => u.window_start,
                None => now,
            },
            forall|k: Seq<char>|
                #[trigger] value_at(final(self).entries(), k) == if k == storage_key(*key) {
                    Some(r)
                } else {
                    value_at(old(self).entries(), k)
                },
    {
        let k = key.to_storage_key();
        let mut usage = match self.lookup(k.as_str()) {
            Some(u) => u,
            None => RateLimitUsage::new(0, now),
        };
        usage.increment(amount);
        proof {
            use_type_invariant(&*self);
        }
        let mut data: Vec<(String, RateLimitUsage)> = Vec::new();
        std::mem::swap(&mut data, &mut self.data);
        put_entry(&mut data, k, usage);
        self.data = data;
        usage
    }

    /// Counts `amount` more requests under `key` now.
    pub fn increment_usage(&mut self, key: &RateLimitKey, amount: u64) -> (r: RateLimitUsage)
        requires
            value_at(old(self).entries(), storage_key(*key)) matches Some(u) ==> u.count + amount
                <= u64::MAX && u.total_requests + amount <= u64::MAX,
    {
        self.increment_usage_at(key, amount, now_millis())
    }

    /// Drops the usage under `key`.
    pub fn reset_usage(&mut self, key: &RateLimitKey)
        ensures
            forall|k: Seq<char>|
                #[trigger] value_at(final(self).entries(), k) == if k == storage_key(*key) {
                    None
                } else {
                    value_at(old(self).entries(), k)
                },
            final(self).interval() == old(self).interval(),
            final(self).cleaned_at() == old(self).cleaned_at(),
    {
        proof {
            use_type_invariant(&*self);
        }
        let k = key.to_storage_key();
        let ghost before = self.data@;
        let mut kept: Vec<(String, RateLimitUsage)> = Vec::new();
        let mut i: usize = 0;
        while i < self.data.len()
            invariant
                i <= self.data@.len(),
                self.data@ == before,
                distinct_keys(before),
                distinct_keys(kept@),
                forall|j: int| 0 <= j < kept@.len() ==> #[trigger] kept@[j].0@ != k@,
                forall|j: int|
                    #![trigger kept@[j]]
                    0 <= j < kept@.len() ==> exists|x: int| 0 <= x < i && #[trigger] before[x] == kept@[j],
                forall|x: int|
                    0 <= x < i && before[x].0@ != k@ ==> exists|j: int|
                        0 <= j < kept@.len() && #[trigger] kept@[j] == #[trigger] before[x],
            decreases self.data.len() - i,
        {
            if !crate::runtime::text::same_text(self.data[i].0.as_str(), k.as_str()) {
                let ghost k0 = kept@;
                kept.push((self.data[i].0.clone(), self.data[i].1));
                proof {
                    assert(kept@[k0.len() as int] == before[i as int]);
                    assert forall|a: int, b: int|
                        #![trigger kept@[a], kept@[b]]
                        0 <= a < b < kept@.len() implies kept@[a].0@ != kept@[b].0@ by {
                        if b == k0.len() {
                            let x = choose|x: int| 0 <= x < i && #[trigger] before[x] == k0[a];
                            assert(kept@[a] == k0[a]);
                        } else {
                            assert(kept@[a] == k0[a] && kept@[b] == k0[b]);
                        }
                    }
                    assert forall|j: int|
                        #![trigger kept@[j]]
                        0 <= j < kept@.len() implies exists|x: int| 0 <= x < i + 1 && #[trigger] before[x] == kept@[j] by {
                        if j < k0.len() {
                            assert(kept@[j] == k0[j]);
                        }
                    }
                    assert forall|x: int|
                        0 <= x < i + 1 && before[x].0@ != k@ implies exists|j: int|
                            0 <= j < kept@.len() && #[trigger] kept@[j] == #[trigger] before[x] by {
                        if x < i {
                            let j = choose|j: int| 0 <= j < k0.len() && #[trigger] k0[j] == #[trigger] before[x];
                            assert(kept@[j] == k0[j]);
                        }
                    }
                }
            }
            i = i + 1;
        }
        proof {
            assert forall|q: Seq<char>|
                #[trigger] value_at(kept@, q) == if q == k@ {
                    None
                } else {
                    value_at(before, q)
                } by {
                if q == k@ {
                    if exists|c: int| 0 <= c < kept@.len() && #[trigger] kept@[c].0@ == q {
                        let c = choose|c: int| 0 <= c < kept@.len() && #[trigger] kept@[c].0@ == q;
                        assert(kept@[c].0@ != k@);
                    }
                } else {
                    if exists|d: int| 0 <= d < before.len() && #[trigger] before[d].0@ == q {
                        let d = choose|d: int| 0 <= d < before.len() && #[trigger] before[d].0@ == q;
                        let j = choose|j: int| 0 <= j < kept@.len() && #[trigger] kept@[j] == #[trigger] before[d];
                        assert(kept@[j].0@ == q);
                        let c = choose|c: int| 0 <= c < kept@.len() && #[trigger] kept@[c].0@ == q;
                        if c != j {
                            if c < j {
                                assert(kept@[c].0@ != kept@[j].0@);
                            } else {
                                assert(kept@[j].0@ != kept@[c].0@);
                            }
                        }
                    } else {
                        if exists|c: int| 0 <= c < kept@.len() && #[trigger] kept@[c].0@ == q {
                            let c = choose|c: int| 0 <= c < kept@.len() && #[trigger] kept@[c].0@ == q;
                            let x = choose|x: int| 0 <= x < before.len() && #[trigger] before[x] == kept@[c];
                            assert(before[x].0@ == q);
                        }
                    }
                }
            }
        }
        self.data = kept;
    }
}

impl Default for MemoryRateLimitStorage {
    /// An empty storage cleaning every five minutes.
    fn default() -> (s: Self)
        ensures
            s.entries().len() == 0,
            s.interval() == DEFAULT_CLEANUP_INTERVAL,
    {
        MemoryRateLimitStorage::new()
    }
}

} // verus!
