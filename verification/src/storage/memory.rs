//! An in-memory store: persistent state, log entries keyed by index with
//! their checksums, and the latest snapshot. Nothing survives a restart.

use vstd::prelude::*;
use std::collections::BTreeMap;
use crate::order::{keys_in_order, map_keys, strictly_increasing};
use crate::raft::log::{LogEntry, LogEntryView, LogIndex, Term, entry_views};
use crate::storage::entry::{PersistentState, StoredLogEntry, entry_checksum};
use crate::storage::error::{StorageError, StorageResult};
use crate::storage::types::{
    IntegrityIssue, IntegrityIssueType, IntegrityReport, IssueSeverity, MaintenanceReport,
    severity_rank,
};
use crate::support::{decimal, decimal_text, join_text};

verus! {

broadcast use vstd::std_specs::btree::group_btree_axioms;

/// An integrity issue as plain values: kind, index, severity, description.
pub type IssueView = (IntegrityIssueType, Option<u64>, IssueSeverity, Seq<char>);

/// The plain values of an issue.
pub open spec fn issue_view(i: IntegrityIssue) -> IssueView {
    (i.issue_type, i.log_index, i.severity, i.description@)
}

/// The plain values of a list of issues.
pub open spec fn issue_views(s: Seq<IntegrityIssue>) -> Seq<IssueView> {
    s.map_values(|i: IntegrityIssue| issue_view(i))
}

/// The plain values of the entries stored under the indices `ks`.
pub open spec fn stored_views(m: Map<u64, StoredLogEntry>, ks: Seq<u64>) -> Seq<LogEntryView> {
    ks.map_values(|k: u64| m[k].entry@)
}

/// The issues found at the `j`-th stored entry (in index order), whose
/// predecessor has term `prev_term`: a checksum mismatch, then a term lower
/// than the previous one.
pub open spec fn issues_at(m: Map<u64, StoredLogEntry>, ks: Seq<u64>, j: int, prev_term: u64) -> Seq<
    IssueView,
> {
    let k = ks[j];
    let e = m[k];
    let c = if entry_checksum(e.entry@) != e.checksum {
        seq![
            (
                IntegrityIssueType::ChecksumMismatch,
                Some(k),
                IssueSeverity::Error,
                "Checksum mismatch for entry at index "@ + decimal(k as nat),
            ),
        ]
    } else {
        Seq::empty()
    };
    let t = if e.entry.term < prev_term {
        seq![
            (
                IntegrityIssueType::InvalidTermSequence,
                Some(k),
                IssueSeverity::Warning,
                "Term "@ + decimal(e.entry.term as nat) + " at index "@ + decimal(k as nat)
                    + " is less than previous term "@ + decimal(prev_term as nat),
            ),
        ]
    } else {
        Seq::empty()
    };
    c + t
}

/// The term of the entry before the `j`-th one (0 for the first).
pub open spec fn term_before(m: Map<u64, StoredLogEntry>, ks: Seq<u64>, j: int) -> u64 {
    if j == 0 {
        0
    } else {
        m[ks[j - 1]].entry.term
    }
}

/// The entry issues of the first `n` stored entries.
pub open spec fn entry_issues(m: Map<u64, StoredLogEntry>, ks: Seq<u64>, n: int) -> Seq<IssueView>
    decreases n,
{
    if n <= 0 {
        Seq::empty()
    } else {
        entry_issues(m, ks, n - 1) + issues_at(m, ks, n - 1, term_before(m, ks, n - 1))
    }
}

/// The gaps among the first `n` indices: each index not followed by the next one.
pub open spec fn gap_issues(ks: Seq<u64>, n: int) -> Seq<IssueView>
    decreases n,
{
    if n <= 1 {
        Seq::empty()
    } else if ks[n - 1] != ks[n - 2] + 1 {
        gap_issues(ks, n - 1).push(
            (
                IntegrityIssueType::MissingEntry,
                Some((ks[n - 2] + 1) as u64),
                IssueSeverity::Warning,
                "Gap in log indices: "@ + decimal(ks[n - 2] as nat) + " followed by "@ + decimal(
                    ks[n - 1] as nat,
                ),
            ),
        )
    } else {
        gap_issues(ks, n - 1)
    }
}

/// All the issues an integrity check finds in the entries `m`.
pub open spec fn integrity_issues(m: Map<u64, StoredLogEntry>) -> Seq<IssueView> {
    let ks = keys_in_order(m);
    entry_issues(m, ks, ks.len() as int) + gap_issues(ks, ks.len() as int)
}

/// Whether no issue is of severity `Error` or above.
pub open spec fn all_below_error(issues: Seq<IssueView>) -> bool {
    forall|i: int| 0 <= i < issues.len() ==> severity_rank(#[trigger] issues[i].2) < 2
}

/// The entries of `m` whose index satisfies `keep`.
pub open spec fn entries_where(m: Map<u64, StoredLogEntry>, keep: spec_fn(u64) -> bool) -> Map<
    u64,
    StoredLogEntry,
> {
    Map::new(|k: u64| m.contains_key(k) && keep(k), |k: u64| m[k])
}

/// The last of `s` with index `k`, as plain values.
pub open spec fn last_with_index(s: Seq<LogEntry>, k: u64) -> Option<LogEntryView>
    decreases s.len(),
{
    if s.len() == 0 {
        None
    } else if s.last().index == k {
        Some(s.last()@)
    } else {
        last_with_index(s.drop_last(), k)
    }
}

/// The entries from `start` on, up to `end` excluded, that follow each other
/// without a gap from `start`.
pub open spec fn run_from(m: Map<u64, StoredLogEntry>, start: u64, end: u64) -> Seq<u64>
    decreases end - start,
{
    if start >= end || !m.contains_key(start) {
        Seq::empty()
    } else {
        seq![start] + run_from(m, (start + 1) as u64, end)
    }
}

/// An in-memory store.
#[derive(Debug)]
pub struct MemoryStorage {
    persistent_state: Option<PersistentState>,
    log_entries: BTreeMap<LogIndex, StoredLogEntry>,
    snapshot: Option<(Vec<u8>, LogIndex, Term)>,
    last_maintenance: Option<i64>,
}

impl MemoryStorage {
    /// The stored persistent state.
    pub closed spec fn state_spec(&self) -> Option<PersistentState> {
        self.persistent_state
    }

    /// The stored entries, by index.
    pub closed spec fn entries_spec(&self) -> Map<u64, StoredLogEntry> {
        self.log_entries@
    }

    /// When maintenance last ran, if it did.
    pub closed spec fn last_maintenance_spec(&self) -> Option<i64> {
        self.last_maintenance
    }

    /// The stored snapshot: data, last included index and term.
    pub closed spec fn snapshot_spec(&self) -> Option<(Seq<u8>, u64, u64)> {
        match self.snapshot {
            Some((d, i, t)) => Some((d@, i, t)),
            None => None,
        }
    }

    /// An empty store.
    pub fn new() -> (s: MemoryStorage)
        ensures
            s.state_spec() is None,
            s.entries_spec() == Map::<u64, StoredLogEntry>::empty(),
            s.snapshot_spec() is None,
    {
        MemoryStorage {
            persistent_state: None,
            log_entries: BTreeMap::new(),
            snapshot: None,
            last_maintenance: None,
        }
    }

    /// A store that holds `initial_state` and nothing else.
    pub fn with_state(initial_state: PersistentState) -> (s: MemoryStorage)
        ensures
            s.state_spec() == Some(initial_state),
            s.entries_spec() == Map::<u64, StoredLogEntry>::empty(),
            s.snapshot_spec() is None,
    {
        MemoryStorage {
            persistent_state: Some(initial_state),
            log_entries: BTreeMap::new(),
            snapshot: None,
            last_maintenance: None,
        }
    }

    /// Replaces the stored persistent state.
    pub fn store_persistent_state(&mut self, state: PersistentState) -> (r: StorageResult<()>)
        ensures
            r is Ok,
            final(self).state_spec() == Some(state),
            final(self).entries_spec() == old(self).entries_spec(),
            final(self).snapshot_spec() == old(self).snapshot_spec(),
    {
        self.persistent_state = Some(state);
        Ok(())
    }

    /// The stored persistent state.
    pub fn load_persistent_state(&self) -> (r: StorageResult<Option<&PersistentState>>)
        ensures
            r == Ok::<Option<&PersistentState>, StorageError>(
                match self.state_spec() {
                    Some(s) => Some(&s),
                    None => None,
                },
            ),
    {
        Ok(self.persistent_state.as_ref())
    }

    /// Stores `entry` under its index, with its checksum, replacing what was there.
    pub fn store_log_entry(&mut self, entry: LogEntry) -> (r: StorageResult<()>)
        ensures
            r is Ok,
            final(self).entries_spec().dom() == old(self).entries_spec().dom().insert(entry.index),
            final(self).entries_spec()[entry.index].entry == entry,
            final(self).entries_spec()[entry.index].checksum == entry_checksum(entry@),
            forall|k: u64|
                k != entry.index ==> #[trigger] final(self).entries_spec().contains_key(k)
                    ==> final(self).entries_spec()[k] == old(self).entries_spec()[k],
            final(self).state_spec() == old(self).state_spec(),
            final(self).snapshot_spec() == old(self).snapshot_spec(),
    {
        let index = entry.index;
        let stored = StoredLogEntry::new(entry);
        self.log_entries.insert(index, stored);
        Ok(())
    }

    /// Stores each of `entries` in turn, as `store_log_entry` does: of
    /// several entries with one index, the last one stays.
    pub fn store_log_entries(&mut self, entries: &Vec<LogEntry>) -> (r: StorageResult<()>)
        ensures
            r is Ok,
            forall|k: u64|
                #[trigger] final(self).entries_spec().contains_key(k) <==> old(
                    self,
                ).entries_spec().contains_key(k) || last_with_index(entries@, k) is Some,
            forall|k: u64| #[trigger]
                final(self).entries_spec().contains_key(k) ==> match last_with_index(entries@, k) {
                    Some(v) => final(self).entries_spec()[k].entry@ == v
                        && final(self).entries_spec()[k].checksum == entry_checksum(v),
                    None => final(self).entries_spec()[k] == old(self).entries_spec()[k],
                },
            final(self).state_spec() == old(self).state_spec(),
            final(self).snapshot_spec() == old(self).snapshot_spec(),
    {
        let n = entries.len();
        let mut i: usize = 0;
        while i < n
            invariant
                i <= n,
                n == entries@.len(),
                forall|k: u64|
                    #[trigger] self.log_entries@.contains_key(k) <==> old(
                        self,
                    ).log_entries@.contains_key(k) || last_with_index(entries@.take(i as int), k) is Some,
                forall|k: u64| #[trigger]
                    self.log_entries@.contains_key(k) ==> match last_with_index(
                        entries@.take(i as int),
                        k,
                    ) {
                        Some(v) => self.log_entries@[k].entry@ == v && self.log_entries@[k].checksum
                            == entry_checksum(v),
                        None => self.log_entries@[k] == old(self).log_entries@[k],
                    },
                self.persistent_state == old(self).persistent_state,
                self.snapshot == old(self).snapshot,
            decreases n - i,
        {
            let e = entries[i].duplicate();
            let index = e.index;
            let stored = StoredLogEntry::new(e);
            self.log_entries.insert(index, stored);
            proof {
                let t = entries@.take(i + 1);
                assert(t.drop_last() =~= entries@.take(i as int));
                assert(t.last() == entries@[i as int]);
            }
            i = i + 1;
        }
        proof {
            assert(entries@.take(n as int) =~= entries@);
        }
        Ok(())
    }

    /// A copy of the entry at `index`, if stored (whether or not its checksum matches).
    pub fn get_log_entry(&self, index: LogIndex) -> (r: StorageResult<Option<LogEntry>>)
        ensures
            r is Ok,
            match r->Ok_0 {
                Some(e) => self.entries_spec().contains_key(index) && e@
                    == self.entries_spec()[index].entry@,
                None => !self.entries_spec().contains_key(index),
            },
    {
        match self.log_entries.get(&index) {
            Some(stored) => Ok(Some(stored.entry.duplicate())),
            None => Ok(None),
        }
    }

    /// Copies of the entries from `start` on, up to `end` excluded, stopping
    /// at the first missing index; refused with a corruption error at the
    /// first entry of the run whose checksum does not match.
    pub fn get_log_entries(&self, start: LogIndex, end: LogIndex) -> (r: StorageResult<Vec<LogEntry>>)
        ensures
            ({
                let run = run_from(self.entries_spec(), start, end);
                let m = self.entries_spec();
                &&& (forall|i: int|
                    0 <= i < run.len() ==> entry_checksum(#[trigger] m[run[i]].entry@)
                        == m[run[i]].checksum) ==> r is Ok && entry_views(r->Ok_0@) == stored_views(m, run)
                &&& r is Err ==> exists|i: int|
                    0 <= i < run.len() && entry_checksum(#[trigger] m[run[i]].entry@)
                        != m[run[i]].checksum && r->Err_0 is Corruption
                        && r->Err_0->Corruption_message@ == "Corrupted entry at index "@ + decimal(
                        run[i] as nat,
                    )
            }),
    {
        let ghost m = self.entries_spec();
        let mut out: Vec<LogEntry> = Vec::new();
        let mut index = start;
        while index < end
            invariant
                start <= index,
                index <= end || index == start,
                m == self.entries_spec(),
                forall|k: u64| start <= k < index ==> #[trigger] m.contains_key(k),
                forall|k: u64|
                    start <= k < index ==> entry_checksum(#[trigger] m[k].entry@) == m[k].checksum,
                entry_views(out@) == stored_views(m, run_from(m, start, index)),
            decreases end - index,
        {
            proof {
                lemma_run_full(m, start, index);
            }
            match self.log_entries.get(&index) {
                Some(stored) => {
                    if !stored.verify_integrity() {
                        let text = decimal_text(index);
                        let message = join_text("Corrupted entry at index ", text.as_str());
                        proof {
                            lemma_run_concat(m, start, index, end);
                            let run = run_from(m, start, end);
                            assert(run_from(m, index, end)[0] == index);
                            assert(run[index - start] == index);
                        }
                        return Err(StorageError::Corruption { message });
                    }
                    let ghost before = out@;
                    out.push(stored.entry.duplicate());
                    proof {
                        lemma_run_extend(m, start, index);
                        assert(entry_views(out@) =~= entry_views(before).push(m[index].entry@));
                        assert(stored_views(m, run_from(m, start, (index + 1) as u64)) =~= stored_views(
                            m,
                            run_from(m, start, index),
                        ).push(m[index].entry@));
                    }
                },
                None => {
                    proof {
                        lemma_run_concat(m, start, index, end);
                        assert(run_from(m, index, end) =~= Seq::<u64>::empty());
                        assert(run_from(m, start, end) =~= run_from(m, start, index));
                        lemma_run_values(m, start, index);
                    }
                    return Ok(out);
                },
            }
            index = index + 1;
        }
        proof {
            if index <= end {
                lemma_run_concat(m, start, index, end);
                assert(run_from(m, index, end) =~= Seq::<u64>::empty());
                assert(run_from(m, start, end) =~= run_from(m, start, index));
            } else {
                assert(run_from(m, start, end) =~= Seq::<u64>::empty());
                assert(run_from(m, start, index) =~= Seq::<u64>::empty());
            }
            lemma_run_values(m, start, index);
        }
        Ok(out)
    }

    /// The lowest stored index, 1 when nothing is stored.
    pub fn first_log_index(&self) -> (r: StorageResult<LogIndex>)
        ensures
            r == Ok::<u64, StorageError>(
                if self.entries_spec().dom().len() == 0 {
                    1u64
                } else {
                    keys_in_order(self.entries_spec())[0]
                },
            ),
    {
        let keys = map_keys(&self.log_entries);
        proof {
            lemma_keys_len(self.log_entries@, keys@);
        }
        if keys.len() == 0 {
            Ok(1)
        } else {
            Ok(keys[0])
        }
    }

    /// The highest stored index, 0 when nothing is stored.
    pub fn last_log_index(&self) -> (r: StorageResult<LogIndex>)
        ensures
            r == Ok::<u64, StorageError>(
                if self.entries_spec().dom().len() == 0 {
                    0u64
                } else {
                    keys_in_order(self.entries_spec()).last()
                },
            ),
    {
        let keys = map_keys(&self.log_entries);
        proof {
            lemma_keys_len(self.log_entries@, keys@);
        }
        if keys.len() == 0 {
            Ok(0)
        } else {
            Ok(keys[keys.len() - 1])
        }
    }

    /// The term of the entry at `index`, if stored.
    pub fn get_log_term(&self, index: LogIndex) -> (r: StorageResult<Option<Term>>)
        ensures
            r == Ok::<Option<u64>, StorageError>(
                if self.entries_spec().contains_key(index) {
                    Some(self.entries_spec()[index].entry.term)
                } else {
                    None
                },
            ),
    {
        match self.log_entries.get(&index) {
            Some(stored) => Ok(Some(stored.entry.term)),
            None => Ok(None),
        }
    }

    /// Removes the entries keyed by the indices for which `drop` holds.
    fn remove_where(&mut self, bound: LogIndex, from_bound_on: bool)
        ensures
            final(self).entries_spec() == entries_where(
                old(self).entries_spec(),
                |k: u64|
                    if from_bound_on {
                        k < bound
                    } else {
                        k > bound
                    },
            ),
            final(self).state_spec() == old(self).state_spec(),
            final(self).snapshot_spec() == old(self).snapshot_spec(),
    {
        let ghost keep = |k: u64|
            if from_bound_on {
                k < bound
            } else {
                k > bound
            };
        let keys = map_keys(&self.log_entries);
        let mut i: usize = 0;
        while i < keys.len()
            invariant
                i <= keys.len(),
                keys@.to_set() == old(self).log_entries@.dom(),
                forall|k: u64| #[trigger]
                    self.log_entries@.contains_key(k) ==> old(self).log_entries@.contains_key(k)
                        && self.log_entries@[k] == old(self).log_entries@[k],
                forall|k: u64|
                    old(self).log_entries@.contains_key(k) && keep(k)
                        ==> #[trigger] self.log_entries@.contains_key(k),
                forall|j: int|
                    0 <= j < i && !keep(keys@[j]) ==> !#[trigger] self.log_entries@.contains_key(
                        keys@[j],
                    ),
                keep == (|k: u64|
                    if from_bound_on {
                        k < bound
                    } else {
                        k > bound
                    }),
                self.persistent_state == old(self).persistent_state,
                self.snapshot == old(self).snapshot,
            decreases keys.len() - i,
        {
            let k = keys[i];
            let drop = if from_bound_on {
                k >= bound
            } else {
                k <= bound
            };
            if drop {
                self.log_entries.remove(&k);
            }
            i = i + 1;
        }
        proof {
            assert forall|k: u64| #[trigger] self.log_entries@.contains_key(k) <==> entries_where(
                old(self).log_entries@,
                keep,
            ).contains_key(k) by {
                if old(self).log_entries@.contains_key(k) && !keep(k) {
                    assert(keys@.to_set().contains(k));
                    let j = choose|j: int| 0 <= j < keys@.len() && keys@[j] == k;
                }
            }
            assert(self.log_entries@ =~= entries_where(old(self).log_entries@, keep));
        }
    }

    /// Removes the entries from `index` on.
    pub fn truncate_log_from(&mut self, index: LogIndex) -> (r: StorageResult<()>)
        ensures
            r is Ok,
            final(self).entries_spec() == entries_where(old(self).entries_spec(), |k: u64| k < index),
            final(self).state_spec() == old(self).state_spec(),
            final(self).snapshot_spec() == old(self).snapshot_spec(),
    {
        self.remove_where(index, true);
        proof {
            assert(entries_where(old(self).entries_spec(), |k: u64| if true { k < index } else { k > index })
                =~= entries_where(old(self).entries_spec(), |k: u64| k < index));
        }
        Ok(())
    }

    /// Removes the entries up to `index` included.
    pub fn compact_log_to(&mut self, index: LogIndex) -> (r: StorageResult<()>)
        ensures
            r is Ok,
            final(self).entries_spec() == entries_where(old(self).entries_spec(), |k: u64| k > index),
            final(self).state_spec() == old(self).state_spec(),
            final(self).snapshot_spec() == old(self).snapshot_spec(),
    {
        self.remove_where(index, false);
        proof {
            assert(entries_where(old(self).entries_spec(), |k: u64| if false { k < index } else { k > index })
                =~= entries_where(old(self).entries_spec(), |k: u64| k > index));
        }
        Ok(())
    }

    /// Replaces the stored snapshot.
    pub fn store_snapshot(&mut self, snapshot: &[u8], last_included_index: LogIndex, last_included_term: Term) -> (r: StorageResult<()>)
        ensures
            r is Ok,
            final(self).snapshot_spec() == Some((snapshot@, last_included_index, last_included_term)),
            final(self).entries_spec() == old(self).entries_spec(),
            final(self).state_spec() == old(self).state_spec(),
    {
        let mut data: Vec<u8> = Vec::new();
        let mut i: usize = 0;
        while i < snapshot.len()
            invariant
                i <= snapshot.len(),
                data@ == snapshot@.take(i as int),
            decreases snapshot.len() - i,
        {
            data.push(snapshot[i]);
            proof {
                assert(snapshot@.take(i + 1) =~= snapshot@.take(i as int).push(snapshot@[i as int]));
            }
            i = i + 1;
        }
        proof {
            assert(snapshot@.take(snapshot.len() as int) =~= snapshot@);
        }
        self.snapshot = Some((data, last_included_index, last_included_term));
        Ok(())
    }

    /// A copy of the stored snapshot, if any.
    pub fn load_snapshot(&self) -> (r: StorageResult<Option<(Vec<u8>, LogIndex, Term)>>)
        ensures
            r is Ok,
            match (r->Ok_0, self.snapshot_spec()) {
                (Some((d, i, t)), Some((d2, i2, t2))) => d@ == d2 && i == i2 && t == t2,
                (None, None) => true,
                _ => false,
            },
    {
        match &self.snapshot {
            Some((d, i, t)) => Ok(Some((crate::raft::log::copy_bytes(d), *i, *t))),
            None => Ok(None),
        }
    }

    /// Nothing to clean: the store keeps one snapshot.
    pub fn cleanup_snapshots(&mut self) -> (r: StorageResult<()>)
        ensures
            r is Ok,
            *final(self) == *old(self),
    {
        Ok(())
    }

    /// Nothing to flush in memory.
    pub fn sync(&mut self) -> (r: StorageResult<()>)
        ensures
            r is Ok,
            *final(self) == *old(self),
    {
        Ok(())
    }

    /// Checks the stored entries: each checksum, the order of terms, and
    /// gaps between indices. The report is valid unless an issue of
    /// severity `Error` or above is found; one snapshot is checked when one
    /// is stored.
    pub fn verify_integrity(&self) -> (r: StorageResult<IntegrityReport>)
        ensures
            r is Ok,
            issue_views(r->Ok_0.issues@) == integrity_issues(
                self.entries_spec(),
            ),
            r->Ok_0.is_valid == all_below_error(integrity_issues(self.entries_spec())),
            r->Ok_0.entries_checked == self.entries_spec().dom().len(),
            r->Ok_0.snapshots_checked == if self.snapshot_spec() is Some {
                1u64
            } else {
                0u64
            },
    {
        let start = crate::support::now_millis();
        let ghost m = self.log_entries@;
        let keys = map_keys(&self.log_entries);
        let ghost ks = keys@;
        proof {
            lemma_keys_len(m, ks);
        }
        let mut issues: Vec<IntegrityIssue> = Vec::new();
        let mut last_term: u64 = 0;
        let mut i: usize = 0;
        while i < keys.len()
            invariant
                i <= keys.len(),
                ks == keys@,
                ks == keys_in_order(m),
                ks.to_set() == m.dom(),
                m == self.log_entries@,
                last_term == term_before(m, ks, i as int),
                issue_views(issues@) == entry_issues(m, ks, i as int),
            decreases keys.len() - i,
        {
            let k = keys[i];
            proof {
                assert(ks.to_set().contains(k));
            }
            let stored = self.log_entries.get(&k).unwrap();
            let ghost before = issues@;
            if !stored.verify_integrity() {
                let text = decimal_text(k);
                let description = join_text("Checksum mismatch for entry at index ", text.as_str());
                issues.push(
                    IntegrityIssue {
                        issue_type: IntegrityIssueType::ChecksumMismatch,
                        description,
                        log_index: Some(k),
                        severity: IssueSeverity::Error,
                    },
                );
            }
            let ghost mid = issues@;
            if stored.entry.term < last_term {
                let t1 = decimal_text(stored.entry.term);
                let t2 = decimal_text(k);
                let t3 = decimal_text(last_term);
                let a = join_text("Term ", t1.as_str());
                let b = join_text(a.as_str(), " at index ");
                let c = join_text(b.as_str(), t2.as_str());
                let d = join_text(c.as_str(), " is less than previous term ");
                let description = join_text(d.as_str(), t3.as_str());
                issues.push(
                    IntegrityIssue {
                        issue_type: IntegrityIssueType::InvalidTermSequence,
                        description,
                        log_index: Some(k),
                        severity: IssueSeverity::Warning,
                    },
                );
            }
            proof {
                assert(issue_views(issues@) =~= issue_views(before) + issues_at(
                    m,
                    ks,
                    i as int,
                    last_term,
                ));
            }
            last_term = stored.entry.term;
            i = i + 1;
        }
        proof {
            assert(gap_issues(ks, 1) =~= Seq::<IssueView>::empty());
            assert(issue_views(issues@) =~= entry_issues(m, ks, ks.len() as int) + gap_issues(ks, 1));
        }
        let mut j: usize = 1;
        while j < keys.len()
            invariant
                1 <= j,
                j <= keys.len() || j == 1,
                ks == keys@,
                ks == keys_in_order(m),
                m == self.log_entries@,
                strictly_increasing(ks),
                issue_views(issues@) == entry_issues(m, ks, ks.len() as int)
                    + gap_issues(ks, j as int),
            decreases keys.len() - j,
        {
            let prev = keys[j - 1];
            let cur = keys[j];
            proof {
                assert(prev < cur);
            }
            let ghost before = issues@;
            if cur != prev + 1 {
                let t1 = decimal_text(prev);
                let t2 = decimal_text(cur);
                let a = join_text("Gap in log indices: ", t1.as_str());
                let b = join_text(a.as_str(), " followed by ");
                let description = join_text(b.as_str(), t2.as_str());
                issues.push(
                    IntegrityIssue {
                        issue_type: IntegrityIssueType::MissingEntry,
                        description,
                        log_index: Some(prev + 1),
                        severity: IssueSeverity::Warning,
                    },
                );
                proof {
                    assert(issue_views(issues@) =~= issue_views(before).push(issue_view(issues@.last())));
                }
            }
            j = j + 1;
        }
        proof {
            if keys.len() > 0 {
                assert(j == keys.len());
                assert(issue_views(issues@) == entry_issues(m, ks, ks.len() as int) + gap_issues(ks, j as int));
            } else {
                assert(gap_issues(ks, 1) =~= gap_issues(ks, 0));
                assert(issue_views(issues@) == entry_issues(m, ks, ks.len() as int) + gap_issues(ks, 1));
            }
        }
        assert(issue_views(issues@) == entry_issues(m, ks, ks.len() as int) + gap_issues(ks, ks.len() as int));
        let mut is_valid = true;
        let mut q: usize = 0;
        while q < issues.len()
            invariant
                q <= issues.len(),
                ks == keys_in_order(m),
                m == self.log_entries@,
                issue_views(issues@) == entry_issues(m, ks, ks.len() as int) + gap_issues(ks, ks.len() as int),
                is_valid == forall|x: int| 0 <= x < q ==> severity_rank(#[trigger] issues@[x].severity) < 2,
            decreases issues.len() - q,
        {
            if !issues[q].severity.is_below(&IssueSeverity::Error) {
                is_valid = false;
            }
            q = q + 1;
        }
        proof {
            let v = issue_views(issues@);
            assert(is_valid == all_below_error(v)) by {
                if is_valid {
                    assert forall|x: int| 0 <= x < v.len() implies severity_rank(#[trigger] v[x].2) < 2 by {
                        assert(v[x] == issue_view(issues@[x]));
                        assert(severity_rank(issues@[x].severity) < 2);
                    }
                } else {
                    let x = choose|x: int| 0 <= x < issues@.len() && !(severity_rank(issues@[x].severity) < 2);
                    assert(v[x] == issue_view(issues@[x]));
                    assert(!(severity_rank(v[x].2) < 2));
                }
            }
        }
        let snapshots_checked: u64 = if self.snapshot.is_some() {
            1
        } else {
            0
        };
        let end = crate::support::now_millis();
        Ok(
            IntegrityReport {
                is_valid,
                issues,
                entries_checked: keys.len() as u64,
                snapshots_checked,
                verification_duration: crate::raft::state::elapsed_between(start, end),
            },
        )
    }

    /// Records that maintenance ran now; nothing else needs doing in memory.
    pub fn maintenance(&mut self) -> (r: StorageResult<MaintenanceReport>)
        ensures
            r is Ok,
            r->Ok_0.operations_performed@.len() == 0,
            r->Ok_0.space_reclaimed == 0,
            r->Ok_0.issues@.len() == 0,
            final(self).entries_spec() == old(self).entries_spec(),
            final(self).state_spec() == old(self).state_spec(),
            final(self).snapshot_spec() == old(self).snapshot_spec(),
            final(self).last_maintenance_spec() is Some,
            exists|end: i64|
                r->Ok_0.maintenance_duration == #[trigger] crate::raft::state::elapsed_ms(
                    final(self).last_maintenance_spec()->0,
                    end,
                ),
    {
        let start = crate::support::now_millis();
        self.last_maintenance = Some(start);
        let end = crate::support::now_millis();
        let duration = crate::raft::state::elapsed_between(start, end);
        proof {
            assert(self.last_maintenance_spec() == Some(start));
            assert(duration == crate::raft::state::elapsed_ms(self.last_maintenance_spec()->0, end));
        }
        Ok(
            MaintenanceReport {
                operations_performed: Vec::new(),
                space_reclaimed: 0,
                maintenance_duration: duration,
                issues: Vec::new(),
            },
        )
    }
}

/// The keys of a finite map, in order, are as many as its domain.
proof fn lemma_keys_len(m: Map<u64, StoredLogEntry>, ks: Seq<u64>)
    requires
        ks == keys_in_order(m),
        ks.to_set() == m.dom(),
        ks.no_duplicates(),
    ensures
        ks.len() == m.dom().len(),
{
    ks.unique_seq_to_set();
}

/// A run over indices that are all stored has every index, in order.
proof fn lemma_run_full(m: Map<u64, StoredLogEntry>, start: u64, index: u64)
    requires
        start <= index,
        forall|k: u64| start <= k < index ==> #[trigger] m.contains_key(k),
    ensures
        run_from(m, start, index).len() == index - start,
        forall|i: int| 0 <= i < index - start ==> #[trigger] run_from(m, start, index)[i] == start + i,
    decreases index - start,
{
    if start < index {
        lemma_run_full(m, (start + 1) as u64, index);
        let r = run_from(m, start, index);
        assert(r == seq![start] + run_from(m, (start + 1) as u64, index));
        assert forall|i: int| 0 <= i < index - start implies #[trigger] r[i] == start + i by {
            if i > 0 {
                assert(r[i] == run_from(m, (start + 1) as u64, index)[i - 1]);
            }
        }
    }
}

/// A run through stored indices continues with the run from its end.
proof fn lemma_run_concat(m: Map<u64, StoredLogEntry>, start: u64, mid: u64, end: u64)
    requires
        start <= mid <= end,
        forall|k: u64| start <= k < mid ==> #[trigger] m.contains_key(k),
    ensures
        run_from(m, start, end) == run_from(m, start, mid) + run_from(m, mid, end),
    decreases mid - start,
{
    if start < mid {
        lemma_run_concat(m, (start + 1) as u64, mid, end);
        assert(run_from(m, start, end) =~= run_from(m, start, mid) + run_from(m, mid, end));
    } else {
        assert(run_from(m, start, mid) =~= Seq::<u64>::empty());
        assert(run_from(m, start, end) =~= run_from(m, start, mid) + run_from(m, mid, end));
    }
}

/// A run whose indices are all stored holds the entries whose checksums
/// were all checked.
proof fn lemma_run_values(m: Map<u64, StoredLogEntry>, start: u64, index: u64)
    requires
        start <= index,
        forall|k: u64| start <= k < index ==> #[trigger] m.contains_key(k),
    ensures
        forall|i: int|
            0 <= i < run_from(m, start, index).len() ==> start <= #[trigger] run_from(m, start, index)[i]
                < index,
{
    lemma_run_full(m, start, index);
}

/// Extending a full run by one stored index.
proof fn lemma_run_extend(m: Map<u64, StoredLogEntry>, start: u64, index: u64)
    requires
        start <= index < u64::MAX,
        m.contains_key(index),
        run_from(m, start, index).len() == index - start,
    ensures
        run_from(m, start, (index + 1) as u64) == run_from(m, start, index).push(index),
    decreases index - start,
{
    if start < index {
        lemma_run_extend(m, (start + 1) as u64, index);
        assert(run_from(m, start, (index + 1) as u64) =~= run_from(m, start, index).push(index));
    } else {
        assert(run_from(m, (index + 1) as u64, (index + 1) as u64) =~= Seq::<u64>::empty());
        assert(run_from(m, start, (index + 1) as u64) =~= seq![index]);
        assert(run_from(m, start, index) =~= Seq::<u64>::empty());
    }
}

/// A log entry read back after it was stored is the entry stored, and
/// passes its integrity check; entries under other indices are as they
/// were. `before` and `after` are the stored entries around a call of
/// `store_log_entry(e)`, as its contract relates them.
pub proof fn law_stored_entry_reads_back(
    before: Map<u64, StoredLogEntry>,
    after: Map<u64, StoredLogEntry>,
    e: LogEntry,
    k: u64,
)
    requires
        after.dom() == before.dom().insert(e.index),
        after[e.index].entry == e,
        after[e.index].checksum == entry_checksum(e@),
        forall|j: u64| j != e.index ==> #[trigger] after.contains_key(j) ==> after[j] == before[j],
    ensures
        after.contains_key(e.index),
        after[e.index].entry@ == e@,
        entry_checksum(after[e.index].entry@) == after[e.index].checksum,
        k != e.index ==> (after.contains_key(k) == before.contains_key(k)),
        k != e.index && after.contains_key(k) ==> after[k] == before[k],
{
    assert(after.dom().contains(e.index));
    if k != e.index {
        assert(after.dom().contains(k) == before.dom().contains(k));
    }
}

} // verus!
