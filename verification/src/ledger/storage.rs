//! Where a ledger is kept: the storage interfaces, with a write-ahead log
//! for atomic commits, an in-memory store and a store that keeps nothing.

use vstd::prelude::*;
use crate::domain::account::Account;
use crate::ledger::event::{EventStatus, EventView, LedgerEvent, WALEntry};
use crate::ledger::ledger::Ledger;
use crate::support::join_text;

verus! {

/// Errors of ledger storage.
#[derive(Debug, Clone, PartialEq)]
pub enum StorageError {
    /// An input or output operation failed.
    Io(String),
    /// Encoding or decoding failed.
    Serialization(String),
    /// The storage cannot be reached.
    NotAvailable,
    /// A transaction failed.
    Transaction(String),
    /// The write-ahead log is corrupted.
    WALCorruption,
    /// An atomic commit failed.
    CommitFailed(String),
}

/// The message of a storage error.
pub open spec fn storage_error_text(e: StorageError) -> Seq<char> {
    match e {
        StorageError::Io(s) => "IO error: "@ + s@,
        StorageError::Serialization(s) => "Serialization error: "@ + s@,
        StorageError::NotAvailable => "Storage not available"@,
        StorageError::Transaction(s) => "Transaction error: "@ + s@,
        StorageError::WALCorruption => "WAL corruption detected"@,
        StorageError::CommitFailed(s) => "Atomic commit failed: "@ + s@,
    }
}

impl StorageError {
    /// The message of the error.
    pub fn to_text(&self) -> (r: String)
        ensures
            r@ == storage_error_text(*self),
    {
        match self {
            StorageError::Io(s) => join_text("IO error: ", s.as_str()),
            StorageError::Serialization(s) => join_text("Serialization error: ", s.as_str()),
            StorageError::NotAvailable => "Storage not available".to_owned(),
            StorageError::Transaction(s) => join_text("Transaction error: ", s.as_str()),
            StorageError::WALCorruption => "WAL corruption detected".to_owned(),
            StorageError::CommitFailed(s) => join_text("Atomic commit failed: ", s.as_str()),
        }
    }
}

/// A place a ledger is saved to and loaded from; implemented by the
/// stores of applications.
pub trait Storage {
    /// Saves the whole ledger.
    fn save_ledger(&mut self, ledger: &Ledger) -> Result<(), StorageError>;

    /// Loads the whole ledger.
    fn load_ledger(&self) -> Result<Ledger, StorageError>;

    /// Whether the storage can be written.
    fn is_available(&self) -> bool;

    /// Removes everything stored.
    fn clear(&mut self) -> Result<(), StorageError>;
}

/// A storage with a write-ahead log.
pub trait WALStorage: Storage {
    /// Appends a record to the log.
    fn append_to_wal(&mut self, entry: WALEntry) -> Result<(), StorageError>;

    /// Commits the staged events of the log and hands them out.
    fn commit_wal(&mut self) -> Result<Vec<LedgerEvent>, StorageError>;

    /// Drops the staged events of the log.
    fn rollback_wal(&mut self) -> Result<(), StorageError>;

    /// The committed events of the log, for recovery at start-up.
    fn recover_from_wal(&mut self) -> Result<Vec<LedgerEvent>, StorageError>;

    /// The number of records appended.
    fn get_wal_sequence(&self) -> u64;

    /// Drops the committed records of the log.
    fn truncate_wal(&mut self) -> Result<(), StorageError>;
}

/// The statuses of the events of a log.
pub open spec fn wal_statuses(wal: Seq<WALEntry>) -> Seq<EventStatus> {
    wal.map_values(|w: WALEntry| w.event.view_event().status)
}

/// The log records whose event has (`keep`) or has not the status `s`.
pub open spec fn wal_where(wal: Seq<WALEntry>, s: EventStatus, keep: bool) -> Seq<WALEntry> {
    wal.filter(|w: WALEntry| (w.event.view_event().status == s) == keep)
}

/// Keeps the records whose event has (`keep`) or has not the status `s`.
fn retain_status(wal: &Vec<WALEntry>, s: EventStatus, keep: bool) -> (r: Vec<WALEntry>)
    ensures
        r@.map_values(|w: WALEntry| w.event) == wal_where(wal@, s, keep).map_values(
            |w: WALEntry| w.event,
        ),
{
    let ghost pred = |w: WALEntry| (w.event.view_event().status == s) == keep;
    let mut out: Vec<WALEntry> = Vec::new();
    let mut i: usize = 0;
    while i < wal.len()
        invariant
            i <= wal.len(),
            pred == (|w: WALEntry| (w.event.view_event().status == s) == keep),
            out@.map_values(|w: WALEntry| w.event) == wal@.take(i as int).filter(pred).map_values(
                |w: WALEntry| w.event,
            ),
        decreases wal.len() - i,
    {
        let w = &wal[i];
        proof {
            assert(wal@.take(i + 1) =~= wal@.take(i as int).push(wal@[i as int]));
            wal@.take(i as int).lemma_filter_push(wal@[i as int], pred);
        }
        let ghost before = out@;
        if (*w.event.status() == s) == keep {
            out.push(WALEntry { sequence: w.sequence, event: w.event.duplicate(), logged_at: w.logged_at });
            proof {
                assert(out@.map_values(|w: WALEntry| w.event) =~= before.map_values(
                    |w: WALEntry| w.event,
                ).push(wal@[i as int].event));
            }
        }
        i = i + 1;
    }
    proof {
        assert(wal@.take(wal.len() as int) =~= wal@);
    }
    out
}

/// The events of the log records whose event has the status `s`.
fn events_with_status(wal: &Vec<WALEntry>, s: EventStatus, commit: bool) -> (r: Vec<LedgerEvent>)
    ensures
        r@.len() == wal_where(wal@, s, true).len(),
        forall|i: int|
            0 <= i < r@.len() ==> #[trigger] r@[i].view_event() == if commit {
                crate::ledger::event::EventView {
                    status: EventStatus::Committed,
                    ..wal_where(wal@, s, true)[i].event.view_event()
                }
            } else {
                wal_where(wal@, s, true)[i].event.view_event()
            },
{
    let kept = retain_status(wal, s, true);
    let ghost ws = wal_where(wal@, s, true);
    proof {
        assert(kept@.map_values(|w: WALEntry| w.event).len() == ws.map_values(|w: WALEntry| w.event).len());
    }
    let mut out: Vec<LedgerEvent> = Vec::new();
    let mut i: usize = 0;
    while i < kept.len()
        invariant
            i <= kept.len(),
            kept@.map_values(|w: WALEntry| w.event) == ws.map_values(|w: WALEntry| w.event),
            kept@.len() == ws.len(),
            out@.len() == i,
            forall|j: int|
                0 <= j < i ==> #[trigger] out@[j].view_event() == if commit {
                    crate::ledger::event::EventView {
                        status: EventStatus::Committed,
                        ..ws[j].event.view_event()
                    }
                } else {
                    ws[j].event.view_event()
                },
        decreases kept.len() - i,
    {
        let e = kept[i].event.duplicate();
        proof {
            assert(kept@.map_values(|w: WALEntry| w.event)[i as int] == kept@[i as int].event);
            assert(ws.map_values(|w: WALEntry| w.event)[i as int] == ws[i as int].event);
        }
        if commit {
            out.push(e.commit());
        } else {
            out.push(e);
        }
        i = i + 1;
    }
    out
}

/// The path of the write-ahead log kept beside the ledger file `file_path`.
pub fn wal_path_of(file_path: &str) -> (r: String)
    ensures
        r@ == file_path@ + ".wal"@,
{
    crate::support::join_text(file_path, ".wal")
}

/// The path a file is first written to before it replaces `path`.
pub fn temp_path_of(path: &str) -> (r: String)
    ensures
        r@ == path@ + ".tmp"@,
{
    crate::support::join_text(path, ".tmp")
}

/// The greatest sequence number among the records of a log, 0 for none.
pub open spec fn max_sequence_of(wal: Seq<WALEntry>) -> u64
    decreases wal.len(),
{
    if wal.len() == 0 {
        0
    } else {
        let m = max_sequence_of(wal.drop_last());
        if wal.last().sequence > m {
            wal.last().sequence
        } else {
            m
        }
    }
}

/// The greatest sequence number among the records of a log, 0 for none.
pub fn max_sequence(wal: &Vec<WALEntry>) -> (r: u64)
    ensures
        r == max_sequence_of(wal@),
{
    let mut m: u64 = 0;
    let mut i: usize = 0;
    while i < wal.len()
        invariant
            i <= wal@.len(),
            m == max_sequence_of(wal@.take(i as int)),
        decreases wal.len() - i,
    {
        proof {
            assert(wal@.take(i + 1).drop_last() =~= wal@.take(i as int));
        }
        if wal[i].sequence > m {
            m = wal[i].sequence;
        }
        i = i + 1;
    }
    assert(wal@.take(wal@.len() as int) =~= wal@);
    m
}

/// Commits in place the staged events of a log kept in a file, and gives
/// them, committed, in order; the other records stay as they were.
pub fn commit_staged_in_place(wal: &mut Vec<WALEntry>) -> (r: Vec<LedgerEvent>)
    ensures
        final(wal)@.len() == old(wal)@.len(),
        forall|i: int|
            #![trigger final(wal)@[i]]
            0 <= i < old(wal)@.len() ==> final(wal)@[i].sequence == old(wal)@[i].sequence
                && final(wal)@[i].logged_at == old(wal)@[i].logged_at && final(wal)@[i].event.view_event()
                == if old(wal)@[i].event.view_event().status == EventStatus::Staged {
                crate::ledger::event::EventView {
                    status: EventStatus::Committed,
                    ..old(wal)@[i].event.view_event()
                }
            } else {
                old(wal)@[i].event.view_event()
            },
        r@.len() == wal_where(old(wal)@, EventStatus::Staged, true).len(),
        forall|i: int|
            0 <= i < r@.len() ==> #[trigger] r@[i].view_event() == (crate::ledger::event::EventView {
                status: EventStatus::Committed,
                ..wal_where(old(wal)@, EventStatus::Staged, true)[i].event.view_event()
            }),
{
    let committed = events_with_status(wal, EventStatus::Staged, true);
    let ghost before = wal@;
    let mut i: usize = 0;
    while i < wal.len()
        invariant
            i <= wal@.len(),
            wal@.len() == before.len(),
            forall|j: int|
                #![trigger wal@[j]]
                0 <= j < i ==> wal@[j].sequence == before[j].sequence && wal@[j].logged_at
                    == before[j].logged_at && wal@[j].event.view_event() == if before[j].event.view_event().status
                    == EventStatus::Staged {
                    crate::ledger::event::EventView {
                        status: EventStatus::Committed,
                        ..before[j].event.view_event()
                    }
                } else {
                    before[j].event.view_event()
                },
            forall|j: int| i <= j < wal@.len() ==> #[trigger] wal@[j] == before[j],
        decreases wal.len() - i,
    {
        if *wal[i].event.status() == EventStatus::Staged {
            let entry = WALEntry {
                sequence: wal[i].sequence,
                event: wal[i].event.duplicate().commit(),
                logged_at: wal[i].logged_at,
            };
            wal.set(i, entry);
        }
        i = i + 1;
    }
    committed
}

/// The records of a log whose event is not staged.
pub fn records_not_staged(wal: &Vec<WALEntry>) -> (r: Vec<WALEntry>)
    ensures
        r@.map_values(|w: WALEntry| w.event) == wal_where(wal@, EventStatus::Staged, false).map_values(
            |w: WALEntry| w.event,
        ),
{
    retain_status(wal, EventStatus::Staged, false)
}

/// The records of a log whose event is staged.
pub fn records_staged(wal: &Vec<WALEntry>) -> (r: Vec<WALEntry>)
    ensures
        r@.map_values(|w: WALEntry| w.event) == wal_where(wal@, EventStatus::Staged, true).map_values(
            |w: WALEntry| w.event,
        ),
{
    retain_status(wal, EventStatus::Staged, true)
}

/// The committed events of a log, in order.
pub fn committed_events(wal: &Vec<WALEntry>) -> (r: Vec<LedgerEvent>)
    ensures
        r@.len() == wal_where(wal@, EventStatus::Committed, true).len(),
        forall|i: int|
            0 <= i < r@.len() ==> #[trigger] r@[i].view_event() == wal_where(
                wal@,
                EventStatus::Committed,
                true,
            )[i].event.view_event(),
{
    events_with_status(wal, EventStatus::Committed, false)
}

/// A ledger store in memory: the last ledger saved, and the write-ahead log.
#[derive(Debug)]
pub struct MemoryStorage {
    data: Option<Ledger>,
    wal: Vec<WALEntry>,
    wal_sequence: u64,
}

impl MemoryStorage {
    /// The write-ahead log.
    pub closed spec fn wal_spec(&self) -> Seq<WALEntry> {
        self.wal@
    }

    /// The number of records appended.
    pub closed spec fn wal_sequence_spec(&self) -> u64 {
        self.wal_sequence
    }

    /// The last ledger saved, if any.
    pub closed spec fn saved_spec(&self) -> Option<Ledger> {
        self.data
    }

    /// An empty store.
    pub fn new() -> (s: MemoryStorage)
        ensures
            s.wal_spec() == Seq::<WALEntry>::empty(),
            s.wal_sequence_spec() == 0,
            s.saved_spec() is None,
    {
        MemoryStorage { data: None, wal: Vec::new(), wal_sequence: 0 }
    }
}

impl Storage for MemoryStorage {
    fn save_ledger(&mut self, ledger: &Ledger) -> (r: Result<(), StorageError>)
        ensures
            r is Ok,
            final(self).saved_spec() is Some,
            final(self).saved_spec()->0.accounts_spec() == ledger.accounts_spec(),
            final(self).saved_spec()->0.events_spec() == ledger.events_spec(),
            final(self).saved_spec()->0.next_sequence_spec() == ledger.next_sequence_spec(),
            final(self).wal_spec() == old(self).wal_spec(),
            final(self).wal_sequence_spec() == old(self).wal_sequence_spec(),
    {
        self.data = Some(ledger.duplicate());
        Ok(())
    }

    fn load_ledger(&self) -> (r: Result<Ledger, StorageError>)
        ensures
            r is Ok,
            match self.saved_spec() {
                Some(l) => r->Ok_0.accounts_spec() == l.accounts_spec() && r->Ok_0.events_spec()
                    == l.events_spec() && r->Ok_0.next_sequence_spec() == l.next_sequence_spec(),
                None => r->Ok_0.accounts_spec() == Seq::<Account>::empty() && r->Ok_0.events_spec()
                    == Seq::<EventView>::empty() && r->Ok_0.next_sequence_spec() == 0,
            },
    {
        match &self.data {
            Some(l) => Ok(l.duplicate()),
            None => Ok(Ledger::default()),
        }
    }

    fn is_available(&self) -> (r: bool)
        ensures
            r,
    {
        true
    }

    fn clear(&mut self) -> (r: Result<(), StorageError>)
        ensures
            r is Ok,
            final(self).wal_spec() == Seq::<WALEntry>::empty(),
            final(self).wal_sequence_spec() == 0,
            final(self).saved_spec() is None,
    {
        self.data = None;
        self.wal = Vec::new();
        self.wal_sequence = 0;
        Ok(())
    }
}

impl WALStorage for MemoryStorage {
    fn append_to_wal(&mut self, entry: WALEntry) -> (r: Result<(), StorageError>)
        ensures
            r is Ok,
            final(self).wal_spec() == old(self).wal_spec().push(entry),
            final(self).wal_sequence_spec() == (old(self).wal_sequence_spec() + 1) % 0x1_0000_0000_0000_0000,
    {
        self.wal.push(entry);
        self.wal_sequence = self.wal_sequence.wrapping_add(1);
        Ok(())
    }

    fn commit_wal(&mut self) -> (r: Result<Vec<LedgerEvent>, StorageError>)
        ensures
            r is Ok,
            r->Ok_0@.len() == wal_where(old(self).wal_spec(), EventStatus::Staged, true).len(),
            forall|i: int|
                0 <= i < r->Ok_0@.len() ==> #[trigger] r->Ok_0@[i].view_event() == (
                crate::ledger::event::EventView {
                    status: EventStatus::Committed,
                    ..wal_where(old(self).wal_spec(), EventStatus::Staged, true)[i].event.view_event()
                }),
            final(self).wal_spec().map_values(|w: WALEntry| w.event) == wal_where(
                old(self).wal_spec(),
                EventStatus::Staged,
                false,
            ).map_values(|w: WALEntry| w.event),
            final(self).wal_sequence_spec() == old(self).wal_sequence_spec(),
    {
        let committed = events_with_status(&self.wal, EventStatus::Staged, true);
        self.wal = retain_status(&self.wal, EventStatus::Staged, false);
        Ok(committed)
    }

    fn rollback_wal(&mut self) -> (r: Result<(), StorageError>)
        ensures
            r is Ok,
            final(self).wal_spec().map_values(|w: WALEntry| w.event) == wal_where(
                old(self).wal_spec(),
                EventStatus::Staged,
                false,
            ).map_values(|w: WALEntry| w.event),
            final(self).wal_sequence_spec() == old(self).wal_sequence_spec(),
    {
        self.wal = retain_status(&self.wal, EventStatus::Staged, false);
        Ok(())
    }

    fn recover_from_wal(&mut self) -> (r: Result<Vec<LedgerEvent>, StorageError>)
        ensures
            r is Ok,
            r->Ok_0@.len() == wal_where(old(self).wal_spec(), EventStatus::Committed, true).len(),
            forall|i: int|
                0 <= i < r->Ok_0@.len() ==> #[trigger] r->Ok_0@[i].view_event() == wal_where(
                    old(self).wal_spec(),
                    EventStatus::Committed,
                    true,
                )[i].event.view_event(),
            final(self).wal_spec() == old(self).wal_spec(),
    {
        let events = events_with_status(&self.wal, EventStatus::Committed, false);
        Ok(events)
    }

    fn get_wal_sequence(&self) -> (r: u64)
        ensures
            r == self.wal_sequence_spec(),
    {
        self.wal_sequence
    }

    fn truncate_wal(&mut self) -> (r: Result<(), StorageError>)
        ensures
            r is Ok,
            final(self).wal_spec().map_values(|w: WALEntry| w.event) == wal_where(
                old(self).wal_spec(),
                EventStatus::Staged,
                true,
            ).map_values(|w: WALEntry| w.event),
            final(self).wal_sequence_spec() == old(self).wal_sequence_spec(),
    {
        self.wal = retain_status(&self.wal, EventStatus::Staged, true);
        Ok(())
    }
}

/// A store that keeps nothing and only counts the records appended.
#[derive(Debug)]
pub struct NoOpStorage {
    wal_sequence: u64,
}

impl NoOpStorage {
    /// The number of records appended.
    pub closed spec fn wal_sequence_spec(&self) -> u64 {
        self.wal_sequence
    }

    /// A store that has counted nothing.
    pub fn new() -> (s: NoOpStorage)
        ensures
            s.wal_sequence_spec() == 0,
    {
        NoOpStorage { wal_sequence: 0 }
    }
}

impl Storage for NoOpStorage {
    fn save_ledger(&mut self, ledger: &Ledger) -> (r: Result<(), StorageError>)
        ensures
            r is Ok,
            *final(self) == *old(self),
    {
        Ok(())
    }

    fn load_ledger(&self) -> (r: Result<Ledger, StorageError>)
        ensures
            r is Ok,
    {
        Ok(Ledger::default())
    }

    fn is_available(&self) -> (r: bool)
        ensures
            r,
    {
        true
    }

    fn clear(&mut self) -> (r: Result<(), StorageError>)
        ensures
            r is Ok,
            final(self).wal_sequence_spec() == 0,
    {
        self.wal_sequence = 0;
        Ok(())
    }
}

impl WALStorage for NoOpStorage {
    fn append_to_wal(&mut self, entry: WALEntry) -> (r: Result<(), StorageError>)
        ensures
            r is Ok,
            final(self).wal_sequence_spec() == (old(self).wal_sequence_spec() + 1) % 0x1_0000_0000_0000_0000,
    {
        self.wal_sequence = self.wal_sequence.wrapping_add(1);
        Ok(())
    }

    fn commit_wal(&mut self) -> (r: Result<Vec<LedgerEvent>, StorageError>)
        ensures
            r is Ok,
            r->Ok_0@.len() == 0,
            *final(self) == *old(self),
    {
        Ok(Vec::new())
    }

    fn rollback_wal(&mut self) -> (r: Result<(), StorageError>)
        ensures
            r is Ok,
            *final(self) == *old(self),
    {
        Ok(())
    }

    fn recover_from_wal(&mut self) -> (r: Result<Vec<LedgerEvent>, StorageError>)
        ensures
            r is Ok,
            r->Ok_0@.len() == 0,
            *final(self) == *old(self),
    {
        Ok(Vec::new())
    }

    fn get_wal_sequence(&self) -> (r: u64)
        ensures
            r == self.wal_sequence_spec(),
    {
        self.wal_sequence
    }

    fn truncate_wal(&mut self) -> (r: Result<(), StorageError>)
        ensures
            r is Ok,
            *final(self) == *old(self),
    {
        Ok(())
    }
}

} // verus!
