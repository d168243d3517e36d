//! The replicated log: entries, their indices and terms, and the commit and
//! apply positions.

use vstd::prelude::*;
use crate::raft::error::{RaftError, RaftResult};

verus! {

/// Index of an entry in the log (the first possible index is 1).
pub type LogIndex = u64;

/// A Raft term.
pub type Term = u64;

/// Kind of a log entry.
#[derive(Debug, Clone, Copy, PartialEq, Eq, Structural)]
pub enum LogEntryType {
    /// Regular application command.
    Command,
    /// Configuration change.
    Configuration,
    /// No-op, used to establish leadership.
    NoOp,
    /// Snapshot marker.
    Snapshot,
}

/// One entry of the replicated log. The timestamp is in milliseconds since
/// the Unix epoch.
#[derive(Debug, Clone, PartialEq)]
pub struct LogEntry {
    pub term: Term,
    pub index: LogIndex,
    pub data: Vec<u8>,
    pub timestamp: i64,
    pub entry_type: LogEntryType,
}

/// The mathematical content of a log entry.
pub struct LogEntryView {
    pub term: Term,
    pub index: LogIndex,
    pub data: Seq<u8>,
    pub timestamp: i64,
    pub entry_type: LogEntryType,
}

impl View for LogEntry {
    type V = LogEntryView;

    open spec fn view(&self) -> LogEntryView {
        LogEntryView {
            term: self.term,
            index: self.index,
            data: self.data@,
            timestamp: self.timestamp,
            entry_type: self.entry_type,
        }
    }
}

/// The views of a sequence of entries.
pub open spec fn entry_views(s: Seq<LogEntry>) -> Seq<LogEntryView> {
    s.map_values(|e: LogEntry| e@)
}

/// A copy of a byte vector.
pub fn copy_bytes(v: &Vec<u8>) -> (r: Vec<u8>)
    ensures
        r@ == v@,
{
    let mut out: Vec<u8> = Vec::new();
    let mut i: usize = 0;
    while i < v.len()
        invariant
            i <= v.len(),
            out@ == v@.take(i as int),
        decreases v.len() - i,
    {
        out.push(v[i]);
        proof {
            assert(v@.take(i + 1) =~= v@.take(i as int).push(v@[i as int]));
        }
        i = i + 1;
    }
    proof {
        assert(v@.take(v.len() as int) =~= v@);
    }
    out
}

impl LogEntry {
    fn make(term: Term, index: LogIndex, data: Vec<u8>, entry_type: LogEntryType) -> (e: LogEntry)
        ensures
            e.term == term,
            e.index == index,
            e.data@ == data@,
            e.entry_type == entry_type,
    {
        LogEntry { term, index, data, timestamp: crate::support::now_millis(), entry_type }
    }

    /// A command entry, stamped with the current time.
    pub fn new_command(term: Term, index: LogIndex, data: Vec<u8>) -> (e: LogEntry)
        ensures
            e.term == term,
            e.index == index,
            e.data@ == data@,
            e.entry_type == LogEntryType::Command,
    {
        LogEntry::make(term, index, data, LogEntryType::Command)
    }

    /// A configuration-change entry, stamped with the current time.
    pub fn new_configuration(term: Term, index: LogIndex, data: Vec<u8>) -> (e: LogEntry)
        ensures
            e.term == term,
            e.index == index,
            e.data@ == data@,
            e.entry_type == LogEntryType::Configuration,
    {
        LogEntry::make(term, index, data, LogEntryType::Configuration)
    }

    /// A no-op entry with no data, stamped with the current time.
    pub fn new_noop(term: Term, index: LogIndex) -> (e: LogEntry)
        ensures
            e.term == term,
            e.index == index,
            e.data@ == Seq::<u8>::empty(),
            e.entry_type == LogEntryType::NoOp,
    {
        LogEntry::make(term, index, Vec::new(), LogEntryType::NoOp)
    }

    /// A snapshot marker entry, stamped with the current time.
    pub fn new_snapshot(term: Term, index: LogIndex, data: Vec<u8>) -> (e: LogEntry)
        ensures
            e.term == term,
            e.index == index,
            e.data@ == data@,
            e.entry_type == LogEntryType::Snapshot,
    {
        LogEntry::make(term, index, data, LogEntryType::Snapshot)
    }

    /// A copy of this entry.
    pub fn duplicate(&self) -> (e: LogEntry)
        ensures
            e@ == self@,
    {
        LogEntry {
            term: self.term,
            index: self.index,
            data: copy_bytes(&self.data),
            timestamp: self.timestamp,
            entry_type: self.entry_type,
        }
    }

    /// Whether this entry is a command.
    pub fn is_command(&self) -> (r: bool)
        ensures
            r == (self.entry_type == LogEntryType::Command),
    {
        matches!(self.entry_type, LogEntryType::Command)
    }

    /// Whether this entry is a configuration change.
    pub fn is_configuration(&self) -> (r: bool)
        ensures
            r == (self.entry_type == LogEntryType::Configuration),
    {
        matches!(self.entry_type, LogEntryType::Configuration)
    }

    /// Whether this entry is a no-op.
    pub fn is_noop(&self) -> (r: bool)
        ensures
            r == (self.entry_type == LogEntryType::NoOp),
    {
        matches!(self.entry_type, LogEntryType::NoOp)
    }

    /// Whether this entry is a snapshot marker.
    pub fn is_snapshot(&self) -> (r: bool)
        ensures
            r == (self.entry_type == LogEntryType::Snapshot),
    {
        matches!(self.entry_type, LogEntryType::Snapshot)
    }
}

/// The mathematical content of a log: its entries, the index of the first
/// one, and the commit and apply positions.
pub struct LogView {
    pub entries: Seq<LogEntryView>,
    pub first_index: u64,
    pub commit_index: u64,
    pub last_applied: u64,
}

/// Index of the last entry (`first_index - 1` when there is none).
pub open spec fn last_index(v: LogView) -> int {
    v.first_index + v.entries.len() - 1
}

/// Term of the last entry, 0 when there is none.
pub open spec fn last_term(v: LogView) -> u64 {
    if v.entries.len() == 0 {
        0
    } else {
        v.entries.last().term
    }
}

/// Whether the log holds an entry at `index`.
pub open spec fn holds_index(v: LogView, index: int) -> bool {
    v.first_index <= index <= last_index(v)
}

/// The entry at `index` (meaningful when the log holds it).
pub open spec fn entry_at(v: LogView, index: int) -> LogEntryView {
    v.entries[index - v.first_index]
}

/// The term at `index` as the log knows it: 0 for index 0, the entry's
/// term when the log holds the index, and nothing otherwise.
pub open spec fn term_at(v: LogView, index: int) -> Option<u64> {
    if index == 0 {
        Some(0)
    } else if holds_index(v, index) {
        Some(entry_at(v, index).term)
    } else {
        None
    }
}

/// Whether the log has an entry of `term` at `index` (index 0 matches term 0).
pub open spec fn spec_matches(v: LogView, index: int, term: u64) -> bool {
    term_at(v, index) == Some(term)
}

/// The invariant of a log: positions and indices agree, and the commit and
/// apply positions lie within the log.
pub open spec fn log_wf(v: LogView) -> bool {
    &&& v.first_index >= 1
    &&& v.first_index + v.entries.len() <= u64::MAX
    &&& forall|i: int| 0 <= i < v.entries.len() ==> #[trigger] v.entries[i].index == v.first_index + i
    &&& v.commit_index <= last_index(v)
    &&& v.last_applied <= v.commit_index
}

/// The entries of the log between two offsets, as copied out.
pub open spec fn slice_of(v: LogView, from: int, to: int) -> Seq<LogEntryView> {
    v.entries.subrange(from, to)
}

/// The in-memory replicated log.
#[derive(Debug, Clone)]
pub struct Log {
    entries: Vec<LogEntry>,
    first_index: LogIndex,
    commit_index: LogIndex,
    last_applied: LogIndex,
}

impl View for Log {
    type V = LogView;

    closed spec fn view(&self) -> LogView {
        LogView {
            entries: entry_views(self.entries@),
            first_index: self.first_index,
            commit_index: self.commit_index,
            last_applied: self.last_applied,
        }
    }
}

/// Statistics about a log.
#[derive(Debug, Clone)]
pub struct LogStats {
    pub total_entries: usize,
    pub first_index: LogIndex,
    pub last_index: LogIndex,
    pub commit_index: LogIndex,
    pub last_applied: LogIndex,
    pub last_term: Term,
}

impl Log {
    /// The wrapped entries as copied out between two offsets.
    fn copy_range(&self, from: usize, to: usize) -> (r: Vec<LogEntry>)
        requires
            from <= to <= self.entries.len(),
        ensures
            entry_views(r@) == entry_views(self.entries@).subrange(from as int, to as int),
    {
        let mut out: Vec<LogEntry> = Vec::new();
        let mut i = from;
        while i < to
            invariant
                from <= i <= to <= self.entries.len(),
                entry_views(out@) == entry_views(self.entries@).subrange(from as int, i as int),
            decreases to - i,
        {
            let e = self.entries[i].duplicate();
            let ghost prev = out@;
            out.push(e);
            proof {
                assert(entry_views(out@) =~= entry_views(prev).push(e@));
                assert(entry_views(self.entries@)[i as int] == self.entries@[i as int]@);
                assert(entry_views(out@) =~= entry_views(self.entries@).subrange(
                    from as int,
                    i + 1,
                ));
            }
            i = i + 1;
        }
        out
    }

    /// An empty log whose first index is 1.
    pub fn new() -> (log: Log)
        ensures
            log@ == empty_log(),
            log_wf(log@),
    {
        let log = Log { entries: Vec::new(), first_index: 1, commit_index: 0, last_applied: 0 };
        proof {
            assert(log@.entries =~= Seq::<LogEntryView>::empty());
        }
        log
    }

    /// The same as `new`.
    pub fn default() -> (log: Log)
        ensures
            log@.entries.len() == 0,
            log@.first_index == 1,
            log@.commit_index == 0,
            log@.last_applied == 0,
            log_wf(log@),
    {
        Log::new()
    }

    /// Index of the last entry.
    pub fn last_log_index(&self) -> (r: LogIndex)
        requires
            log_wf(self@),
        ensures
            r == last_index(self@),
    {
        if self.entries.len() == 0 {
            self.first_index - 1
        } else {
            self.first_index + (self.entries.len() as u64) - 1
        }
    }

    /// Term of the last entry, 0 when the log is empty.
    pub fn last_log_term(&self) -> (r: Term)
        ensures
            r == last_term(self@),
    {
        if self.entries.len() == 0 {
            0
        } else {
            self.entries[self.entries.len() - 1].term
        }
    }

    /// Index of the first entry.
    pub fn first_log_index(&self) -> (r: LogIndex)
        ensures
            r == self@.first_index,
    {
        self.first_index
    }

    /// The commit position.
    pub fn commit_index(&self) -> (r: LogIndex)
        ensures
            r == self@.commit_index,
    {
        self.commit_index
    }

    /// The apply position.
    pub fn last_applied(&self) -> (r: LogIndex)
        ensures
            r == self@.last_applied,
    {
        self.last_applied
    }

    /// Moves the commit position to `index`: refused when the log does not
    /// reach `index` or when the position would move back.
    pub fn set_commit_index(&mut self, index: LogIndex) -> (r: RaftResult<()>)
        requires
            log_wf(old(self)@),
        ensures
            log_wf(final(self)@),
            index > last_index(old(self)@) ==> r == Err::<(), RaftError>(
                RaftError::LogEntryNotFound { index },
            ) && final(self)@ == old(self)@,
            index <= last_index(old(self)@) && index < old(self)@.commit_index ==> r is Err
                && r->Err_0 is Internal && r->Err_0->Internal_message@ == "Cannot decrease commit index"@
                && final(self)@ == old(self)@,
            index <= last_index(old(self)@) && index >= old(self)@.commit_index ==> r is Ok
                && final(self)@ == (LogView { commit_index: index, ..old(self)@ }),
    {
        if index > self.last_log_index() {
            return Err(RaftError::LogEntryNotFound { index });
        }
        if index < self.commit_index {
            return Err(RaftError::internal("Cannot decrease commit index"));
        }
        self.commit_index = index;
        Ok(())
    }

    /// Moves the apply position to `index`: refused beyond the commit position.
    pub fn set_last_applied(&mut self, index: LogIndex) -> (r: RaftResult<()>)
        requires
            log_wf(old(self)@),
        ensures
            log_wf(final(self)@),
            index > old(self)@.commit_index ==> r is Err && r->Err_0 is Internal
                && r->Err_0->Internal_message@ == "Cannot apply entries beyond commit index"@
                && final(self)@ == old(self)@,
            index <= old(self)@.commit_index ==> r is Ok && final(self)@ == (LogView {
                last_applied: index,
                ..old(self)@
            }),
    {
        if index > self.commit_index {
            return Err(RaftError::internal("Cannot apply entries beyond commit index"));
        }
        self.last_applied = index;
        Ok(())
    }

    /// The entry at `index`, or `LogEntryNotFound` when the log does not hold it.
    pub fn get_entry(&self, index: LogIndex) -> (r: RaftResult<&LogEntry>)
        requires
            log_wf(self@),
        ensures
            match r {
                Ok(e) => holds_index(self@, index as int) && e@ == entry_at(self@, index as int),
                Err(err) => !holds_index(self@, index as int) && err == RaftError::LogEntryNotFound {
                    index,
                },
            },
    {
        if index < self.first_index {
            return Err(RaftError::LogEntryNotFound { index });
        }
        let offset = index - self.first_index;
        if offset >= self.entries.len() as u64 {
            return Err(RaftError::LogEntryNotFound { index });
        }
        let e = &self.entries[offset as usize];
        Ok(e)
    }

    /// The term at `index`: 0 for index 0, else the term of the entry there.
    pub fn get_term(&self, index: LogIndex) -> (r: RaftResult<Term>)
        requires
            log_wf(self@),
        ensures
            match r {
                Ok(t) => term_at(self@, index as int) == Some(t),
                Err(err) => term_at(self@, index as int) is None && err
                    == RaftError::LogEntryNotFound { index },
            },
    {
        if index == 0 {
            return Ok(0);
        }
        match self.get_entry(index) {
            Ok(e) => Ok(e.term),
            Err(err) => Err(err),
        }
    }

    /// Appends `entry`, which must carry the index after the last one.
    pub fn append_entry(&mut self, entry: LogEntry) -> (r: RaftResult<()>)
        requires
            log_wf(old(self)@),
            old(self)@.first_index + old(self)@.entries.len() < u64::MAX,
        ensures
            log_wf(final(self)@),
            entry.index == last_index(old(self)@) + 1 ==> r is Ok && final(self)@ == (LogView {
                entries: old(self)@.entries.push(entry@),
                ..old(self)@
            }),
            entry.index != last_index(old(self)@) + 1 ==> r is Err && r->Err_0 is Internal
                && final(self)@ == old(self)@,
    {
        let expected_index = self.last_log_index() + 1;
        if entry.index != expected_index {
            return Err(
                RaftError::internal("Entry index does not match the next index of the log"),
            );
        }
        self.entries.push(entry);
        proof {
            assert(self@.entries =~= old(self)@.entries.push(entry@));
        }
        Ok(())
    }

    /// Appends `entries` one by one, stopping at the first whose index does
    /// not follow; the entries before it stay appended.
    pub fn append_entries(&mut self, entries: Vec<LogEntry>) -> (r: RaftResult<()>)
        requires
            log_wf(old(self)@),
            old(self)@.first_index + old(self)@.entries.len() + entries.len() < u64::MAX,
        ensures
            log_wf(final(self)@),
            final(self)@.first_index == old(self)@.first_index,
            final(self)@.commit_index == old(self)@.commit_index,
            final(self)@.last_applied == old(self)@.last_applied,
            ({
                let k = consecutive_prefix(entry_views(entries@), last_index(old(self)@) + 1);
                &&& final(self)@.entries == old(self)@.entries + entry_views(entries@).take(k)
                &&& (r is Ok <==> k == entries.len())
                &&& (r is Err ==> r->Err_0 is Internal)
            }),
    {
        let r = self.append_slice_from(&entries, 0);
        proof {
            assert(entry_views(entries@).skip(0) =~= entry_views(entries@));
        }
        r
    }

    /// Appends copies of `entries[from..]` one by one, stopping at the first
    /// whose index does not follow.
    pub fn append_slice_from(&mut self, entries: &Vec<LogEntry>, from: usize) -> (r: RaftResult<()>)
        requires
            log_wf(old(self)@),
            from <= entries.len(),
            old(self)@.first_index + old(self)@.entries.len() + (entries.len() - from) < u64::MAX,
        ensures
            log_wf(final(self)@),
            final(self)@.first_index == old(self)@.first_index,
            final(self)@.commit_index == old(self)@.commit_index,
            final(self)@.last_applied == old(self)@.last_applied,
            ({
                let rest = entry_views(entries@).skip(from as int);
                let k = consecutive_prefix(rest, last_index(old(self)@) + 1);
                &&& final(self)@.entries == old(self)@.entries + rest.take(k)
                &&& (r is Ok <==> k == rest.len())
                &&& (r is Err ==> r->Err_0 is Internal)
            }),
    {
        let ghost views = entry_views(entries@).skip(from as int);
        let ghost start = last_index(old(self)@) + 1;
        let n = entries.len();
        let mut i: usize = from;
        proof {
            lemma_consecutive_prefix_bounds(views, start);
        }
        while i < n
            invariant
                log_wf(self@),
                from <= i <= n,
                n == entries.len(),
                views == entry_views(entries@).skip(from as int),
                self@.first_index == old(self)@.first_index,
                self@.commit_index == old(self)@.commit_index,
                self@.last_applied == old(self)@.last_applied,
                i - from <= consecutive_prefix(views, start),
                self@.entries == old(self)@.entries + views.take(i - from),
                old(self)@.first_index + old(self)@.entries.len() + (n - from) < u64::MAX,
                start == last_index(old(self)@) + 1,
                log_wf(old(self)@),
            decreases n - i,
        {
            let e = entries[i].duplicate();
            proof {
                lemma_consecutive_prefix_step(views, start, i - from);
                assert(views[i - from] == entries@[i as int]@);
            }
            match self.append_entry(e) {
                Ok(()) => {
                    proof {
                        assert(views.take(i - from + 1) =~= views.take(i - from).push(
                            views[i - from],
                        ));
                    }
                },
                Err(err) => {
                    return Err(err);
                },
            }
            i = i + 1;
        }
        proof {
            assert(views.take(n - from) =~= views);
        }
        Ok(())
    }

    /// Removes the entries from `index` on; commit and apply positions that
    /// lay at or after `index` move back to `index - 1`.
    pub fn truncate_from(&mut self, index: LogIndex) -> (r: RaftResult<()>)
        requires
            log_wf(old(self)@),
        ensures
            log_wf(final(self)@),
            index < old(self)@.first_index ==> r == Err::<(), RaftError>(
                RaftError::LogEntryNotFound { index },
            ) && final(self)@ == old(self)@,
            index >= old(self)@.first_index ==> r is Ok && final(self)@ == truncated(
                old(self)@,
                index as int,
            ),
    {
        if index < self.first_index {
            return Err(RaftError::LogEntryNotFound { index });
        }
        let offset = index - self.first_index;
        if offset < self.entries.len() as u64 {
            self.entries.truncate(offset as usize);
        }
        if self.commit_index >= index {
            self.commit_index = if index > 0 {
                index - 1
            } else {
                0
            };
        }
        if self.last_applied >= index {
            self.last_applied = if index > 0 {
                index - 1
            } else {
                0
            };
        }
        proof {
            let keep = if offset < old(self)@.entries.len() {
                offset as int
            } else {
                old(self)@.entries.len() as int
            };
            assert(self@.entries =~= old(self)@.entries.take(keep));
        }
        Ok(())
    }

    /// Copies of the entries from `start_index` to `end_index`, both included
    /// and cut at the end of the log; empty when the range is empty or lies
    /// past the end.
    pub fn get_entries(&self, start_index: LogIndex, end_index: LogIndex) -> (r: RaftResult<
        Vec<LogEntry>,
    >)
        requires
            log_wf(self@),
        ensures
            start_index > end_index ==> r is Ok && r->Ok_0@.len() == 0,
            start_index <= end_index && start_index < self@.first_index ==> r == Err::<
                Vec<LogEntry>,
                RaftError,
            >(RaftError::LogEntryNotFound { index: start_index }),
            start_index <= end_index && start_index >= self@.first_index ==> r is Ok && entry_views(
                r->Ok_0@,
            ) == range_of(self@, start_index as int, end_index as int),
    {
        if start_index > end_index {
            return Ok(Vec::new());
        }
        if start_index < self.first_index {
            return Err(RaftError::LogEntryNotFound { index: start_index });
        }
        let start_offset = start_index - self.first_index;
        let end_offset = end_index - self.first_index;
        let len = self.entries.len() as u64;
        if start_offset >= len {
            let out: Vec<LogEntry> = Vec::new();
            proof {
                assert(entry_views(out@) =~= Seq::<LogEntryView>::empty());
            }
            return Ok(out);
        }
        let actual_end = if end_offset + 1 < len {
            end_offset + 1
        } else {
            len
        };
        Ok(self.copy_range(start_offset as usize, actual_end as usize))
    }

    /// Copies of at most `max_entries` entries from `start_index` on.
    pub fn get_entries_from(&self, start_index: LogIndex, max_entries: usize) -> (r: RaftResult<
        Vec<LogEntry>,
    >)
        requires
            log_wf(self@),
        ensures
            start_index < self@.first_index ==> r == Err::<Vec<LogEntry>, RaftError>(
                RaftError::LogEntryNotFound { index: start_index },
            ),
            start_index >= self@.first_index ==> r is Ok && entry_views(r->Ok_0@) == range_from(
                self@,
                start_index as int,
                max_entries as int,
            ),
    {
        if start_index < self.first_index {
            return Err(RaftError::LogEntryNotFound { index: start_index });
        }
        let start_offset = start_index - self.first_index;
        let len = self.entries.len() as u64;
        if start_offset >= len {
            let out: Vec<LogEntry> = Vec::new();
            proof {
                assert(entry_views(out@) =~= Seq::<LogEntryView>::empty());
            }
            return Ok(out);
        }
        let room = len - start_offset;
        let end_offset = if (max_entries as u64) < room {
            start_offset + max_entries as u64
        } else {
            len
        };
        Ok(self.copy_range(start_offset as usize, end_offset as usize))
    }

    /// Whether the log has no entries.
    pub fn is_empty(&self) -> (r: bool)
        ensures
            r == (self@.entries.len() == 0),
    {
        self.entries.len() == 0
    }

    /// Number of entries in the log.
    pub fn len(&self) -> (r: usize)
        ensures
            r == self@.entries.len(),
    {
        self.entries.len()
    }

    /// Copies of the entries after the commit position.
    pub fn uncommitted_entries(&self) -> (r: RaftResult<Vec<LogEntry>>)
        requires
            log_wf(self@),
        ensures
            r is Ok,
            entry_views(r->Ok_0@) == self@.entries.subrange(
                self@.commit_index + 1 - self@.first_index,
                self@.entries.len() as int,
            ) || (self@.commit_index + 1 < self@.first_index && entry_views(r->Ok_0@)
                == self@.entries),
    {
        if self.commit_index >= self.last_log_index() {
            let out: Vec<LogEntry> = Vec::new();
            proof {
                assert(entry_views(out@) =~= Seq::<LogEntryView>::empty());
                assert(self@.entries.subrange(
                    self@.commit_index + 1 - self@.first_index,
                    self@.entries.len() as int,
                ) =~= Seq::<LogEntryView>::empty());
            }
            return Ok(out);
        }
        let start = self.commit_index + 1;
        if start < self.first_index {
            let out = self.copy_range(0, self.entries.len());
            proof {
                assert(entry_views(self.entries@).subrange(0, self.entries.len() as int)
                    =~= self@.entries);
            }
            return Ok(out);
        }
        self.get_entries(start, self.last_log_index())
    }

    /// Copies of the committed entries that are not applied yet.
    pub fn unapplied_entries(&self) -> (r: RaftResult<Vec<LogEntry>>)
        requires
            log_wf(self@),
        ensures
            self@.last_applied >= self@.commit_index ==> r is Ok && r->Ok_0@.len() == 0,
            self@.last_applied < self@.commit_index && self@.last_applied + 1 < self@.first_index
                ==> r == Err::<Vec<LogEntry>, RaftError>(
                RaftError::LogEntryNotFound { index: (self@.last_applied + 1) as u64 },
            ),
            self@.last_applied < self@.commit_index && self@.last_applied + 1 >= self@.first_index
                ==> r is Ok && entry_views(r->Ok_0@) == range_of(
                self@,
                self@.last_applied + 1,
                self@.commit_index as int,
            ),
    {
        if self.last_applied >= self.commit_index {
            return Ok(Vec::new());
        }
        self.get_entries(self.last_applied + 1, self.commit_index)
    }

    /// Drops the entries up to `index` included; nothing happens when
    /// `index` lies before the first entry.
    pub fn compact(&mut self, index: LogIndex) -> (r: RaftResult<()>)
        requires
            log_wf(old(self)@),
        ensures
            log_wf(final(self)@),
            index < old(self)@.first_index ==> r is Ok && final(self)@ == old(self)@,
            index >= old(self)@.first_index && index > last_index(old(self)@) ==> r == Err::<
                (),
                RaftError,
            >(RaftError::LogEntryNotFound { index }) && final(self)@ == old(self)@,
            index >= old(self)@.first_index && index <= last_index(old(self)@) ==> r is Ok
                && final(self)@ == (LogView {
                entries: old(self)@.entries.skip(index - old(self)@.first_index + 1),
                first_index: (index + 1) as u64,
                ..old(self)@
            }),
    {
        if index < self.first_index {
            return Ok(());
        }
        if index > self.last_log_index() {
            return Err(RaftError::LogEntryNotFound { index });
        }
        let remove_count = (index - self.first_index + 1) as usize;
        let kept = self.copy_range(remove_count, self.entries.len());
        self.entries = kept;
        self.first_index = index + 1;
        proof {
            assert(self@.entries =~= old(self)@.entries.skip(index - old(self)@.first_index + 1));
            assert forall|i: int| 0 <= i < self@.entries.len() implies #[trigger] self@.entries[i].index
                == self@.first_index + i by {
                assert(self@.entries[i] == old(self)@.entries[i + remove_count]);
            }
        }
        Ok(())
    }

    /// Whether the log has an entry of `term` at `index`; index 0 matches term 0 only.
    pub fn matches(&self, index: LogIndex, term: Term) -> (r: bool)
        requires
            log_wf(self@),
        ensures
            r == spec_matches(self@, index as int, term),
    {
        if index == 0 {
            return term == 0;
        }
        match self.get_term(index) {
            Ok(t) => t == term,
            Err(_) => false,
        }
    }

    /// Index of the last entry of `term`, if any.
    pub fn find_last_entry_with_term(&self, term: Term) -> (r: Option<LogIndex>)
        requires
            log_wf(self@),
        ensures
            match r {
                Some(idx) => holds_index(self@, idx as int) && entry_at(self@, idx as int).term == term
                    && forall|j: int| idx < j <= last_index(self@) ==> #[trigger] entry_at(self@, j).term
                    != term,
                None => forall|i: int| 0 <= i < self@.entries.len() ==> #[trigger] self@.entries[i].term
                    != term,
            },
    {
        let mut k = self.entries.len();
        while k > 0
            invariant
                k <= self.entries.len(),
                log_wf(self@),
                forall|i: int| k <= i < self.entries.len() ==> #[trigger] self@.entries[i].term != term,
            decreases k,
        {
            if self.entries[k - 1].term == term {
                proof {
                    assert forall|j: int| (self.first_index + k - 1) < j <= last_index(self@) implies #[trigger] entry_at(self@, j).term
                        != term by {
                        assert(self@.entries[j - self@.first_index].term != term);
                    }
                }
                return Some(self.first_index + (k as u64) - 1);
            }
            k = k - 1;
        }
        None
    }

    /// Statistics about the log.
    pub fn stats(&self) -> (s: LogStats)
        requires
            log_wf(self@),
        ensures
            s.total_entries == self@.entries.len(),
            s.first_index == self@.first_index,
            s.last_index == last_index(self@),
            s.commit_index == self@.commit_index,
            s.last_applied == self@.last_applied,
            s.last_term == last_term(self@),
    {
        LogStats {
            total_entries: self.len(),
            first_index: self.first_index,
            last_index: self.last_log_index(),
            commit_index: self.commit_index,
            last_applied: self.last_applied,
            last_term: self.last_log_term(),
        }
    }
}

/// The log with no entry, whose first entry will have index 1.
pub open spec fn empty_log() -> LogView {
    LogView { entries: Seq::empty(), first_index: 1, commit_index: 0, last_applied: 0 }
}

/// The log after removing the entries from `index` on (with `index` at or
/// after the first entry).
pub open spec fn truncated(v: LogView, index: int) -> LogView {
    let keep = if index - v.first_index < v.entries.len() {
        index - v.first_index
    } else {
        v.entries.len() as int
    };
    LogView {
        entries: v.entries.take(keep),
        first_index: v.first_index,
        commit_index: if v.commit_index >= index {
            (index - 1) as u64
        } else {
            v.commit_index
        },
        last_applied: if v.last_applied >= index {
            (index - 1) as u64
        } else {
            v.last_applied
        },
    }
}

/// The entries from `start` to `end` included, cut at the end of the log
/// (with `start` at or after the first entry).
pub open spec fn range_of(v: LogView, start: int, end: int) -> Seq<LogEntryView> {
    let from = start - v.first_index;
    if from >= v.entries.len() {
        Seq::empty()
    } else {
        let to = if end - v.first_index + 1 < v.entries.len() {
            end - v.first_index + 1
        } else {
            v.entries.len() as int
        };
        v.entries.subrange(from, to)
    }
}

/// At most `max` entries from `start` on (with `start` at or after the first entry).
pub open spec fn range_from(v: LogView, start: int, max: int) -> Seq<LogEntryView> {
    let from = start - v.first_index;
    if from >= v.entries.len() {
        Seq::empty()
    } else {
        let to = if max < v.entries.len() - from {
            from + max
        } else {
            v.entries.len() as int
        };
        v.entries.subrange(from, to)
    }
}

/// How many of `s` carry consecutive indices starting at `start`.
pub open spec fn consecutive_prefix(s: Seq<LogEntryView>, start: int) -> int
    decreases s.len(),
{
    if s.len() == 0 {
        0
    } else if s[0].index == start {
        1 + consecutive_prefix(s.drop_first(), start + 1)
    } else {
        0
    }
}

/// Stepping through the consecutive prefix one entry at a time.
pub proof fn lemma_consecutive_prefix_step(s: Seq<LogEntryView>, start: int, i: int)
    requires
        0 <= i <= consecutive_prefix(s, start),
        i < s.len(),
    ensures
        0 <= consecutive_prefix(s, start) <= s.len(),
        (s[i].index == start + i) <==> i < consecutive_prefix(s, start),
    decreases i,
{
    lemma_consecutive_prefix_bounds(s, start);
    lemma_consecutive_prefix_bounds(s.drop_first(), start + 1);
    if i > 0 {
        assert(consecutive_prefix(s, start) == 1 + consecutive_prefix(s.drop_first(), start + 1));
        lemma_consecutive_prefix_step(s.drop_first(), start + 1, i - 1);
        assert(s.drop_first()[i - 1] == s[i]);
    }
}

/// The consecutive prefix is no longer than the sequence.
pub proof fn lemma_consecutive_prefix_bounds(s: Seq<LogEntryView>, start: int)
    ensures
        0 <= consecutive_prefix(s, start) <= s.len(),
    decreases s.len(),
{
    if s.len() > 0 {
        lemma_consecutive_prefix_bounds(s.drop_first(), start + 1);
    }
}

} // verus!
