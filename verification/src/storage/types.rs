//! Integrity and maintenance reports, and storage configuration.
//! Durations are held as whole milliseconds.

use vstd::prelude::*;
use crate::raft::log::{LogEntry, LogIndex, Term};
use crate::storage::entry::PersistentState;
use crate::storage::error::StorageResult;

verus! {

/// Outcome of an integrity check of a store.
#[derive(Debug, Clone)]
pub struct IntegrityReport {
    /// Whether no issue of severity `Error` or above was found.
    pub is_valid: bool,
    /// Issues found, in the order they were found.
    pub issues: Vec<IntegrityIssue>,
    /// Number of log entries checked.
    pub entries_checked: u64,
    /// Number of snapshots checked.
    pub snapshots_checked: u64,
    /// Time the check took, in milliseconds.
    pub verification_duration: u64,
}

/// One problem found by an integrity check.
#[derive(Debug, Clone)]
pub struct IntegrityIssue {
    /// Kind of problem.
    pub issue_type: IntegrityIssueType,
    /// Human-readable description.
    pub description: String,
    /// The log index concerned, if any.
    pub log_index: Option<LogIndex>,
    /// How serious the problem is.
    pub severity: IssueSeverity,
}

/// Kinds of integrity problems.
#[derive(Debug, Clone, Copy, PartialEq, Eq, Structural)]
pub enum IntegrityIssueType {
    /// A stored checksum does not match the data.
    ChecksumMismatch,
    /// An entry is missing from the sequence of indices.
    MissingEntry,
    /// An index is stored twice.
    DuplicateEntry,
    /// A term is lower than the term before it.
    InvalidTermSequence,
    /// A snapshot is corrupted.
    CorruptedSnapshot,
    /// A file has an invalid format.
    InvalidFormat,
    /// Any other problem.
    Other,
}

/// Severity of an integrity problem, from least to most serious.
#[derive(Debug, Clone, Copy, PartialEq, Eq, Structural, PartialOrd, Ord)]
pub enum IssueSeverity {
    /// Informational only.
    Info,
    /// May indicate a problem.
    Warning,
    /// Affects functionality.
    Error,
    /// Prevents operation.
    Critical,
}

/// Position of a severity in the order `Info < Warning < Error < Critical`.
pub open spec fn severity_rank(s: IssueSeverity) -> int {
    match s {
        IssueSeverity::Info => 0,
        IssueSeverity::Warning => 1,
        IssueSeverity::Error => 2,
        IssueSeverity::Critical => 3,
    }
}

impl IssueSeverity {
    /// Position of the severity in the order `Info < Warning < Error < Critical`.
    pub fn rank(&self) -> (r: u8)
        ensures
            r == severity_rank(*self),
    {
        match self {
            IssueSeverity::Info => 0,
            IssueSeverity::Warning => 1,
            IssueSeverity::Error => 2,
            IssueSeverity::Critical => 3,
        }
    }

    /// Whether this severity is below `other`.
    pub fn is_below(&self, other: &IssueSeverity) -> (r: bool)
        ensures
            r == (severity_rank(*self) < severity_rank(*other)),
    {
        self.rank() < other.rank()
    }
}

/// Outcome of a maintenance run.
#[derive(Debug, Clone)]
pub struct MaintenanceReport {
    /// Operations performed.
    pub operations_performed: Vec<MaintenanceOperation>,
    /// Bytes reclaimed.
    pub space_reclaimed: u64,
    /// Time the run took, in milliseconds.
    pub maintenance_duration: u64,
    /// Problems met during the run.
    pub issues: Vec<String>,
}

/// Kinds of maintenance operations.
#[derive(Debug, Clone, Copy, PartialEq, Eq, Structural)]
pub enum MaintenanceOperation {
    /// Log entries were compacted away.
    LogCompaction { entries_removed: u64 },
    /// Old snapshots were removed.
    SnapshotCleanup { snapshots_removed: u64 },
    /// Storage was defragmented.
    Defragmentation { space_reclaimed: u64 },
    /// Indices were rebuilt.
    IndexRebuild,
    /// Checksums were verified and repaired.
    ChecksumRepair { entries_repaired: u64 },
}

/// How writes are made durable.
#[derive(Debug, Clone, Copy, PartialEq, Eq, Structural)]
pub enum SyncMode {
    /// No explicit sync: fastest, least durable.
    NoSync,
    /// A sync after writes.
    Normal,
    /// A full sync including metadata: slowest, most durable.
    Full,
}

/// Configuration of a store.
#[derive(Debug, Clone, Copy, PartialEq, Eq, Structural)]
pub struct StorageConfig {
    /// Maximum number of log entries kept in memory.
    pub max_memory_entries: usize,
    /// Whether data is compressed.
    pub enable_compression: bool,
    /// Whether checksums are kept.
    pub enable_checksums: bool,
    /// How writes are made durable.
    pub sync_mode: SyncMode,
    /// Buffer size of I/O operations, in bytes.
    pub io_buffer_size: usize,
    /// Whether maintenance runs in the background.
    pub enable_background_maintenance: bool,
    /// Interval between maintenance runs, in milliseconds.
    pub maintenance_interval: u64,
}

impl Default for StorageConfig {
    /// 1000 entries in memory, no compression, checksums on, a sync after
    /// writes, 64 KiB buffers, background maintenance every five minutes.
    fn default() -> (c: StorageConfig)
        ensures
            c == (StorageConfig {
                max_memory_entries: 1000,
                enable_compression: false,
                enable_checksums: true,
                sync_mode: SyncMode::Normal,
                io_buffer_size: 65536,
                enable_background_maintenance: true,
                maintenance_interval: 300000,
            }),
    {
        StorageConfig {
            max_memory_entries: 1000,
            enable_compression: false,
            enable_checksums: true,
            sync_mode: SyncMode::Normal,
            io_buffer_size: 65536,
            enable_background_maintenance: true,
            maintenance_interval: 300000,
        }
    }
}

/// What a Raft store offers; implemented by the stores of applications.
pub trait Storage {
    /// Replaces the persistent state.
    fn store_persistent_state(&mut self, state: PersistentState) -> StorageResult<()>;

    /// Stores one log entry under its index.
    fn store_log_entry(&mut self, entry: LogEntry) -> StorageResult<()>;

    /// A copy of the entry at `index`, if stored.
    fn get_log_entry(&self, index: LogIndex) -> StorageResult<Option<LogEntry>>;

    /// Copies of the entries from `start` on, up to `end` excluded.
    fn get_log_entries(&self, start: LogIndex, end: LogIndex) -> StorageResult<Vec<LogEntry>>;

    /// The first stored index.
    fn first_log_index(&self) -> StorageResult<LogIndex>;

    /// The last stored index.
    fn last_log_index(&self) -> StorageResult<LogIndex>;

    /// The term of the entry at `index`, if stored.
    fn get_log_term(&self, index: LogIndex) -> StorageResult<Option<Term>>;

    /// Removes the entries from `index` on.
    fn truncate_log_from(&mut self, index: LogIndex) -> StorageResult<()>;

    /// Removes the entries up to `index` included.
    fn compact_log_to(&mut self, index: LogIndex) -> StorageResult<()>;

    /// Replaces the stored snapshot.
    fn store_snapshot(&mut self, snapshot: &[u8], last_included_index: LogIndex, last_included_term: Term) -> StorageResult<()>;

    /// Checks the stored data.
    fn verify_integrity(&self) -> StorageResult<IntegrityReport>;
}

/// A store that groups writes in batches.
pub trait BatchStorage: Storage {
    /// Begins a batch.
    fn begin_batch(&mut self) -> StorageResult<()>;

    /// Commits the current batch.
    fn commit_batch(&mut self) -> StorageResult<()>;

    /// Aborts the current batch.
    fn abort_batch(&mut self) -> StorageResult<()>;
}

/// A store with transactions.
pub trait TransactionalStorage: Storage {
    /// Handle of a transaction.
    type Transaction;

    /// Begins a transaction.
    fn begin_transaction(&mut self) -> StorageResult<Self::Transaction>;

    /// Commits a transaction.
    fn commit_transaction(&mut self, transaction: Self::Transaction) -> StorageResult<()>;

    /// Rolls a transaction back.
    fn rollback_transaction(&mut self, transaction: Self::Transaction) -> StorageResult<()>;
}

} // verus!
