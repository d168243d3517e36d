//! Error conditions of Raft operations.

use vstd::prelude::*;

verus! {

/// Errors that Raft operations report.
#[derive(Debug, Clone, PartialEq)]
pub enum RaftError {
    /// Node is not the leader and cannot process write operations.
    NotLeader { node_id: u64, current_leader: Option<u64> },
    /// Invalid term received in a message.
    InvalidTerm { received: u64, current: u64 },
    /// Log entry not found at the given index.
    LogEntryNotFound { index: u64 },
    /// Log inconsistency detected.
    LogInconsistency { index: u64, expected: u64, actual: u64 },
    /// Election timeout occurred.
    ElectionTimeout { node_id: u64 },
    /// Network communication error.
    NetworkError { message: String },
    /// Storage operation failed.
    StorageError { message: String },
    /// Configuration error.
    ConfigurationError { message: String },
    /// Node is in the wrong state for the operation.
    InvalidState { node_id: u64, current_state: String, expected_state: String },
    /// Quorum not achieved.
    QuorumNotAchieved { votes: usize, required: usize, cluster_size: usize },
    /// Snapshot error.
    SnapshotError { message: String },
    /// Invalid message format.
    InvalidMessage { message: String },
    /// Timeout during an operation.
    Timeout { operation: String },
    /// Generic internal error.
    Internal { message: String },
}

/// Result type of Raft operations.
pub type RaftResult<T> = Result<T, RaftError>;

/// Errors after which retrying the operation may succeed.
pub open spec fn spec_is_retryable(e: RaftError) -> bool {
    e is NetworkError || e is Timeout || e is ElectionTimeout
}

/// Errors that signal that leadership has changed.
pub open spec fn spec_is_leadership_change(e: RaftError) -> bool {
    e is NotLeader || e is InvalidTerm
}

impl RaftError {
    /// A network error carrying `message`.
    pub fn network(message: &str) -> (e: RaftError)
        ensures
            e is NetworkError,
            e->NetworkError_message@ == message@,
    {
        RaftError::NetworkError { message: message.to_owned() }
    }

    /// A storage error carrying `message`.
    pub fn storage(message: &str) -> (e: RaftError)
        ensures
            e is StorageError,
            e->StorageError_message@ == message@,
    {
        RaftError::StorageError { message: message.to_owned() }
    }

    /// A configuration error carrying `message`.
    pub fn configuration(message: &str) -> (e: RaftError)
        ensures
            e is ConfigurationError,
            e->ConfigurationError_message@ == message@,
    {
        RaftError::ConfigurationError { message: message.to_owned() }
    }

    /// An internal error carrying `message`.
    pub fn internal(message: &str) -> (e: RaftError)
        ensures
            e is Internal,
            e->Internal_message@ == message@,
    {
        RaftError::Internal { message: message.to_owned() }
    }

    /// Whether retrying may help: network errors and timeouts.
    pub fn is_retryable(&self) -> (r: bool)
        ensures
            r == spec_is_retryable(*self),
    {
        match self {
            RaftError::NetworkError { .. } => true,
            RaftError::Timeout { .. } => true,
            RaftError::ElectionTimeout { .. } => true,
            _ => false,
        }
    }

    /// Whether the error signals a leadership change.
    pub fn is_leadership_change(&self) -> (r: bool)
        ensures
            r == spec_is_leadership_change(*self),
    {
        match self {
            RaftError::NotLeader { .. } => true,
            RaftError::InvalidTerm { .. } => true,
            _ => false,
        }
    }
}

} // verus!
