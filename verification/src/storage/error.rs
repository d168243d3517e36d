//! Error conditions of storage operations.

use vstd::prelude::*;

verus! {

/// Errors that storage operations report.
#[derive(Debug, Clone, PartialEq)]
pub enum StorageError {
    /// No log entry at the index.
    EntryNotFound { index: u64 },
    /// The index lies outside the stored range.
    IndexOutOfRange { index: u64, first: u64, last: u64 },
    /// Stored data is corrupted.
    Corruption { message: String },
    /// An input or output operation failed.
    IoError { message: String },
    /// Encoding or decoding failed.
    SerializationError { message: String },
    /// Stored data has an invalid format.
    InvalidFormat { message: String },
    /// The storage accepts no writes.
    ReadOnly,
    /// Not enough disk space.
    InsufficientSpace { needed: u64, available: u64 },
    /// A lock could not be taken.
    LockContention { message: String },
    /// A snapshot operation failed.
    SnapshotError { message: String },
    /// The configuration is invalid.
    ConfigurationError { message: String },
    /// Generic internal error.
    Internal { message: String },
}

/// Result type of storage operations.
pub type StorageResult<T> = Result<T, StorageError>;

/// Errors after which retrying the operation may succeed.
pub open spec fn spec_storage_retryable(e: StorageError) -> bool {
    e is IoError || e is LockContention || e is InsufficientSpace
}

/// Errors that signal corrupted data.
pub open spec fn spec_storage_corruption(e: StorageError) -> bool {
    e is Corruption || e is InvalidFormat
}

/// Errors the storage can recover from: neither corruption nor a read-only store.
pub open spec fn spec_storage_recoverable(e: StorageError) -> bool {
    !spec_storage_corruption(e) && !(e is ReadOnly)
}

impl StorageError {
    /// An I/O error carrying `message`.
    pub fn io(message: &str) -> (e: StorageError)
        ensures
            e is IoError,
            e->IoError_message@ == message@,
    {
        StorageError::IoError { message: message.to_owned() }
    }

    /// A serialization error carrying `message`.
    pub fn serialization(message: &str) -> (e: StorageError)
        ensures
            e is SerializationError,
            e->SerializationError_message@ == message@,
    {
        StorageError::SerializationError { message: message.to_owned() }
    }

    /// A corruption error carrying `message`.
    pub fn corruption(message: &str) -> (e: StorageError)
        ensures
            e is Corruption,
            e->Corruption_message@ == message@,
    {
        StorageError::Corruption { message: message.to_owned() }
    }

    /// An invalid-format error carrying `message`.
    pub fn invalid_format(message: &str) -> (e: StorageError)
        ensures
            e is InvalidFormat,
            e->InvalidFormat_message@ == message@,
    {
        StorageError::InvalidFormat { message: message.to_owned() }
    }

    /// An internal error carrying `message`.
    pub fn internal(message: &str) -> (e: StorageError)
        ensures
            e is Internal,
            e->Internal_message@ == message@,
    {
        StorageError::Internal { message: message.to_owned() }
    }

    /// A snapshot error carrying `message`.
    pub fn snapshot(message: &str) -> (e: StorageError)
        ensures
            e is SnapshotError,
            e->SnapshotError_message@ == message@,
    {
        StorageError::SnapshotError { message: message.to_owned() }
    }

    /// A configuration error carrying `message`.
    pub fn configuration(message: &str) -> (e: StorageError)
        ensures
            e is ConfigurationError,
            e->ConfigurationError_message@ == message@,
    {
        StorageError::ConfigurationError { message: message.to_owned() }
    }

    /// Whether retrying the operation may succeed: I/O errors, lock
    /// contention and lack of space.
    pub fn is_retryable(&self) -> (r: bool)
        ensures
            r == spec_storage_retryable(*self),
    {
        match self {
            StorageError::IoError { .. } => true,
            StorageError::LockContention { .. } => true,
            StorageError::InsufficientSpace { .. } => true,
            _ => false,
        }
    }

    /// Whether the error signals corrupted data.
    pub fn is_corruption(&self) -> (r: bool)
        ensures
            r == spec_storage_corruption(*self),
    {
        match self {
            StorageError::Corruption { .. } => true,
            StorageError::InvalidFormat { .. } => true,
            _ => false,
        }
    }

    /// Whether the storage can recover: the error is neither corruption nor
    /// a read-only store.
    pub fn is_recoverable(&self) -> (r: bool)
        ensures
            r == spec_storage_recoverable(*self),
    {
        !self.is_corruption() && !matches!(self, StorageError::ReadOnly)
    }
}

} // verus!
