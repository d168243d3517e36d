use toka::raft::log::LogEntry;
use toka::storage::entry::{ClusterConfig, NodeInfo, PersistentState, StoredLogEntry};
use toka::storage::error::StorageError;
use toka::storage::memory::MemoryStorage;
use toka::storage::snapshot::SnapshotManager;
use toka::storage::types::{IssueSeverity, StorageConfig, SyncMode};

#[test]
fn test_error_creation() {
    let io_error = StorageError::io("File not found");
    assert!(io_error.is_retryable());
    assert!(!io_error.is_corruption());
    assert!(io_error.is_recoverable());

    let corruption_error = StorageError::corruption("Checksum mismatch");
    assert!(!corruption_error.is_retryable());
    assert!(corruption_error.is_corruption());
    assert!(!corruption_error.is_recoverable());
}

#[test]
fn test_error_classification() {
    let read_only = StorageError::ReadOnly;
    assert!(!read_only.is_retryable());
    assert!(!read_only.is_corruption());
    assert!(!read_only.is_recoverable());

    let lock_contention = StorageError::LockContention { message: "Lock timeout".to_string() };
    assert!(lock_contention.is_retryable());
    assert!(!lock_contention.is_corruption());
    assert!(lock_contention.is_recoverable());
}

#[test]
fn test_stored_log_entry() {
    let entry = LogEntry::new_command(1, 1, b"test data".to_vec());
    let stored = StoredLogEntry::new(entry.clone());

    assert_eq!(stored.entry, entry);
    assert!(stored.verify_integrity());

    let mut corrupted = stored.clone();
    corrupted.checksum = 0;
    assert!(!corrupted.verify_integrity());
}

#[test]
fn test_node_info() {
    let voting = NodeInfo::voting(1, "localhost:8080".to_string());
    assert!(voting.voting);
    assert_eq!(voting.id, 1);
    assert_eq!(voting.address, "localhost:8080");

    let non_voting = NodeInfo::non_voting(2, "localhost:8081".to_string());
    assert!(!non_voting.voting);
    assert_eq!(non_voting.id, 2);
}

#[test]
fn test_integrity_issue_severity_ordering() {
    assert!(IssueSeverity::Info < IssueSeverity::Warning);
    assert!(IssueSeverity::Warning < IssueSeverity::Error);
    assert!(IssueSeverity::Error < IssueSeverity::Critical);
}

#[test]
fn test_storage_config_default() {
    let config = StorageConfig::default();
    assert_eq!(config.max_memory_entries, 1000);
    assert!(config.enable_checksums);
    assert!(!config.enable_compression);
    assert!(matches!(config.sync_mode, SyncMode::Normal));
}

#[test]
fn memory_test_memory_storage_basic_operations() {
    let mut storage = MemoryStorage::new();
    let state = PersistentState {
        current_term: 5,
        voted_for: Some(1),
        last_applied: 10,
        cluster_config: ClusterConfig::default(),
    };
    storage.store_persistent_state(state.clone()).unwrap();
    let loaded_state = storage.load_persistent_state().unwrap();
    assert_eq!(loaded_state, Some(&state));
}

#[test]
fn test_log_entry_operations() {
    let mut storage = MemoryStorage::new();
    let entry1 = LogEntry::new_command(1, 1, b"command1".to_vec());
    let entry2 = LogEntry::new_command(1, 2, b"command2".to_vec());
    let entry3 = LogEntry::new_command(2, 3, b"command3".to_vec());

    storage.store_log_entry(entry1.clone()).unwrap();
    storage.store_log_entry(entry2.clone()).unwrap();
    storage.store_log_entry(entry3.clone()).unwrap();

    let retrieved = storage.get_log_entry(2).unwrap();
    assert_eq!(retrieved, Some(entry2.clone()));

    let entries = storage.get_log_entries(1, 3).unwrap();
    assert_eq!(entries.len(), 2);
    assert_eq!(entries[0], entry1);
    assert_eq!(entries[1], entry2);

    assert_eq!(storage.first_log_index().unwrap(), 1);
    assert_eq!(storage.last_log_index().unwrap(), 3);
    assert_eq!(storage.get_log_term(3).unwrap(), Some(2));
}

#[test]
fn test_log_truncation() {
    let mut storage = MemoryStorage::new();
    for i in 1..=5 {
        let entry = LogEntry::new_command(1, i, format!("command{}", i).into_bytes());
        storage.store_log_entry(entry).unwrap();
    }
    storage.truncate_log_from(3).unwrap();
    assert_eq!(storage.last_log_index().unwrap(), 2);
    assert!(storage.get_log_entry(3).unwrap().is_none());
    assert!(storage.get_log_entry(2).unwrap().is_some());
}

#[test]
fn test_log_compaction() {
    let mut storage = MemoryStorage::new();
    for i in 1..=5 {
        let entry = LogEntry::new_command(1, i, format!("command{}", i).into_bytes());
        storage.store_log_entry(entry).unwrap();
    }
    storage.compact_log_to(2).unwrap();
    assert_eq!(storage.first_log_index().unwrap(), 3);
    assert!(storage.get_log_entry(2).unwrap().is_none());
    assert!(storage.get_log_entry(3).unwrap().is_some());
}

#[test]
fn test_snapshot_operations() {
    let mut storage = MemoryStorage::new();
    let snapshot_data = b"snapshot data".to_vec();
    storage.store_snapshot(&snapshot_data, 10, 2).unwrap();
    let loaded = storage.load_snapshot().unwrap();
    assert_eq!(loaded, Some((snapshot_data, 10, 2)));
}

#[test]
fn test_integrity_verification() {
    let mut storage = MemoryStorage::new();
    for i in 1..=3 {
        let entry = LogEntry::new_command(1, i, format!("command{}", i).into_bytes());
        storage.store_log_entry(entry).unwrap();
    }
    let report = storage.verify_integrity().unwrap();
    assert!(report.is_valid);
    assert_eq!(report.entries_checked, 3);
    assert!(report.issues.is_empty());
}

#[test]
fn memory_storage_rereads_what_was_written() {
    let mut storage = MemoryStorage::new();
    let entry = LogEntry::new_command(4, 7, b"payload".to_vec());
    storage.store_log_entry(entry.clone()).unwrap();
    assert_eq!(storage.get_log_entry(7).unwrap(), Some(entry));
    assert_eq!(storage.get_log_entry(8).unwrap(), None);
}

#[test]
fn snapshot_paths_end_with_the_index_file() {
    let manager = SnapshotManager::new("/tmp/snaps".to_string());
    let path = manager.snapshot_path(42);
    assert_eq!(path, "/tmp/snaps/snapshot_42.snap");
    let meta = manager.metadata_path(42);
    assert_eq!(meta, "/tmp/snaps/snapshot_42.meta");
}
