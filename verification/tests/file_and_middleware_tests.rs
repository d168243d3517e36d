use toka::ledger::storage::{temp_path_of, wal_path_of};
use toka::storage::snapshot::SnapshotManager;
use toka::runtime::config::{Environment, StripeConfig};
use toka::runtime::stripe::{PaymentError, StripeClient};
use toka::raft::state::RaftState;
use toka::raft::config::RaftConfig;
use toka::raft::log::LogEntry;
use toka::raft::machine::InMemoryStateMachine;
use toka::raft::message::ClientRequest;
use toka::raft::node::{NodeEvent, RaftNode, StepOutcome};
use toka::raft::state::NodeState;
use toka::security::delegation::PermissionHierarchy;
use toka::security::middleware::{AuthRateLimitMiddleware, EndpointPolicy, PolicyBuilder, seconds_of};
use toka::security::presets;
use toka::security::rate_limit::{RateLimitAlgorithm, RateLimitKey, RateLimitResult};
use toka::security::rate_storage::MemoryRateLimitStorage;
use toka::storage::entry::StoredLogEntry;
use toka::storage::error::StorageError;
use toka::storage::file_format::{
    decode_snapshot_file, encode_be32, encode_be64, encode_file_header, encode_snapshot_file,
    find_log_entry, first_log_index_of, frame_log_record, last_log_index_of, latest_snapshot,
    log_file_report, parse_u64, read_file_header, snapshot_index_in, snapshots_to_remove,
    split_log_records, DecodedRecord,
};
use toka::storage::types::{IntegrityIssueType, IssueSeverity};

struct NoLimiter;

fn stored(term: u64, index: u64, data: &[u8]) -> StoredLogEntry {
    StoredLogEntry::new(LogEntry::new_command(term, index, data.to_vec()))
}

#[test]
fn file_header_round_trip() {
    let header = encode_file_header();
    assert_eq!(header, vec![b'R', b'A', b'F', b'T', 0, 0, 0, 1]);
    assert_eq!(read_file_header(&header), Ok(8));
}

#[test]
fn file_header_refusals() {
    match read_file_header(b"RAF") {
        Err(StorageError::IoError { message }) => assert_eq!(message, "early eof"),
        other => panic!("unexpected {:?}", other),
    }
    match read_file_header(b"JUNK\0\0\0\x01") {
        Err(StorageError::InvalidFormat { message }) => assert_eq!(message, "Invalid magic bytes"),
        other => panic!("unexpected {:?}", other),
    }
    match read_file_header(b"RAFT\0\0\0\x02") {
        Err(StorageError::InvalidFormat { message }) => assert_eq!(message, "Unsupported version: 2"),
        other => panic!("unexpected {:?}", other),
    }
    match read_file_header(b"RAFT\0\0") {
        Err(StorageError::IoError { .. }) => {},
        other => panic!("unexpected {:?}", other),
    }
}

#[test]
fn big_endian_numbers() {
    assert_eq!(encode_be32(0x0102_0304), vec![1, 2, 3, 4]);
    assert_eq!(encode_be64(0x0102_0304_0506_0708), vec![1, 2, 3, 4, 5, 6, 7, 8]);
}

#[test]
fn log_records_split_back() {
    let mut file = frame_log_record(b"first");
    file.extend(frame_log_record(b""));
    file.extend(frame_log_record(b"third!"));
    let (ranges, truncated) = split_log_records(&file);
    assert!(!truncated);
    assert_eq!(ranges.len(), 3);
    assert_eq!(&file[ranges[0].0..ranges[0].1], b"first");
    assert_eq!(&file[ranges[1].0..ranges[1].1], b"");
    assert_eq!(&file[ranges[2].0..ranges[2].1], b"third!");

    let mut cut = frame_log_record(b"whole");
    cut.extend_from_slice(&[0, 0, 0, 9, 1, 2]);
    let (ranges, truncated) = split_log_records(&cut);
    assert_eq!(ranges.len(), 1);
    assert!(truncated);

    let mut short = frame_log_record(b"whole");
    short.extend_from_slice(&[0, 0]);
    let (ranges, truncated) = split_log_records(&short);
    assert_eq!(ranges.len(), 1);
    assert!(!truncated);
}

#[test]
fn log_lookup_by_index() {
    let records: Vec<DecodedRecord> = vec![Ok(stored(1, 1, b"a")), Ok(stored(1, 2, b"b")), Ok(stored(2, 3, b"c"))];
    let found = find_log_entry(&records, false, 2).unwrap().unwrap();
    assert_eq!(found.index, 2);
    assert_eq!(found.data, b"b".to_vec());
    assert_eq!(find_log_entry(&records, false, 9), Ok(None));
    match find_log_entry(&records, true, 9) {
        Err(StorageError::IoError { .. }) => {},
        other => panic!("unexpected {:?}", other),
    }
}

#[test]
fn log_lookup_refusals() {
    let mut bad = stored(1, 2, b"b");
    bad.checksum = bad.checksum.wrapping_add(1);
    let records: Vec<DecodedRecord> = vec![Ok(stored(1, 1, b"a")), Ok(bad)];
    match find_log_entry(&records, false, 2) {
        Err(StorageError::Corruption { message }) => assert_eq!(message, "Corrupted entry at index 2"),
        other => panic!("unexpected {:?}", other),
    }
    let records: Vec<DecodedRecord> = vec![Err("expected value".to_string()), Ok(stored(1, 2, b"b"))];
    match find_log_entry(&records, false, 2) {
        Err(StorageError::SerializationError { message }) => assert_eq!(message, "expected value"),
        other => panic!("unexpected {:?}", other),
    }
}

#[test]
fn log_first_and_last_index() {
    let empty: Vec<DecodedRecord> = vec![];
    assert_eq!(first_log_index_of(&empty, false), Ok(1));
    assert_eq!(last_log_index_of(&empty, false), Ok(0));
    let records: Vec<DecodedRecord> = vec![Ok(stored(1, 4, b"a")), Ok(stored(1, 5, b"b"))];
    assert_eq!(first_log_index_of(&records, false), Ok(4));
    assert_eq!(last_log_index_of(&records, false), Ok(5));
    assert!(last_log_index_of(&records, true).is_err());
    let broken: Vec<DecodedRecord> = vec![Ok(stored(1, 4, b"a")), Err("bad".to_string())];
    assert_eq!(first_log_index_of(&broken, false), Ok(4));
    assert!(last_log_index_of(&broken, false).is_err());
}

#[test]
fn log_file_integrity_report() {
    let mut bad = stored(1, 2, b"b");
    bad.checksum = bad.checksum.wrapping_add(1);
    let records: Vec<DecodedRecord> = vec![Ok(stored(1, 1, b"a")), Err("x".to_string()), Ok(bad)];
    let report = log_file_report(&Some(records), 7);
    assert!(!report.is_valid);
    assert_eq!(report.entries_checked, 2);
    assert_eq!(report.issues.len(), 1);
    assert_eq!(report.issues[0].issue_type, IntegrityIssueType::ChecksumMismatch);
    assert_eq!(report.issues[0].description, "Checksum mismatch for entry at index 2");
    assert_eq!(report.verification_duration, 7);

    let clean = log_file_report(&Some(vec![Ok(stored(1, 1, b"a"))]), 0);
    assert!(clean.is_valid);
    assert_eq!(clean.entries_checked, 1);

    let unreadable = log_file_report(&None, 0);
    assert!(!unreadable.is_valid);
    assert_eq!(unreadable.issues[0].severity, IssueSeverity::Critical);
    assert_eq!(unreadable.issues[0].description, "Cannot read log file");
}

#[test]
fn snapshot_file_round_trip() {
    let bytes = encode_snapshot_file(b"state", 42, 7);
    assert_eq!(bytes.len(), 28 + 5);
    let (data, index, term) = decode_snapshot_file(&bytes).unwrap();
    assert_eq!(data, b"state".to_vec());
    assert_eq!(index, 42);
    assert_eq!(term, 7);
    assert!(decode_snapshot_file(&bytes[..30]).is_err());
    assert!(decode_snapshot_file(&bytes[..20]).is_err());
}

#[test]
fn snapshot_file_names() {
    assert_eq!(snapshot_index_in("snapshot_12.snap"), Some(12));
    assert_eq!(snapshot_index_in("snapshot_+3.snap"), Some(3));
    assert_eq!(snapshot_index_in("snapshot_.snap"), None);
    assert_eq!(snapshot_index_in("snapshot_1x.snap"), None);
    assert_eq!(snapshot_index_in("snapshot_12.meta"), None);
    assert_eq!(snapshot_index_in("other_12.snap"), None);
    assert_eq!(parse_u64("18446744073709551615"), Some(u64::MAX));
    assert_eq!(parse_u64("18446744073709551616"), None);
    assert_eq!(parse_u64("+"), None);
    assert_eq!(parse_u64("-1"), None);
}

#[test]
fn latest_and_cleanup_of_snapshots() {
    let names: Vec<String> = vec![
        "snapshot_5.snap".to_string(),
        "notes.txt".to_string(),
        "snapshot_9.snap".to_string(),
        "snapshot_0.snap".to_string(),
        "snapshot_2.snap".to_string(),
    ];
    assert_eq!(latest_snapshot(&names), Some((2, 9)));
    assert_eq!(snapshots_to_remove(&names), vec![3, 4, 0]);
    let none: Vec<String> = vec!["snapshot_0.snap".to_string()];
    assert_eq!(latest_snapshot(&none), None);
    assert_eq!(snapshots_to_remove(&none), Vec::<usize>::new());
}

#[test]
fn test_skip_paths() {
    let middleware = AuthRateLimitMiddleware::with_defaults(NoLimiter);
    assert!(middleware.should_skip_path("/health"));
    assert!(middleware.should_skip_path("/metrics"));
    assert!(!middleware.should_skip_path("/api/login"));
}

#[test]
fn test_middleware_context_extraction() {
    let middleware = AuthRateLimitMiddleware::with_defaults(NoLimiter);
    let context = middleware.extract_context(
        Some("192.168.1.1".to_string()),
        Some("user123".to_string()),
        "/api/login",
        Some("Mozilla/5.0".to_string()),
        false,
    );
    assert_eq!(context.ip_address, Some("192.168.1.1".to_string()));
    assert_eq!(context.user_id, Some("user123".to_string()));
    assert_eq!(context.endpoint, Some("/api/login".to_string()));
    assert!(!context.is_auth_failure);
    assert_eq!(context.metadata, vec![("user_agent".to_string(), "Mozilla/5.0".to_string())]);
}

#[test]
fn test_header_generation() {
    let middleware = AuthRateLimitMiddleware::with_defaults(NoLimiter);
    let result = RateLimitResult::Allowed { remaining: 50, reset_after: 60_000, limit: 100 };
    let headers = middleware.generate_headers(&result);
    assert!(!headers.is_empty());
    assert!(headers.iter().any(|(k, v)| k == "X-RateLimit-Limit" && v == "100"));
    assert!(headers.iter().any(|(k, v)| k == "X-RateLimit-Remaining" && v == "50"));
    assert!(headers.iter().any(|(k, v)| k == "X-RateLimit-Reset" && v == "60"));
}

#[test]
fn limited_headers_and_seconds() {
    let middleware = AuthRateLimitMiddleware::with_defaults(NoLimiter);
    let result = RateLimitResult::Limited { retry_after: 30_500, limit: 10, current_usage: 12 };
    let headers = middleware.generate_headers(&result);
    assert_eq!(
        headers,
        vec![
            ("X-RateLimit-Limit".to_string(), "10".to_string()),
            ("X-RateLimit-Remaining".to_string(), "0".to_string()),
            ("X-RateLimit-Retry-After".to_string(), "30".to_string()),
            ("X-RateLimit-Current".to_string(), "12".to_string()),
        ]
    );
    assert_eq!(seconds_of(-1_500), -1);
    assert_eq!(seconds_of(1_999), 1);
}

#[test]
fn test_policy_builder() {
    let config = PolicyBuilder::new()
        .auth_endpoint("/api/login".to_string(), 10, 5, 60_000)
        .api_endpoint("/api/data".to_string(), 100, 60_000, Some(10))
        .public_endpoint("/public".to_string(), 1000, 60_000)
        .admin_endpoint("/admin".to_string(), 5, 60_000, true)
        .build();
    assert_eq!(config.endpoint_configs.len(), 4);
    for path in ["/api/login", "/api/data", "/public", "/admin"] {
        assert!(config.endpoint_configs.iter().any(|(p, _)| p == path));
    }
    let login = &config.endpoint_configs.iter().find(|(p, _)| p == "/api/login").unwrap().1;
    assert_eq!(login.limit, 10);
    assert_eq!(login.burst_capacity, Some(1));
    let admin = &config.endpoint_configs.iter().find(|(p, _)| p == "/admin").unwrap().1;
    assert!(admin.adaptive);
    assert_eq!(admin.burst_capacity, Some(1));
}

#[test]
fn builder_replaces_a_path_policy() {
    let config = PolicyBuilder::new()
        .public_endpoint("/public".to_string(), 1000, 60_000)
        .public_endpoint("/public".to_string(), 10, 1_000)
        .build();
    assert_eq!(config.endpoint_configs.len(), 1);
    assert_eq!(config.endpoint_configs[0].1.limit, 10);
    assert_eq!(config.endpoint_configs[0].1.burst_capacity, Some(5));
}

#[test]
fn endpoint_policy_configs() {
    let api = EndpointPolicy::Api { limit: 100, window: 1_000, burst: None };
    let c = api.to_config();
    assert_eq!(c.limit, 100);
    assert_eq!(c.burst_capacity, None);
    assert_eq!(c.algorithm, RateLimitAlgorithm::TokenBucket);
    assert!(!api.requires_auth());
    assert!(EndpointPolicy::Admin { limit: 1, window: 1, require_auth: true }.requires_auth());
    assert!(!EndpointPolicy::Admin { limit: 1, window: 1, require_auth: false }.requires_auth());
}

#[test]
fn test_filesystem_preset() {
    let hierarchy = presets::filesystem_hierarchy();
    assert!(hierarchy.implies("admin", "write").unwrap());
    assert!(hierarchy.implies("admin", "read").unwrap());
    assert!(hierarchy.implies("write", "read").unwrap());
    assert!(!hierarchy.implies("read", "write").unwrap());
}

#[test]
fn database_and_system_presets() {
    let db = presets::database_hierarchy();
    assert!(db.implies("db_admin", "db_read").unwrap());
    assert!(!db.implies("db_read", "db_admin").unwrap());
    let system = presets::system_hierarchy();
    assert!(system.implies("system_admin", "network_read").unwrap());
    assert!(system.implies("user_write", "user_read").unwrap());
    assert!(!system.implies("user_admin", "service_read").unwrap());
}

#[test]
fn node_steps_through_events() {
    let config = RaftConfig::new(1, vec![2, 3]);
    let mut node = RaftNode::new(config).unwrap();
    let mut sm = InMemoryStateMachine::new();
    match node.step(&mut sm, NodeEvent::HeartbeatTick) {
        StepOutcome::Continue(o) => assert!(o.messages.is_empty()),
        StepOutcome::Stop => panic!("stopped"),
    }
    node.reset_election_timeout();
    match node.step(&mut sm, NodeEvent::ElectionTimeout) {
        StepOutcome::Continue(o) => assert_eq!(o.messages.len(), 2),
        StepOutcome::Stop => panic!("stopped"),
    }
    assert_eq!(node.state.state, NodeState::Candidate);
    let request = ClientRequest::new("client".to_string(), 1, b"cmd".to_vec(), false);
    match node.step(&mut sm, NodeEvent::Client(request)) {
        StepOutcome::Continue(o) => assert_eq!(o.client_responses.len(), 1),
        StepOutcome::Stop => panic!("stopped"),
    }
    assert!(matches!(node.step(&mut sm, NodeEvent::Shutdown), StepOutcome::Stop));
}

#[test]
fn storage_test_memory_storage_basic_operations() {
    let mut storage = MemoryRateLimitStorage::new();
    let key = RateLimitKey::IpAddress("192.168.1.1".to_string());
    assert!(storage.get_usage(&key).is_none());
    let new_usage = storage.increment_usage(&key, 1);
    assert_eq!(new_usage.count, 1);
    let retrieved_usage = storage.get_usage(&key);
    assert!(retrieved_usage.is_some());
    assert_eq!(retrieved_usage.unwrap().count, 1);
    storage.reset_usage(&key);
    assert!(storage.get_usage(&key).is_none());
}

#[test]
fn test_memory_storage_cleanup() {
    let mut storage = MemoryRateLimitStorage::with_cleanup_interval(100);
    let key = RateLimitKey::IpAddress("192.168.1.1".to_string());
    storage.increment_usage(&key, 1);
    assert_eq!(storage.get_stats().total_entries, 1);
    let _cleaned = storage.cleanup_expired_at(toka::support::now_millis());
    assert_eq!(storage.get_stats().total_entries, 1);
}

#[test]
fn storage_test_storage_stats() {
    let mut storage = MemoryRateLimitStorage::new();
    storage.increment_usage(&RateLimitKey::IpAddress("192.168.1.1".to_string()), 1);
    storage.increment_usage(&RateLimitKey::IpAddress("192.168.1.2".to_string()), 2);
    let stats = storage.get_stats();
    assert_eq!(stats.total_entries, 2);
    assert!(stats.estimated_memory_bytes > 0);
}

#[test]
fn old_usage_is_dropped_and_counts_add_up() {
    let mut storage = MemoryRateLimitStorage::with_cleanup_interval_at(1_000, 0);
    let a = RateLimitKey::UserId("a".to_string());
    let b = RateLimitKey::UserId("b".to_string());
    storage.increment_usage_at(&a, 2, 0);
    let mut twice = storage.increment_usage_at(&a, 3, 10);
    assert_eq!(twice.count, 5);
    assert_eq!(twice.total_requests, 5);
    twice.last_request = 0;
    storage.update_usage(&a, &twice);
    let mut usage_b = storage.increment_usage_at(&b, 1, 0);
    usage_b.last_request = 4_000_000;
    storage.update_usage(&b, &usage_b);
    assert!(!storage.should_cleanup_at(999));
    assert!(storage.should_cleanup_at(1_000));
    let removed = storage.remove_old_entries_at(3_600_000, 4_000_000);
    assert_eq!(removed, 1);
    assert!(storage.get_usage_at(&a, 4_000_000).is_none());
    assert_eq!(storage.get_usage_at(&b, 4_000_000).unwrap().count, 1);
}

#[test]
fn wal_file_helpers() {
    assert_eq!(wal_path_of("ledger.json"), "ledger.json.wal");
    assert_eq!(temp_path_of("ledger.json.wal"), "ledger.json.wal.tmp");
}

#[test]
fn snapshot_manager_helpers() {
    assert_eq!(SnapshotManager::index_of_snapshot_file("snapshot_7.snap"), Some(7));
    assert_eq!(SnapshotManager::latest_index(&vec![3, 9, 4]), Some(9));
    assert_eq!(SnapshotManager::latest_index(&vec![]), None);
    assert_eq!(SnapshotManager::verification_outcome(Ok(())), Ok(true));
    assert_eq!(SnapshotManager::verification_outcome(Err(StorageError::corruption("bad"))), Ok(false));
    assert!(SnapshotManager::verification_outcome(Err(StorageError::io("gone"))).is_err());
}

#[test]
fn payment_intent_request_is_form_encoded() {
    let config = StripeConfig::from_parts(
        ["sk", "test", &"k".repeat(45)].join("_"),
        ["whsec", &"w".repeat(30)].join("_"),
        Environment::Development,
    )
    .unwrap();
    let client = StripeClient::new(config).unwrap();
    let (url, body) = client.payment_intent_request("user 1", 500, "USD").unwrap();
    assert!(url.ends_with("/payment_intents"));
    assert!(body.starts_with("amount=500&currency=usd&automatic_payment_methods%5Benabled%5D=true"));
    assert!(body.contains("metadata%5Buser_id%5D=user%201"));
    assert!(client.payment_intent_request("u", 49, "usd").is_err());
    match StripeClient::api_failure(None) {
        PaymentError::ApiError(m) => assert_eq!(m, "Stripe API error: Unknown error"),
        _ => panic!("wrong error"),
    }
}

#[test]
fn raft_state_accessors_for_change() {
    let mut state = RaftState::new(1);
    assert!(state.leader_state_mut().is_none());
    state.become_follower(1, 150);
    if let Some(f) = state.follower_state_mut() {
        f.leader_id = Some(9);
    }
    assert_eq!(state.follower_state().unwrap().leader_id, Some(9));
}
