use toka::raft::config::RaftConfig;
use toka::raft::error::RaftError;
use toka::raft::log::{Log, LogEntry};
use toka::raft::machine::InMemoryStateMachine;
use toka::raft::message::{
    AppendEntriesRequest, AppendEntriesResponse, ClientRequest, ClientResponse, Message, MessageType,
    VoteRequest, VoteResponse,
};
use toka::raft::node::StateMachine;
use toka::raft::state::{CandidateState, FollowerState, LeaderState, NodeState, RaftState};

#[test]
fn test_default_config() {
    let config = RaftConfig::default();
    assert_eq!(config.node_id, 1);
    assert!(config.peers.is_empty());
    assert!(config.validate().is_ok());
}

#[test]
fn test_config_validation() {
    let mut config = RaftConfig::new(1, vec![2, 3]);
    assert!(config.validate().is_ok());

    config.node_id = 0;
    assert!(config.validate().is_err());

    config.node_id = 1;
    config.peers = vec![1, 2];
    assert!(config.validate().is_err());
}

#[test]
fn test_cluster_calculations() {
    let config = RaftConfig::new(1, vec![2, 3, 4]);
    assert_eq!(config.cluster_size(), 4);
    assert_eq!(config.quorum_size(), 3);
    assert_eq!(config.all_nodes(), vec![1, 2, 3, 4]);
}

#[test]
fn test_membership_check() {
    let config = RaftConfig::new(1, vec![2, 3]);
    assert!(config.is_member(1));
    assert!(config.is_member(2));
    assert!(config.is_member(3));
    assert!(!config.is_member(4));
}

#[test]
fn test_random_election_timeout() {
    let config = RaftConfig::new(1, vec![2, 3]);
    for _ in 0..100 {
        let timeout = config.random_election_timeout();
        assert!(timeout >= config.election_timeout_min);
        assert!(timeout <= config.election_timeout_max);
    }
}

#[test]
fn test_builder_pattern() {
    let config = RaftConfig::new(1, vec![2, 3])
        .with_heartbeat_interval(25)
        .with_election_timeout(100, 200)
        .with_max_entries_per_request(50)
        .with_pre_vote(true)
        .with_batch_optimization(false);

    assert_eq!(config.heartbeat_interval, 25);
    assert_eq!(config.election_timeout_min, 100);
    assert_eq!(config.max_entries_per_request, 50);
    assert!(config.enable_pre_vote);
    assert!(!config.enable_batch_optimization);
    assert!(config.validate().is_ok());
}

#[test]
fn error_test_error_creation() {
    let error = RaftError::network("Connection failed");
    assert!(error.is_retryable());
    assert!(!error.is_leadership_change());
}

#[test]
fn test_leadership_change_detection() {
    let error = RaftError::NotLeader { node_id: 1, current_leader: Some(2) };
    assert!(error.is_leadership_change());
    assert!(!error.is_retryable());
}

#[test]
fn test_retryable_errors() {
    let timeout_error = RaftError::Timeout { operation: "append_entries".to_string() };
    assert!(timeout_error.is_retryable());

    let storage_error = RaftError::storage("Disk full");
    assert!(!storage_error.is_retryable());
}

#[test]
fn test_log_entry_creation() {
    let entry = LogEntry::new_command(1, 1, b"test".to_vec());
    assert_eq!(entry.term, 1);
    assert_eq!(entry.index, 1);
    assert_eq!(entry.data, b"test");
    assert!(entry.is_command());
    assert!(!entry.is_noop());
}

#[test]
fn test_empty_log() {
    let log = Log::new();
    assert!(log.is_empty());
    assert_eq!(log.len(), 0);
    assert_eq!(log.last_log_index(), 0);
    assert_eq!(log.last_log_term(), 0);
    assert_eq!(log.first_log_index(), 1);
}

#[test]
fn test_log_append() {
    let mut log = Log::new();
    let entry1 = LogEntry::new_command(1, 1, b"cmd1".to_vec());
    let entry2 = LogEntry::new_command(1, 2, b"cmd2".to_vec());

    assert!(log.append_entry(entry1).is_ok());
    assert!(log.append_entry(entry2).is_ok());

    assert_eq!(log.len(), 2);
    assert_eq!(log.last_log_index(), 2);
    assert_eq!(log.last_log_term(), 1);
}

#[test]
fn test_log_get_entry() {
    let mut log = Log::new();
    let entry = LogEntry::new_command(1, 1, b"test".to_vec());
    log.append_entry(entry.clone()).unwrap();

    let retrieved = log.get_entry(1).unwrap();
    assert_eq!(retrieved, &entry);

    assert!(log.get_entry(2).is_err());
}

#[test]
fn test_log_truncate() {
    let mut log = Log::new();
    for i in 1..=5 {
        let entry = LogEntry::new_command(1, i, format!("cmd{}", i).into_bytes());
        log.append_entry(entry).unwrap();
    }

    assert_eq!(log.len(), 5);

    log.truncate_from(3).unwrap();
    assert_eq!(log.len(), 2);
    assert_eq!(log.last_log_index(), 2);
}

#[test]
fn test_log_get_entries() {
    let mut log = Log::new();
    for i in 1..=5 {
        let entry = LogEntry::new_command(1, i, format!("cmd{}", i).into_bytes());
        log.append_entry(entry).unwrap();
    }

    let entries = log.get_entries(2, 4).unwrap();
    assert_eq!(entries.len(), 3);
    assert_eq!(entries[0].index, 2);
    assert_eq!(entries[2].index, 4);
}

#[test]
fn test_log_commit_index() {
    let mut log = Log::new();
    for i in 1..=3 {
        let entry = LogEntry::new_command(1, i, format!("cmd{}", i).into_bytes());
        log.append_entry(entry).unwrap();
    }

    assert_eq!(log.commit_index(), 0);
    log.set_commit_index(2).unwrap();
    assert_eq!(log.commit_index(), 2);

    assert!(log.set_commit_index(5).is_err());
}

#[test]
fn test_log_matches() {
    let mut log = Log::new();
    let entry1 = LogEntry::new_command(1, 1, b"cmd1".to_vec());
    let entry2 = LogEntry::new_command(2, 2, b"cmd2".to_vec());

    log.append_entry(entry1).unwrap();
    log.append_entry(entry2).unwrap();

    assert!(log.matches(1, 1));
    assert!(log.matches(2, 2));
    assert!(!log.matches(1, 2));
    assert!(!log.matches(2, 1));
    assert!(log.matches(0, 0));
}

#[test]
fn test_log_compact() {
    let mut log = Log::new();
    for i in 1..=10 {
        let entry = LogEntry::new_command(1, i, format!("cmd{}", i).into_bytes());
        log.append_entry(entry).unwrap();
    }

    log.compact(5).unwrap();
    assert_eq!(log.first_log_index(), 6);
    assert_eq!(log.last_log_index(), 10);
    assert_eq!(log.len(), 5);

    let entry = log.get_entry(6).unwrap();
    assert_eq!(entry.index, 6);

    assert!(log.get_entry(5).is_err());
}

#[test]
fn test_append_entries_request() {
    let entries = vec![
        LogEntry::new_command(1, 1, b"cmd1".to_vec()),
        LogEntry::new_command(1, 2, b"cmd2".to_vec()),
    ];

    let req = AppendEntriesRequest::new(1, 1, 0, 0, entries, 0);
    assert_eq!(req.term, 1);
    assert_eq!(req.leader_id, 1);
    assert_eq!(req.entry_count(), 2);
    assert!(!req.is_heartbeat());
}

#[test]
fn test_heartbeat_message() {
    let heartbeat = AppendEntriesRequest::heartbeat(1, 1, 0);
    assert!(heartbeat.is_heartbeat());
    assert_eq!(heartbeat.entry_count(), 0);
}

#[test]
fn test_append_entries_response() {
    let msg_id: u128 = 42;
    let success_resp = AppendEntriesResponse::success(msg_id, 1, 2);
    assert!(success_resp.success);
    assert_eq!(success_resp.term, 1);
    assert_eq!(success_resp.node_id, 2);

    let failure_resp =
        AppendEntriesResponse::failure(msg_id, 1, 2, Some(5), Some("Log inconsistency".to_string()));
    assert!(!failure_resp.success);
    assert_eq!(failure_resp.next_index, Some(5));
    assert!(failure_resp.error.is_some());
}

#[test]
fn test_vote_request() {
    let req = VoteRequest::new(2, 1, 5, 1, false);
    assert_eq!(req.term, 2);
    assert_eq!(req.candidate_id, 1);
    assert_eq!(req.last_log_index, 5);
    assert_eq!(req.last_log_term, 1);
    assert!(!req.pre_vote);
}

#[test]
fn test_vote_response() {
    let msg_id: u128 = 7;
    let granted = VoteResponse::granted(msg_id, 2, 2);
    assert!(granted.vote_granted);
    assert_eq!(granted.term, 2);
    assert_eq!(granted.node_id, 2);

    let denied = VoteResponse::denied(msg_id, 2, 2, "Already voted".to_string());
    assert!(!denied.vote_granted);
    assert_eq!(denied.reason, Some("Already voted".to_string()));
}

#[test]
fn test_client_request() {
    let req = ClientRequest::new("client1".to_string(), 1, b"command".to_vec(), false);
    assert_eq!(req.client_id, "client1");
    assert_eq!(req.sequence, 1);
    assert_eq!(req.command, b"command");
    assert!(!req.read_only);
}

#[test]
fn test_client_response() {
    let msg_id: u128 = 9;
    let success = ClientResponse::success(msg_id, Some(b"result".to_vec()));
    assert!(success.success);
    assert_eq!(success.data, Some(b"result".to_vec()));

    let failure = ClientResponse::failure(msg_id, "Not leader".to_string(), Some(2));
    assert!(!failure.success);
    assert_eq!(failure.error, Some("Not leader".to_string()));
    assert_eq!(failure.leader_hint, Some(2));
}

#[test]
fn test_message_type_detection() {
    let req = AppendEntriesRequest::new(1, 1, 0, 0, vec![], 0);
    let msg = Message::AppendEntriesRequest(req);
    assert_eq!(msg.message_type(), MessageType::AppendEntriesRequest);
    assert_eq!(msg.term(), Some(1));
    assert_eq!(msg.sender(), Some(1));
}

#[test]
fn test_node_state_transitions() {
    let mut state = RaftState::new(1);
    assert_eq!(state.state, NodeState::Follower);

    state.become_candidate(150, false).unwrap();
    assert_eq!(state.state, NodeState::Candidate);
    assert_eq!(state.current_term(), 1);
    assert_eq!(state.voted_for(), Some(1));

    state.become_leader(&[2, 3], 0).unwrap();
    assert_eq!(state.state, NodeState::Leader);
    assert!(state.leader_state().is_some());

    state.become_follower(2, 150);
    assert_eq!(state.state, NodeState::Follower);
    assert_eq!(state.current_term(), 2);
    assert_eq!(state.voted_for(), None);
}

#[test]
fn test_leader_state() {
    let mut leader_state = LeaderState::new(&[2, 3], 5);

    assert_eq!(leader_state.next_index.get(&2), Some(&6));
    assert_eq!(leader_state.match_index.get(&2), Some(&0));

    leader_state.update_match_index(2, 3);
    assert_eq!(leader_state.match_index.get(&2), Some(&3));
    assert_eq!(leader_state.next_index.get(&2), Some(&6));

    leader_state.update_next_index(2, 4);
    assert_eq!(leader_state.next_index.get(&2), Some(&4));
}

#[test]
fn test_candidate_state() {
    let mut candidate_state = CandidateState::new(150, false);

    assert_eq!(candidate_state.vote_count(), 1);
    assert!(!candidate_state.has_majority(5));

    candidate_state.add_vote(2);
    candidate_state.add_vote(3);
    assert_eq!(candidate_state.vote_count(), 3);
    assert!(candidate_state.has_majority(5));
}

#[test]
fn test_follower_state() {
    let mut follower_state = FollowerState::new(150);

    assert!(follower_state.has_election_timeout());

    follower_state.update_leader(2);
    assert_eq!(follower_state.leader_id, Some(2));
    assert!(!follower_state.has_election_timeout());
}

#[test]
fn test_term_updates() {
    let mut state = RaftState::new(1);

    state.update_term(5).unwrap();
    assert_eq!(state.current_term(), 5);
    assert_eq!(state.voted_for(), None);

    assert!(state.update_term(3).is_err());
}

#[test]
fn test_voting() {
    let mut state = RaftState::new(1);

    assert!(state.can_vote_for(2));
    state.vote_for(2).unwrap();
    assert_eq!(state.voted_for(), Some(2));

    assert!(!state.can_vote_for(3));
    assert!(state.vote_for(3).is_err());

    assert!(state.can_vote_for(2));
}

#[test]
fn test_commit_index_calculation() {
    let mut leader_state = LeaderState::new(&[2, 3, 4, 5], 10);

    leader_state.update_match_index(2, 8);
    leader_state.update_match_index(3, 9);
    leader_state.update_match_index(4, 7);
    leader_state.update_match_index(5, 6);

    let commit_index = leader_state.calculate_commit_index(0, 3);
    assert_eq!(commit_index, 7);
}

#[test]
fn test_state_machine() {
    let mut sm = InMemoryStateMachine::new();

    let entry1 = LogEntry::new_command(1, 1, b"SET key1 value1".to_vec());
    let result1 = sm.apply(&entry1).unwrap();
    assert_eq!(result1, b"OK");

    let entry2 = LogEntry::new_command(1, 2, b"GET key1".to_vec());
    let result2 = sm.apply(&entry2).unwrap();
    assert_eq!(result2, b"value1");

    let entry3 = LogEntry::new_command(1, 3, b"GET key2".to_vec());
    let result3 = sm.apply(&entry3).unwrap();
    assert_eq!(result3, b"NOT_FOUND");
}

#[test]
fn test_snapshot() {
    let mut sm = InMemoryStateMachine::new();

    let entry = LogEntry::new_command(1, 1, b"SET key1 value1".to_vec());
    sm.apply(&entry).unwrap();

    let snapshot = sm.take_snapshot().unwrap();

    let mut sm2 = InMemoryStateMachine::new();
    sm2.restore_from_snapshot(&snapshot).unwrap();

    let entry2 = LogEntry::new_command(1, 2, b"GET key1".to_vec());
    let result = sm2.apply(&entry2).unwrap();
    assert_eq!(result, b"value1");
}
