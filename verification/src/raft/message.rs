//! Messages of the Raft protocol: AppendEntries, RequestVote and
//! InstallSnapshot requests and responses, and client requests and responses.
//! Message identifiers are random 128-bit values.

use vstd::prelude::*;
use crate::raft::log::{LogEntry, LogIndex, Term, entry_views, LogEntryView};

verus! {

/// Identifier of a message.
pub type MessageId = u128;

/// AppendEntries request; without entries it is a heartbeat.
#[derive(Debug, Clone)]
pub struct AppendEntriesRequest {
    pub message_id: MessageId,
    /// Leader's term.
    pub term: Term,
    /// Leader's node identifier.
    pub leader_id: u64,
    /// Index of the entry just before the new ones.
    pub prev_log_index: LogIndex,
    /// Term of that entry.
    pub prev_log_term: Term,
    /// Entries to store.
    pub entries: Vec<LogEntry>,
    /// Leader's commit index.
    pub leader_commit: LogIndex,
}

impl AppendEntriesRequest {
    /// A request with a fresh identifier.
    pub fn new(
        term: Term,
        leader_id: u64,
        prev_log_index: LogIndex,
        prev_log_term: Term,
        entries: Vec<LogEntry>,
        leader_commit: LogIndex,
    ) -> (r: AppendEntriesRequest)
        ensures
            r.term == term,
            r.leader_id == leader_id,
            r.prev_log_index == prev_log_index,
            r.prev_log_term == prev_log_term,
            entry_views(r.entries@) == entry_views(entries@),
            r.leader_commit == leader_commit,
    {
        AppendEntriesRequest {
            message_id: crate::support::random_uuid(),
            term,
            leader_id,
            prev_log_index,
            prev_log_term,
            entries,
            leader_commit,
        }
    }

    /// A heartbeat: no entries, previous index and term 0.
    pub fn heartbeat(term: Term, leader_id: u64, leader_commit: LogIndex) -> (r:
        AppendEntriesRequest)
        ensures
            r.term == term,
            r.leader_id == leader_id,
            r.prev_log_index == 0,
            r.prev_log_term == 0,
            r.entries@.len() == 0,
            r.leader_commit == leader_commit,
    {
        AppendEntriesRequest {
            message_id: crate::support::random_uuid(),
            term,
            leader_id,
            prev_log_index: 0,
            prev_log_term: 0,
            entries: Vec::new(),
            leader_commit,
        }
    }

    /// Whether this is a heartbeat (no entries).
    pub fn is_heartbeat(&self) -> (r: bool)
        ensures
            r == (self.entries@.len() == 0),
    {
        self.entries.len() == 0
    }

    /// Number of entries carried.
    pub fn entry_count(&self) -> (n: usize)
        ensures
            n == self.entries@.len(),
    {
        self.entries.len()
    }
}

/// AppendEntries response.
#[derive(Debug, Clone)]
pub struct AppendEntriesResponse {
    /// Identifier of the request answered.
    pub message_id: MessageId,
    /// Responder's current term.
    pub term: Term,
    /// Responder's node identifier.
    pub node_id: u64,
    /// Whether the responder's log matched at the previous index.
    pub success: bool,
    /// Hint for the next index to try.
    pub next_index: Option<LogIndex>,
    /// Reason of a failure.
    pub error: Option<String>,
}

impl AppendEntriesResponse {
    /// A successful response.
    pub fn success(message_id: MessageId, term: Term, node_id: u64) -> (r: AppendEntriesResponse)
        ensures
            r.message_id == message_id,
            r.term == term,
            r.node_id == node_id,
            r.success,
            r.next_index is None,
            r.error is None,
    {
        AppendEntriesResponse { message_id, term, node_id, success: true, next_index: None, error: None }
    }

    /// A failed response.
    pub fn failure(
        message_id: MessageId,
        term: Term,
        node_id: u64,
        next_index: Option<LogIndex>,
        error: Option<String>,
    ) -> (r: AppendEntriesResponse)
        ensures
            r.message_id == message_id,
            r.term == term,
            r.node_id == node_id,
            !r.success,
            r.next_index == next_index,
            r.error == error,
    {
        AppendEntriesResponse { message_id, term, node_id, success: false, next_index, error }
    }
}

/// RequestVote request.
#[derive(Debug, Clone, Copy, PartialEq, Eq, Structural)]
pub struct VoteRequest {
    pub message_id: MessageId,
    /// Candidate's term.
    pub term: Term,
    /// Candidate requesting the vote.
    pub candidate_id: u64,
    /// Index of the candidate's last entry.
    pub last_log_index: LogIndex,
    /// Term of the candidate's last entry.
    pub last_log_term: Term,
    /// Whether this is a pre-vote.
    pub pre_vote: bool,
}

impl VoteRequest {
    /// A vote request with a fresh identifier.
    pub fn new(
        term: Term,
        candidate_id: u64,
        last_log_index: LogIndex,
        last_log_term: Term,
        pre_vote: bool,
    ) -> (r: VoteRequest)
        ensures
            r.term == term,
            r.candidate_id == candidate_id,
            r.last_log_index == last_log_index,
            r.last_log_term == last_log_term,
            r.pre_vote == pre_vote,
    {
        VoteRequest {
            message_id: crate::support::random_uuid(),
            term,
            candidate_id,
            last_log_index,
            last_log_term,
            pre_vote,
        }
    }
}

/// RequestVote response.
#[derive(Debug, Clone)]
pub struct VoteResponse {
    /// Identifier of the request answered.
    pub message_id: MessageId,
    /// Responder's current term.
    pub term: Term,
    /// Responder's node identifier.
    pub node_id: u64,
    /// Whether the vote was granted.
    pub vote_granted: bool,
    /// Reason of a denial.
    pub reason: Option<String>,
}

impl VoteResponse {
    /// A granted vote.
    pub fn granted(message_id: MessageId, term: Term, node_id: u64) -> (r: VoteResponse)
        ensures
            r.message_id == message_id,
            r.term == term,
            r.node_id == node_id,
            r.vote_granted,
            r.reason is None,
    {
        VoteResponse { message_id, term, node_id, vote_granted: true, reason: None }
    }

    /// A denied vote with its reason.
    pub fn denied(message_id: MessageId, term: Term, node_id: u64, reason: String) -> (r:
        VoteResponse)
        ensures
            r.message_id == message_id,
            r.term == term,
            r.node_id == node_id,
            !r.vote_granted,
            r.reason == Some(reason),
    {
        VoteResponse { message_id, term, node_id, vote_granted: false, reason: Some(reason) }
    }
}

/// InstallSnapshot request.
#[derive(Debug, Clone)]
pub struct InstallSnapshotRequest {
    pub message_id: MessageId,
    /// Leader's term.
    pub term: Term,
    /// Leader's node identifier.
    pub leader_id: u64,
    /// The snapshot replaces the entries up to this index.
    pub last_included_index: LogIndex,
    /// Term at that index.
    pub last_included_term: Term,
    /// Byte offset of this chunk.
    pub offset: u64,
    /// Bytes of the chunk.
    pub data: Vec<u8>,
    /// Whether this is the last chunk.
    pub done: bool,
}

impl InstallSnapshotRequest {
    /// A request with a fresh identifier.
    pub fn new(
        term: Term,
        leader_id: u64,
        last_included_index: LogIndex,
        last_included_term: Term,
        offset: u64,
        data: Vec<u8>,
        done: bool,
    ) -> (r: InstallSnapshotRequest)
        ensures
            r.term == term,
            r.leader_id == leader_id,
            r.last_included_index == last_included_index,
            r.last_included_term == last_included_term,
            r.offset == offset,
            r.data@ == data@,
            r.done == done,
    {
        InstallSnapshotRequest {
            message_id: crate::support::random_uuid(),
            term,
            leader_id,
            last_included_index,
            last_included_term,
            offset,
            data,
            done,
        }
    }
}

/// InstallSnapshot response.
#[derive(Debug, Clone)]
pub struct InstallSnapshotResponse {
    /// Identifier of the request answered.
    pub message_id: MessageId,
    /// Responder's current term.
    pub term: Term,
    /// Responder's node identifier.
    pub node_id: u64,
    /// Whether the chunk was received.
    pub success: bool,
    /// Reason of a failure.
    pub error: Option<String>,
}

impl InstallSnapshotResponse {
    /// A successful response.
    pub fn success(message_id: MessageId, term: Term, node_id: u64) -> (r:
        InstallSnapshotResponse)
        ensures
            r.message_id == message_id,
            r.term == term,
            r.node_id == node_id,
            r.success,
            r.error is None,
    {
        InstallSnapshotResponse { message_id, term, node_id, success: true, error: None }
    }

    /// A failed response with its reason.
    pub fn failure(message_id: MessageId, term: Term, node_id: u64, error: String) -> (r:
        InstallSnapshotResponse)
        ensures
            r.message_id == message_id,
            r.term == term,
            r.node_id == node_id,
            !r.success,
            r.error == Some(error),
    {
        InstallSnapshotResponse { message_id, term, node_id, success: false, error: Some(error) }
    }
}

/// A client's command.
#[derive(Debug, Clone)]
pub struct ClientRequest {
    pub message_id: MessageId,
    /// Client identifier.
    pub client_id: String,
    /// Request sequence number.
    pub sequence: u64,
    /// Command bytes.
    pub command: Vec<u8>,
    /// Whether the request only reads.
    pub read_only: bool,
}

impl ClientRequest {
    /// A client request with a fresh identifier.
    pub fn new(client_id: String, sequence: u64, command: Vec<u8>, read_only: bool) -> (r:
        ClientRequest)
        ensures
            r.client_id == client_id,
            r.sequence == sequence,
            r.command@ == command@,
            r.read_only == read_only,
    {
        ClientRequest {
            message_id: crate::support::random_uuid(),
            client_id,
            sequence,
            command,
            read_only,
        }
    }
}

/// Answer to a client.
#[derive(Debug, Clone)]
pub struct ClientResponse {
    /// Identifier of the request answered.
    pub message_id: MessageId,
    /// Whether the request succeeded.
    pub success: bool,
    /// Response data.
    pub data: Option<Vec<u8>>,
    /// Reason of a failure.
    pub error: Option<String>,
    /// The leader, when this node is not.
    pub leader_hint: Option<u64>,
}

impl ClientResponse {
    /// A successful answer.
    pub fn success(message_id: MessageId, data: Option<Vec<u8>>) -> (r: ClientResponse)
        ensures
            r.message_id == message_id,
            r.success,
            r.data == data,
            r.error is None,
            r.leader_hint is None,
    {
        ClientResponse { message_id, success: true, data, error: None, leader_hint: None }
    }

    /// A failed answer.
    pub fn failure(message_id: MessageId, error: String, leader_hint: Option<u64>) -> (r:
        ClientResponse)
        ensures
            r.message_id == message_id,
            !r.success,
            r.data is None,
            r.error == Some(error),
            r.leader_hint == leader_hint,
    {
        ClientResponse { message_id, success: false, data: None, error: Some(error), leader_hint }
    }
}

/// Every message of the protocol.
#[derive(Debug, Clone)]
pub enum Message {
    AppendEntriesRequest(AppendEntriesRequest),
    AppendEntriesResponse(AppendEntriesResponse),
    VoteRequest(VoteRequest),
    VoteResponse(VoteResponse),
    InstallSnapshotRequest(InstallSnapshotRequest),
    InstallSnapshotResponse(InstallSnapshotResponse),
    ClientRequest(ClientRequest),
    ClientResponse(ClientResponse),
    /// An empty AppendEntries request.
    Heartbeat(AppendEntriesRequest),
}

/// Kind of a message, for routing.
#[derive(Debug, Clone, Copy, PartialEq, Eq, Structural)]
pub enum MessageType {
    AppendEntriesRequest,
    AppendEntriesResponse,
    VoteRequest,
    VoteResponse,
    InstallSnapshotRequest,
    InstallSnapshotResponse,
    ClientRequest,
    ClientResponse,
    Heartbeat,
}

/// The kind of a message.
pub open spec fn spec_message_type(m: Message) -> MessageType {
    match m {
        Message::AppendEntriesRequest(_) => MessageType::AppendEntriesRequest,
        Message::AppendEntriesResponse(_) => MessageType::AppendEntriesResponse,
        Message::VoteRequest(_) => MessageType::VoteRequest,
        Message::VoteResponse(_) => MessageType::VoteResponse,
        Message::InstallSnapshotRequest(_) => MessageType::InstallSnapshotRequest,
        Message::InstallSnapshotResponse(_) => MessageType::InstallSnapshotResponse,
        Message::ClientRequest(_) => MessageType::ClientRequest,
        Message::ClientResponse(_) => MessageType::ClientResponse,
        Message::Heartbeat(_) => MessageType::Heartbeat,
    }
}

/// The term a message carries, for the protocol messages.
pub open spec fn spec_message_term(m: Message) -> Option<Term> {
    match m {
        Message::AppendEntriesRequest(r) => Some(r.term),
        Message::AppendEntriesResponse(r) => Some(r.term),
        Message::VoteRequest(r) => Some(r.term),
        Message::VoteResponse(r) => Some(r.term),
        Message::InstallSnapshotRequest(r) => Some(r.term),
        Message::InstallSnapshotResponse(r) => Some(r.term),
        Message::Heartbeat(r) => Some(r.term),
        _ => None,
    }
}

/// The sender a request names.
pub open spec fn spec_message_sender(m: Message) -> Option<u64> {
    match m {
        Message::AppendEntriesRequest(r) => Some(r.leader_id),
        Message::VoteRequest(r) => Some(r.candidate_id),
        Message::InstallSnapshotRequest(r) => Some(r.leader_id),
        Message::Heartbeat(r) => Some(r.leader_id),
        _ => None,
    }
}

impl Message {
    /// The kind of this message.
    pub fn message_type(&self) -> (t: MessageType)
        ensures
            t == spec_message_type(*self),
    {
        match self {
            Message::AppendEntriesRequest(_) => MessageType::AppendEntriesRequest,
            Message::AppendEntriesResponse(_) => MessageType::AppendEntriesResponse,
            Message::VoteRequest(_) => MessageType::VoteRequest,
            Message::VoteResponse(_) => MessageType::VoteResponse,
            Message::InstallSnapshotRequest(_) => MessageType::InstallSnapshotRequest,
            Message::InstallSnapshotResponse(_) => MessageType::InstallSnapshotResponse,
            Message::ClientRequest(_) => MessageType::ClientRequest,
            Message::ClientResponse(_) => MessageType::ClientResponse,
            Message::Heartbeat(_) => MessageType::Heartbeat,
        }
    }

    /// The term this message carries, if it is a protocol message.
    pub fn term(&self) -> (t: Option<Term>)
        ensures
            t == spec_message_term(*self),
    {
        match self {
            Message::AppendEntriesRequest(r) => Some(r.term),
            Message::AppendEntriesResponse(r) => Some(r.term),
            Message::VoteRequest(r) => Some(r.term),
            Message::VoteResponse(r) => Some(r.term),
            Message::InstallSnapshotRequest(r) => Some(r.term),
            Message::InstallSnapshotResponse(r) => Some(r.term),
            Message::Heartbeat(r) => Some(r.term),
            _ => None,
        }
    }

    /// The sender this message names, if it is a request.
    pub fn sender(&self) -> (s: Option<u64>)
        ensures
            s == spec_message_sender(*self),
    {
        match self {
            Message::AppendEntriesRequest(r) => Some(r.leader_id),
            Message::VoteRequest(r) => Some(r.candidate_id),
            Message::InstallSnapshotRequest(r) => Some(r.leader_id),
            Message::Heartbeat(r) => Some(r.leader_id),
            _ => None,
        }
    }
}

} // verus!
