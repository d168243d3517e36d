//! The decision logic of a Raft node: what it does with each message, each
//! timeout and each client request. The node does not perform input or
//! output itself: each handler returns the messages to send and the answers
//! to give, and the caller delivers them.

use vstd::prelude::*;
use crate::raft::config::{RaftConfig, config_problem, spec_cluster_size, spec_quorum_size};
use crate::raft::error::{RaftError, RaftResult};
use crate::raft::log::{
    LogEntry, LogEntryView, LogIndex, Term, Log, LogView, entry_views, empty_log, last_term,
    range_from, range_of, term_at, LogEntryType, last_index, log_wf,
    spec_matches, truncated, consecutive_prefix, lemma_consecutive_prefix_bounds,
};
use crate::raft::message::{
    AppendEntriesRequest, AppendEntriesResponse, ClientRequest, ClientResponse, InstallSnapshotRequest,
    InstallSnapshotResponse, Message, MessageId, VoteRequest, VoteResponse,
};
use crate::raft::state::{
    NodeState, RaftState, PersistentState, VolatileState, LeaderState, commit_from, match_values,
    spec_has_majority, uniform_map,
};

verus! {

broadcast use vstd::std_specs::btree::group_btree_axioms;

/// Behaviour of the replicated state machine that a node feeds with
/// committed entries. Applications implement it.
pub trait StateMachine {
    /// Applies one committed entry and returns its result.
    fn apply(&mut self, entry: &LogEntry) -> RaftResult<Vec<u8>>;

    /// Takes a snapshot of the current state.
    fn take_snapshot(&mut self) -> RaftResult<Vec<u8>>;

    /// Restores the state from a snapshot.
    fn restore_from_snapshot(&mut self, snapshot: &[u8]) -> RaftResult<()>;
}

/// What a node asks its runtime to deliver: messages to peers and answers
/// to clients.
#[derive(Debug)]
pub struct Outbox {
    /// Messages, each with the node it goes to.
    pub messages: Vec<(u64, Message)>,
    /// Answers to clients.
    pub client_responses: Vec<ClientResponse>,
}

impl Outbox {
    /// Nothing to deliver.
    pub fn empty() -> (o: Outbox)
        ensures
            o.messages@.len() == 0,
            o.client_responses@.len() == 0,
    {
        Outbox { messages: Vec::new(), client_responses: Vec::new() }
    }
}

/// The one message of an outbox that holds nothing else, when it goes to `to`.
pub open spec fn sole_message(o: Outbox, to: u64) -> Option<Message> {
    if o.client_responses@.len() == 0 && o.messages@.len() == 1 && o.messages@[0].0 == to {
        Some(o.messages@[0].1)
    } else {
        None
    }
}

/// What the event loop of a node waits for.
#[derive(Debug)]
pub enum NodeEvent {
    /// The node is asked to stop.
    Shutdown,
    /// A message from a peer.
    Incoming {
        /// The node that sent it.
        sender: u64,
        /// The message.
        message: Message,
    },
    /// A request of a client.
    Client(ClientRequest),
    /// The heartbeat timer ticked.
    HeartbeatTick,
    /// The election timeout elapsed.
    ElectionTimeout,
    /// Time to apply committed entries.
    ApplyTick,
}

/// What the event loop does after an event.
#[derive(Debug)]
pub enum StepOutcome {
    /// Stop the loop.
    Stop,
    /// Deliver the outbox and wait for the next event.
    Continue(Outbox),
}

/// A Raft node: its configuration, state and log, and its timers.
#[derive(Debug)]
pub struct RaftNode {
    /// Node configuration.
    pub config: RaftConfig,
    /// Role, term, vote and role bookkeeping.
    pub state: RaftState,
    /// The replicated log.
    pub log: Log,
    /// The armed election timeout, in milliseconds.
    pub election_timeout: Option<u64>,
    /// Whether the heartbeat timer runs.
    pub heartbeat_timer_running: bool,
}

/// The invariant of a node.
pub open spec fn node_wf(n: RaftNode) -> bool {
    &&& log_wf(n.log@)
    &&& n.config.election_timeout_min <= n.config.election_timeout_max
    &&& n.config.peers@.len() < usize::MAX
    &&& (n.state.state == NodeState::Leader <==> n.state.leader_state is Some)
    &&& (n.state.state == NodeState::Candidate <==> n.state.candidate_state is Some)
}

/// Outcome of the consistency check of an AppendEntries request.
pub enum AppendCheck {
    /// The log does not reach the previous index.
    TooShort,
    /// The log has another term at the previous index.
    Mismatch,
    /// The log agrees at the previous index.
    Consistent,
}

/// The consistency check of an AppendEntries request.
pub open spec fn append_check(v: LogView, prev: int, prev_term: u64) -> AppendCheck {
    if prev > 0 && prev > last_index(v) {
        AppendCheck::TooShort
    } else if prev > 0 && !spec_matches(v, prev, prev_term) {
        AppendCheck::Mismatch
    } else {
        AppendCheck::Consistent
    }
}

/// The first index, scanning the request's entries from the `i`-th, whose
/// term disagrees with the log; the scan stops at the end of the log.
pub open spec fn conflict_scan(v: LogView, prev: int, ents: Seq<LogEntryView>, i: int) -> Option<
    int,
>
    decreases ents.len() - i,
{
    if i < 0 || i >= ents.len() {
        None
    } else if prev + 1 + i > last_index(v) {
        None
    } else if !spec_matches(v, prev + 1 + i, ents[i].term) {
        Some(prev + 1 + i)
    } else {
        conflict_scan(v, prev, ents, i + 1)
    }
}

/// A conflict found by the scan lies between the scan's start and the end
/// of the log.
pub proof fn lemma_conflict_scan_bounds(v: LogView, prev: int, ents: Seq<LogEntryView>, i: int)
    requires
        0 <= i,
    ensures
        conflict_scan(v, prev, ents, i) matches Some(c) ==> prev + 1 + i <= c <= last_index(v),
    decreases ents.len() - i,
{
    if 0 <= i < ents.len() && prev + 1 + i <= last_index(v) && spec_matches(
        v,
        prev + 1 + i,
        ents[i].term,
    ) {
        lemma_conflict_scan_bounds(v, prev, ents, i + 1);
    }
}

/// Index from which the request's entries are appended.
pub open spec fn append_start(v: LogView, c: Option<int>) -> int {
    match c {
        Some(ci) => ci,
        None => last_index(v) + 1,
    }
}

/// The log once the conflicting suffix is removed.
pub open spec fn log_after_conflict(v: LogView, c: Option<int>) -> LogView {
    match c {
        Some(ci) => truncated(v, ci),
        None => v,
    }
}

/// The request's entries that go to the end of the log.
pub open spec fn new_entries(v: LogView, prev: int, ents: Seq<LogEntryView>, c: Option<int>) -> Seq<
    LogEntryView,
> {
    let skip = append_start(v, c) - prev - 1;
    if skip >= ents.len() {
        Seq::empty()
    } else {
        ents.skip(skip)
    }
}

/// The log after the leader's commit index is taken into account.
pub open spec fn commit_advanced(v: LogView, leader_commit: u64) -> LogView {
    if leader_commit > v.commit_index {
        LogView {
            commit_index: if leader_commit < last_index(v) {
                leader_commit
            } else {
                last_index(v) as u64
            },
            ..v
        }
    } else {
        v
    }
}

/// Whether `r` is a failed AppendEntries response with these fields.
pub open spec fn is_append_failure(
    r: AppendEntriesResponse,
    id: MessageId,
    term: u64,
    node: u64,
    next: Option<u64>,
    msg: Seq<char>,
) -> bool {
    &&& r.message_id == id
    &&& r.term == term
    &&& r.node_id == node
    &&& !r.success
    &&& r.next_index == next
    &&& r.error is Some
    &&& r.error->0@ == msg
}

/// Whether `r` is a successful AppendEntries response with these fields.
pub open spec fn is_append_success(r: AppendEntriesResponse, id: MessageId, term: u64, node: u64) -> bool {
    &&& r.message_id == id
    &&& r.term == term
    &&& r.node_id == node
    &&& r.success
    &&& r.next_index is None
    &&& r.error is None
}

/// Whether everything but the log is unchanged.
pub open spec fn only_log_changed(a: RaftNode, b: RaftNode) -> bool {
    &&& a.config == b.config
    &&& a.state == b.state
    &&& a.election_timeout == b.election_timeout
    &&& a.heartbeat_timer_running == b.heartbeat_timer_running
}

/// What processing an AppendEntries request does to a log that passed the
/// consistency check, and whether it succeeds: `None` when the removal of
/// the conflicting suffix is refused, else the new log and whether every
/// entry was appended.
pub open spec fn append_outcome(v: LogView, req: AppendEntriesRequest) -> Option<(LogView, bool)> {
    let ents = entry_views(req.entries@);
    let prev = req.prev_log_index as int;
    let c = conflict_scan(v, prev, ents, 0);
    if c is Some && c->0 < v.first_index {
        None
    } else {
        let l1 = log_after_conflict(v, c);
        let add = new_entries(v, prev, ents, c);
        let k = consecutive_prefix(add, last_index(l1) + 1);
        let l2 = LogView { entries: l1.entries + add.take(k), ..l1 };
        if k < add.len() {
            Some((l2, false))
        } else {
            Some((commit_advanced(l2, req.leader_commit), true))
        }
    }
}

/// What processing an AppendEntries request does on a node whose log was
/// `v`, in term `term`, with identifier `id`: the log `l` afterwards and the
/// result `r`.
pub open spec fn append_processed(
    v: LogView,
    request: AppendEntriesRequest,
    term: u64,
    id: u64,
    l: LogView,
    r: RaftResult<AppendEntriesResponse>,
) -> bool {
    match append_check(v, request.prev_log_index as int, request.prev_log_term) {
        AppendCheck::TooShort => r is Ok && l == v && is_append_failure(
            r->Ok_0,
            request.message_id,
            term,
            id,
            Some((last_index(v) + 1) as u64),
            "Log too short"@,
        ),
        AppendCheck::Mismatch => r is Ok && l == v && is_append_failure(
            r->Ok_0,
            request.message_id,
            term,
            id,
            Some(1u64),
            "Log inconsistency"@,
        ),
        AppendCheck::Consistent => match append_outcome(v, request) {
            None => l == v && r == Err::<AppendEntriesResponse, RaftError>(
                RaftError::LogEntryNotFound {
                    index: conflict_scan(
                        v,
                        request.prev_log_index as int,
                        entry_views(request.entries@),
                        0,
                    )->0 as u64,
                },
            ),
            Some((nl, complete)) => l == nl && (complete ==> r is Ok && is_append_success(
                r->Ok_0,
                request.message_id,
                term,
                id,
            )) && (!complete ==> r is Err && r->Err_0 is Internal),
        },
    }
}

/// Whether a candidate whose log ends at (`index`, `term`) has a log at least
/// as up to date as `v`.
pub open spec fn log_up_to_date(v: LogView, index: u64, term: u64) -> bool {
    term > last_term(v) || (term == last_term(v) && index >= last_index(v))
}

/// Whether a node in term `current` that voted for `voted_for` and holds the
/// log `v` grants the vote asked by `request`.
pub open spec fn grants_vote(current: u64, voted_for: Option<u64>, v: LogView, request: VoteRequest) -> bool {
    &&& request.term >= current
    &&& (voted_for is None || voted_for == Some(request.candidate_id))
    &&& log_up_to_date(v, request.last_log_index, request.last_log_term)
}

/// Why a node in term `current` that voted for `voted_for` denies a vote.
pub open spec fn denial_reason(current: u64, voted_for: Option<u64>, request: VoteRequest) -> Seq<char> {
    if request.term < current {
        "Stale term"@
    } else if !(voted_for is None || voted_for == Some(request.candidate_id)) {
        "Already voted"@
    } else {
        "Candidate log not up-to-date"@
    }
}

/// Whether `r` answers the vote request `id` from the node `node` in `term`,
/// granted or denied with `reason`.
pub open spec fn is_vote_answer(r: VoteResponse, id: MessageId, term: u64, node: u64, granted: bool, reason: Seq<char>) -> bool {
    &&& r.message_id == id
    &&& r.term == term
    &&& r.node_id == node
    &&& r.vote_granted == granted
    &&& granted ==> r.reason is None
    &&& !granted ==> (r.reason matches Some(m) && m@ == reason)
}

/// The next index a leader holds for `peer` (1 when it holds none).
pub open spec fn next_for(l: LeaderState, peer: u64) -> u64 {
    if l.next_index@.contains_key(peer) {
        l.next_index@[peer]
    } else {
        1
    }
}

/// The index just before `next` (0 for the first position).
pub open spec fn prev_of(next: u64) -> u64 {
    if next > 1 {
        (next - 1) as u64
    } else {
        0
    }
}

/// The entries a leader sends from `next` on: at most `max` of them, none
/// when `next` lies past the end of the log.
pub open spec fn entries_to_send(v: LogView, next: u64, max: usize) -> Seq<LogEntryView> {
    if next <= last_index(v) {
        range_from(v, next as int, if max < last_index(v) - next + 1 {
            max as int
        } else {
            last_index(v) - next + 1
        })
    } else {
        Seq::empty()
    }
}

/// Whether `m` is an AppendEntries request of `leader` in `term` with
/// the given previous position, entries and commit index.
pub open spec fn is_append_request(
    m: Message,
    term: u64,
    leader: u64,
    prev: u64,
    prev_term: u64,
    entries: Seq<LogEntryView>,
    commit: u64,
) -> bool {
    m matches Message::AppendEntriesRequest(req) && req.term == term && req.leader_id == leader
        && req.prev_log_index == prev && req.prev_log_term == prev_term && entry_views(
        req.entries@,
    ) == entries && req.leader_commit == commit
}

/// Whether `o` holds exactly one vote request of `candidate` in `term`, for
/// a log ending at (`last_index`, `last_term`), to each of `peers`, in order.
pub open spec fn vote_requests_sent(
    o: Outbox,
    peers: Seq<u64>,
    term: u64,
    candidate: u64,
    last_index: u64,
    last_term: u64,
) -> bool {
    &&& o.client_responses@.len() == 0
    &&& o.messages@.len() == peers.len()
    &&& forall|i: int|
        0 <= i < peers.len() ==> #[trigger] o.messages@[i].0 == peers[i] && is_vote_request(
            o.messages@[i].1,
            term,
            candidate,
            last_index,
            last_term,
        )
}

/// Whether `m` is an AppendEntries request of `leader` in `term`.
pub open spec fn is_request_of(m: Message, term: u64, leader: u64) -> bool {
    m matches Message::AppendEntriesRequest(req) && req.term == term && req.leader_id == leader
}

/// Whether a node is a follower that has heard from a leader.
pub open spec fn heard_from_leader(s: RaftState) -> bool {
    &&& s.state == NodeState::Follower
    &&& s.follower_state matches Some(f) && f.last_leader_contact is Some
}

/// Whether `m` is a vote request of `candidate` in `term` for a log that
/// ends at (`last_index`, `last_term`).
pub open spec fn is_vote_request(m: Message, term: u64, candidate: u64, last_index: u64, last_term: u64) -> bool {
    m matches Message::VoteRequest(v) && v.term == term && v.candidate_id == candidate
        && v.last_log_index == last_index && v.last_log_term == last_term && !v.pre_vote
}

/// The bytes of "read-only", the answer to a read-only client request.
pub open spec fn read_only_bytes() -> Seq<u8> {
    seq![114u8, 101, 97, 100, 45, 111, 110, 108, 121]
}

/// The log after a snapshot that covers the entries up to `index` is
/// installed (with `index` within the log).
pub open spec fn snapshot_installed(v: LogView, index: u64) -> LogView {
    let compacted = if index >= v.first_index {
        LogView {
            entries: v.entries.skip(index - v.first_index + 1),
            first_index: (index + 1) as u64,
            ..v
        }
    } else {
        v
    };
    LogView { commit_index: index, last_applied: index, ..compacted }
}

/// The log after only the compaction step of installing a snapshot.
pub open spec fn snapshot_compacted(v: LogView, index: u64) -> LogView {
    if index >= v.first_index {
        LogView {
            entries: v.entries.skip(index - v.first_index + 1),
            first_index: (index + 1) as u64,
            ..v
        }
    } else {
        v
    }
}

/// The apply position after applying the entries `ents` from `applied` on.
pub open spec fn applied_through(applied: u64, ents: Seq<LogEntryView>) -> u64 {
    if ents.len() == 0 {
        applied
    } else {
        ents.last().index
    }
}

/// What sending heartbeats does to the node `pre`, leaving `post` and the result
/// `r`: the contract of `RaftNode::send_heartbeats`.
pub open spec fn heartbeats_sent(pre: RaftNode, post: RaftNode, r: RaftResult<Outbox>) -> bool {
    &&& node_wf(post)
    &&& post.config == pre.config
    &&& post.log == pre.log
    &&& post.election_timeout == pre.election_timeout
    &&& post.heartbeat_timer_running == pre.heartbeat_timer_running
    &&& post.state == (RaftState {
        leader_state: post.state.leader_state,
        ..pre.state
    })
    &&& pre.state.state != NodeState::Leader ==> r is Ok && post == pre
        && r->Ok_0.messages@.len() == 0 && r->Ok_0.client_responses@.len() == 0
    &&& pre.state.state == NodeState::Leader ==> {
        let l = pre.state.leader_state->0;
        let nl = post.state.leader_state->0;
        &&& nl.next_index@ == l.next_index@
        &&& nl.match_index@ == l.match_index@
        &&& r matches Ok(o) ==> {
            &&& o.client_responses@.len() == 0
            &&& forall|i: int|
                0 <= i < o.messages@.len() ==> l.next_index@.contains_key(
                    #[trigger] o.messages@[i].0,
                ) && is_request_of(
                    o.messages@[i].1,
                    pre.state.persistent.current_term,
                    pre.config.node_id,
                )
            &&& forall|p: u64|
                l.next_index@.contains_key(p) && !l.pending_responses@.contains_key(p)
                    ==> exists|i: int|
                    0 <= i < o.messages@.len() && #[trigger] o.messages@[i].0 == p
        }
    }
}

/// What an election timeout does to the node `pre`, leaving `post` and the result
/// `r`: the contract of `RaftNode::handle_election_timeout`.
pub open spec fn election_timeout_handled(pre: RaftNode, post: RaftNode, r: RaftResult<Outbox>) -> bool {
    &&& node_wf(post)
    &&& post.config == pre.config
    &&& post.log == pre.log
    &&& r is Ok
    &&& r->Ok_0.client_responses@.len() == 0
    &&& pre.state.state == NodeState::Leader ==> post == pre
        && r->Ok_0.messages@.len() == 0
    &&& pre.state.state != NodeState::Leader ==> (post == pre
        && r->Ok_0.messages@.len() == 0 && heard_from_leader(pre.state))
        || ({
        &&& post.state.state == NodeState::Candidate
        &&& post.state.persistent == (PersistentState {
            current_term: (pre.state.persistent.current_term + 1) as u64,
            voted_for: Some(pre.state.node_id),
        })
        &&& post.election_timeout is Some
        &&& vote_requests_sent(
            r->Ok_0,
            pre.config.peers@,
            (pre.state.persistent.current_term + 1) as u64,
            pre.config.node_id,
            last_index(pre.log@) as u64,
            last_term(pre.log@),
        )
    })
}

/// What the client request `request` does to the node `pre`, leaving `post` and the result
/// `r`: the contract of `RaftNode::handle_client_request`.
pub open spec fn client_request_handled(pre: RaftNode, post: RaftNode, request: ClientRequest, r: RaftResult<Outbox>) -> bool {
    &&& node_wf(post)
    &&& post.config == pre.config
    &&& post.state == pre.state
    &&& post.election_timeout == pre.election_timeout
    &&& post.heartbeat_timer_running == pre.heartbeat_timer_running
    &&& r is Ok
    &&& r->Ok_0.messages@.len() == 0
    &&& pre.state.state != NodeState::Leader && !request.read_only ==> {
        &&& post.log == pre.log
        &&& r->Ok_0.client_responses@.len() == 1
        &&& r->Ok_0.client_responses@[0].message_id == request.message_id
        &&& !r->Ok_0.client_responses@[0].success
        &&& r->Ok_0.client_responses@[0].error matches Some(e) && e@ == "Not leader"@
        &&& r->Ok_0.client_responses@[0].leader_hint == match pre.state.follower_state {
            Some(f) => f.leader_id,
            None => None,
        }
    }
    &&& request.read_only ==> {
        &&& post.log == pre.log
        &&& r->Ok_0.client_responses@.len() == 1
        &&& r->Ok_0.client_responses@[0].message_id == request.message_id
        &&& r->Ok_0.client_responses@[0].success
        &&& r->Ok_0.client_responses@[0].data matches Some(d) && d@ == read_only_bytes()
    }
    &&& pre.state.state == NodeState::Leader && !request.read_only ==> {
        let e = post.log@.entries.last();
        &&& r->Ok_0.client_responses@.len() == 0
        &&& post.log@ == (LogView {
            entries: pre.log@.entries.push(e),
            ..pre.log@
        })
        &&& e.term == pre.state.persistent.current_term
        &&& e.index == last_index(pre.log@) + 1
        &&& e.data == request.command@
        &&& e.entry_type == LogEntryType::Command
    }
}

/// What applying the committed entries does to the node `pre`, leaving `post` and the result
/// `r`: the contract of `RaftNode::apply_committed_entries`.
pub open spec fn entries_applied(pre: RaftNode, post: RaftNode, r: RaftResult<()>) -> bool {
    &&& node_wf(post)
    &&& post.config == pre.config
    &&& post.election_timeout == pre.election_timeout
    &&& post.heartbeat_timer_running == pre.heartbeat_timer_running
    &&& post.log@.entries == pre.log@.entries
    &&& post.log@.first_index == pre.log@.first_index
    &&& post.log@.commit_index == pre.log@.commit_index
    &&& ({
        let la = pre.state.volatile.last_applied;
        let ci = pre.state.volatile.commit_index;
        let ents = range_of(pre.log@, la + 1, ci as int);
        &&& la >= ci ==> r is Ok && post == pre
        &&& la < ci && la + 1 < pre.log@.first_index ==> r == Err::<(), RaftError>(
            RaftError::LogEntryNotFound { index: (la + 1) as u64 },
        ) && post == pre
        &&& r is Ok && la < ci ==> post.state == (RaftState {
            volatile: VolatileState {
                last_applied: applied_through(la, ents),
                ..pre.state.volatile
            },
            ..pre.state
        }) && post.log@.last_applied == applied_through(la, ents)
    })
}

/// What `message` from `sender` does to the node `pre`, leaving `post` and the result
/// `r`: the contract of `RaftNode::handle_message`.
pub open spec fn message_handled(pre: RaftNode, post: RaftNode, sender: u64, message: Message, r: RaftResult<Outbox>) -> bool {
    &&& node_wf(post)
    &&& post.config == pre.config
    &&& post.state.node_id == pre.state.node_id
    &&& post.state.persistent.current_term >= pre.state.persistent.current_term
    &&& !(sender == pre.config.node_id || pre.config.peers@.contains(sender))
        || message is ClientRequest || message is ClientResponse ==> r is Ok && post
        == pre && r->Ok_0.messages@.len() == 0 && r->Ok_0.client_responses@.len()
        == 0
    &&& sender == pre.config.node_id || pre.config.peers@.contains(sender) ==> match message {
        Message::AppendEntriesRequest(req) => append_request_handled(
            pre,
            post,
            sender,
            req,
            r,
        ),
        Message::Heartbeat(req) => append_request_handled(pre, post, sender, req, r),
        Message::AppendEntriesResponse(resp) => append_response_handled(
            pre,
            post,
            sender,
            resp,
            without_outbox(r),
        ) && (r matches Ok(o) ==> o.messages@.len() == 0 && o.client_responses@.len() == 0),
        Message::VoteRequest(req) => vote_request_handled(pre, post, sender, req, r),
        Message::VoteResponse(resp) => vote_response_handled(
            pre,
            post,
            sender,
            resp,
            r,
        ),
        Message::InstallSnapshotRequest(req) => snapshot_request_handled(
            pre,
            post,
            sender,
            req,
            r,
        ),
        Message::InstallSnapshotResponse(resp) => snapshot_response_handled(
            pre,
            post,
            sender,
            resp,
            without_outbox(r),
        ) && (r matches Ok(o) ==> o.messages@.len() == 0 && o.client_responses@.len() == 0),
        _ => true,
    }
}

/// Whether the step outcome `r` delivers what a handler returned: its
/// outbox when it succeeded, nothing when it failed; the loop goes on.
pub open spec fn delivers(r: StepOutcome, h: RaftResult<Outbox>) -> bool {
    match h {
        Ok(o) => r == StepOutcome::Continue(o),
        Err(_) => r matches StepOutcome::Continue(o) && o.messages@.len() == 0
            && o.client_responses@.len() == 0,
    }
}

/// A result with its outbox left out.
pub open spec fn without_outbox(r: RaftResult<Outbox>) -> RaftResult<()> {
    match r {
        Ok(_) => Ok(()),
        Err(e) => Err(e),
    }
}

/// What handling `request` from `sender` does to the node `pre`, leaving
/// `post` and the result `r`: the contract of `RaftNode::handle_append_entries_request`.
pub open spec fn append_request_handled(pre: RaftNode, post: RaftNode, sender: u64, request: AppendEntriesRequest, r: RaftResult<Outbox>) -> bool {
    &&& node_wf(post)
    &&& post.config == pre.config
    &&& post.heartbeat_timer_running == pre.heartbeat_timer_running
    &&& post.state.node_id == pre.state.node_id
    &&& post.state.volatile == pre.state.volatile
    &&& request.term < pre.state.persistent.current_term ==> {
        &&& post == pre
        &&& r is Ok
        &&& sole_message(r->Ok_0, sender) matches Some(Message::AppendEntriesResponse(resp))
            && is_append_failure(
            resp,
            request.message_id,
            pre.state.persistent.current_term,
            pre.config.node_id,
            None,
            "Stale term"@,
        )
    }
    &&& request.term >= pre.state.persistent.current_term ==> {
        &&& post.state.state == NodeState::Follower
        &&& post.state.persistent.current_term == request.term
        &&& request.term == pre.state.persistent.current_term && pre.state.state
            == NodeState::Follower ==> post.state.persistent.voted_for == pre.state.persistent.voted_for
        &&& request.term > pre.state.persistent.current_term || pre.state.state
            != NodeState::Follower ==> post.state.persistent.voted_for is None
        &&& post.state.leader_state is None
        &&& post.state.candidate_state is None
        &&& post.state.follower_state matches Some(f) ==> f.leader_id == Some(
            request.leader_id,
        )
        &&& match r {
            Ok(o) => {
                &&& sole_message(o, sender) matches Some(
                    Message::AppendEntriesResponse(resp),
                ) && append_processed(
                    pre.log@,
                    request,
                    request.term,
                    pre.config.node_id,
                    post.log@,
                    Ok(resp),
                )
                &&& post.election_timeout is Some
            },
            Err(e) => append_processed(
                pre.log@,
                request,
                request.term,
                pre.config.node_id,
                post.log@,
                Err(e),
            ),
        }
    }
}

/// What handling `response` from `sender` does to the node `pre`, leaving
/// `post` and the result `r`: the contract of `RaftNode::handle_append_entries_response`.
pub open spec fn append_response_handled(pre: RaftNode, post: RaftNode, sender: u64, response: AppendEntriesResponse, r: RaftResult<()>) -> bool {
    &&& node_wf(post)
    &&& post.config == pre.config
    &&& post.election_timeout == pre.election_timeout
    &&& post.heartbeat_timer_running == pre.heartbeat_timer_running
    &&& post.state.node_id == pre.state.node_id
    &&& pre.state.state != NodeState::Leader || response.term < pre.state.persistent.current_term ==> r is Ok && post == pre
    &&& pre.state.state == NodeState::Leader && response.term > pre.state.persistent.current_term ==> {
        &&& r is Ok
        &&& post.log == pre.log
        &&& post.state.state == NodeState::Follower
        &&& post.state.persistent == (PersistentState {
            current_term: response.term,
            voted_for: None,
        })
        &&& post.state.volatile == pre.state.volatile
    }
    &&& pre.state.state == NodeState::Leader && response.term == pre.state.persistent.current_term ==> {
        let l = pre.state.leader_state->0;
        let nl = post.state.leader_state->0;
        let current = pre.state.volatile.commit_index;
        let next = if l.next_index@.contains_key(sender) {
            l.next_index@[sender]
        } else {
            0
        };
        &&& post.state == (RaftState {
            leader_state: post.state.leader_state,
            volatile: post.state.volatile,
            ..pre.state
        })
        &&& post.state.leader_state is Some
        &&& nl.pending_responses@ == l.pending_responses@.remove(sender)
        &&& nl.last_heartbeat@ == l.last_heartbeat@
        &&& post.state.volatile.last_applied == pre.state.volatile.last_applied
        &&& response.success ==> {
            &&& nl.match_index@ == l.match_index@.insert(sender, next)
            &&& nl.next_index@ == l.next_index@.insert(sender, (next + 1) as u64)
            &&& post.state.volatile.commit_index == commit_from(
                match_values(nl),
                current,
                spec_quorum_size(pre.config@),
            )
            &&& r is Ok
            &&& post.log == pre.log
        }
        &&& !response.success ==> {
            &&& r is Ok
            &&& post.log == pre.log
            &&& post.state.volatile == pre.state.volatile
            &&& nl.match_index@ == l.match_index@
            &&& nl.next_index@ == l.next_index@.insert(
                sender,
                match response.next_index {
                    Some(n) => n,
                    None => if next > 1 {
                        (next - 1) as u64
                    } else {
                        1u64
                    },
                },
            )
        }
    }
}

/// What handling `request` from `sender` does to the node `pre`, leaving
/// `post` and the result `r`: the contract of `RaftNode::handle_vote_request`.
pub open spec fn vote_request_handled(pre: RaftNode, post: RaftNode, sender: u64, request: VoteRequest, r: RaftResult<Outbox>) -> bool {
    &&& node_wf(post)
    &&& post.config == pre.config
    &&& post.log == pre.log
    &&& post.heartbeat_timer_running == pre.heartbeat_timer_running
    &&& post.state.node_id == pre.state.node_id
    &&& post.state.volatile == pre.state.volatile
    &&& ({
        let t0 = pre.state.persistent.current_term;
        let newer = request.term > t0;
        let term = if newer {
            request.term
        } else {
            t0
        };
        let voted = if newer {
            None
        } else {
            pre.state.persistent.voted_for
        };
        let grant = grants_vote(term, voted, pre.log@, request);
        &&& post.state.persistent.current_term == term
        &&& newer ==> post.state.state == NodeState::Follower
        &&& !newer ==> post.state == (RaftState {
            persistent: post.state.persistent,
            ..pre.state
        }) && post.election_timeout == pre.election_timeout
        &&& grant && !request.pre_vote && voted is Some ==> r is Err && r->Err_0 is Internal
            && post.state.persistent.voted_for == voted
        &&& grant && (request.pre_vote || voted is None) ==> {
            &&& r is Ok
            &&& post.state.persistent.voted_for == if request.pre_vote {
                voted
            } else {
                Some(request.candidate_id)
            }
            &&& sole_message(r->Ok_0, sender) matches Some(Message::VoteResponse(resp))
                && is_vote_answer(
                resp,
                request.message_id,
                term,
                pre.config.node_id,
                true,
                Seq::empty(),
            )
        }
        &&& !grant ==> {
            &&& r is Ok
            &&& post.state.persistent.voted_for == voted
            &&& sole_message(r->Ok_0, sender) matches Some(Message::VoteResponse(resp))
                && is_vote_answer(
                resp,
                request.message_id,
                term,
                pre.config.node_id,
                false,
                denial_reason(term, voted, request),
            )
        }
    })
}

/// What handling `response` from `sender` does to the node `pre`, leaving
/// `post` and the result `r`: the contract of `RaftNode::handle_vote_response`.
pub open spec fn vote_response_handled(pre: RaftNode, post: RaftNode, sender: u64, response: VoteResponse, r: RaftResult<Outbox>) -> bool {
    &&& node_wf(post)
    &&& post.config == pre.config
    &&& post.log == pre.log
    &&& post.state.node_id == pre.state.node_id
    &&& post.state.volatile == pre.state.volatile
    &&& pre.state.state != NodeState::Candidate || response.term < pre.state.persistent.current_term || (response.term == pre.state.persistent.current_term && !response.vote_granted) ==> r is Ok && post
        == pre && r->Ok_0.messages@.len() == 0
    &&& pre.state.state == NodeState::Candidate && response.term > pre.state.persistent.current_term ==> {
        &&& r is Ok
        &&& r->Ok_0.messages@.len() == 0
        &&& post.state.state == NodeState::Follower
        &&& post.state.persistent == (PersistentState {
            current_term: response.term,
            voted_for: None,
        })
        &&& post.election_timeout is Some
    }
    &&& pre.state.state == NodeState::Candidate && response.term == pre.state.persistent.current_term && response.vote_granted ==> {
        let votes = pre.state.candidate_state->0.votes_received@.insert(sender);
        &&& post.state.persistent == pre.state.persistent
        &&& !spec_has_majority(votes.len() as int, spec_cluster_size(pre.config@))
            ==> r is Ok && r->Ok_0.messages@.len() == 0 && post.state.state
            == NodeState::Candidate && post.state.candidate_state->0.votes_received@
            == votes && post.election_timeout == pre.election_timeout
            && post.heartbeat_timer_running == pre.heartbeat_timer_running
        &&& spec_has_majority(votes.len() as int, spec_cluster_size(pre.config@))
            ==> {
            &&& post.state.state == NodeState::Leader
            &&& post.heartbeat_timer_running
            &&& post.state.leader_state->0.next_index@ == uniform_map(
                pre.config.peers@,
                (last_index(pre.log@) + 1) as u64,
            )
            &&& post.state.leader_state->0.match_index@ == uniform_map(
                pre.config.peers@,
                0u64,
            )
            &&& r matches Ok(o) ==> forall|p: u64|
                #![trigger pre.config.peers@.contains(p)]
                pre.config.peers@.contains(p) ==> exists|i: int|
                    0 <= i < o.messages@.len() && #[trigger] o.messages@[i].0 == p
        }
    }
}

/// What handling `request` from `sender` does to the node `pre`, leaving
/// `post` and the result `r`: the contract of `RaftNode::handle_install_snapshot_request`.
pub open spec fn snapshot_request_handled(pre: RaftNode, post: RaftNode, sender: u64, request: InstallSnapshotRequest, r: RaftResult<Outbox>) -> bool {
    &&& node_wf(post)
    &&& post.config == pre.config
    &&& post.heartbeat_timer_running == pre.heartbeat_timer_running
    &&& post.state.node_id == pre.state.node_id
    &&& post.state.persistent.current_term >= pre.state.persistent.current_term
    &&& request.term > pre.state.persistent.current_term ==> {
        &&& r is Ok
        &&& r->Ok_0.messages@.len() == 0
        &&& post.log == pre.log
        &&& post.state.state == NodeState::Follower
        &&& post.state.persistent == (PersistentState {
            current_term: request.term,
            voted_for: None,
        })
    }
    &&& request.term < pre.state.persistent.current_term ==> {
        &&& post == pre
        &&& r is Ok
        &&& sole_message(r->Ok_0, sender) matches Some(Message::InstallSnapshotResponse(resp))
        &&& resp.message_id == request.message_id
        &&& resp.term == pre.state.persistent.current_term
        &&& !resp.success
        &&& resp.error matches Some(e) && e@ == "Stale term"@
    }
    &&& request.term == pre.state.persistent.current_term ==> {
        &&& post.state.persistent == pre.state.persistent
        &&& post.state.state == pre.state.state
        &&& post.state.follower_state matches Some(f) ==> f.leader_id == Some(
            request.leader_id,
        )
        &&& r matches Ok(o) ==> sole_message(o, sender) matches Some(
            Message::InstallSnapshotResponse(resp),
        ) && resp.success && resp.message_id == request.message_id
    }
}

/// What handling `response` from `sender` does to the node `pre`, leaving
/// `post` and the result `r`: the contract of `RaftNode::handle_install_snapshot_response`.
pub open spec fn snapshot_response_handled(pre: RaftNode, post: RaftNode, sender: u64, response: InstallSnapshotResponse, r: RaftResult<()>) -> bool {
    &&& node_wf(post)
    &&& r is Ok
    &&& post.config == pre.config
    &&& post.log == pre.log
    &&& post.state.node_id == pre.state.node_id
    &&& pre.state.state != NodeState::Leader || (response.term <= pre.state.persistent.current_term && !response.success) ==> post == pre
    &&& pre.state.state == NodeState::Leader && response.term > pre.state.persistent.current_term ==> {
        &&& post.state.state == NodeState::Follower
        &&& post.state.persistent == (PersistentState {
            current_term: response.term,
            voted_for: None,
        })
    }
    &&& pre.state.state == NodeState::Leader && response.term <= pre.state.persistent.current_term && response.success ==> {
        let l = pre.state.leader_state->0;
        let nl = post.state.leader_state->0;
        &&& post.state == (RaftState {
            leader_state: post.state.leader_state,
            ..pre.state
        })
        &&& post.election_timeout == pre.election_timeout
        &&& post.state.leader_state is Some
        &&& nl.match_index@ == l.match_index@.insert(sender, 0)
        &&& nl.next_index@ == l.next_index@.insert(sender, 1)
        &&& nl.pending_responses@ == l.pending_responses@
        &&& nl.last_heartbeat@ == l.last_heartbeat@
    }
}

impl RaftNode {
    /// Scans the request's entries for the first one whose term disagrees
    /// with the log, stopping at the end of the log.
    fn find_conflict(&self, prev: u64, entries: &Vec<LogEntry>) -> (r: Option<u64>)
        requires
            log_wf(self.log@),
            prev <= last_index(self.log@),
            last_index(self.log@) + entries@.len() + 1 < u64::MAX,
        ensures
            conflict_scan(self.log@, prev as int, entry_views(entries@), 0) == match r {
                Some(c) => Some(c as int),
                None => None::<int>,
            },
    {
        let ghost v = self.log@;
        let ghost ents = entry_views(entries@);
        let last = self.log.last_log_index();
        let mut i: usize = 0;
        while i < entries.len()
            invariant
                log_wf(self.log@),
                v == self.log@,
                ents == entry_views(entries@),
                i <= entries.len(),
                last == last_index(v),
                prev <= last,
                last + entries@.len() + 1 < u64::MAX,
                conflict_scan(v, prev as int, ents, 0) == conflict_scan(v, prev as int, ents, i as int),
            decreases entries.len() - i,
        {
            let entry_index = prev + 1 + (i as u64);
            if entry_index > last {
                return None;
            }
            proof {
                assert(ents[i as int] == entries@[i as int]@);
            }
            if !self.log.matches(entry_index, entries[i].term) {
                return Some(entry_index);
            }
            i = i + 1;
        }
        None
    }

    /// Checks an AppendEntries request against the log and, when it is
    /// consistent, removes the conflicting suffix, appends the new entries
    /// and advances the commit index towards the leader's.
    pub fn process_append_entries_request(&mut self, request: AppendEntriesRequest) -> (r:
        RaftResult<AppendEntriesResponse>)
        requires
            node_wf(*old(self)),
            last_index(old(self).log@) + request.entries@.len() + 1 < u64::MAX,
        ensures
            node_wf(*final(self)),
            only_log_changed(*final(self), *old(self)),
            append_processed(
                old(self).log@,
                request,
                old(self).state.persistent.current_term,
                old(self).config.node_id,
                final(self).log@,
                r,
            ),
    {
        let ghost v = self.log@;
        let term = self.state.current_term();
        let node_id = self.config.node_id;
        let last = self.log.last_log_index();
        if request.prev_log_index > 0 {
            if request.prev_log_index > last {
                return Ok(
                    AppendEntriesResponse::failure(
                        request.message_id,
                        term,
                        node_id,
                        Some(last + 1),
                        Some("Log too short".to_owned()),
                    ),
                );
            }
            if !self.log.matches(request.prev_log_index, request.prev_log_term) {
                let next_index = self.find_next_index(request.prev_log_index, request.prev_log_term);
                return Ok(
                    AppendEntriesResponse::failure(
                        request.message_id,
                        term,
                        node_id,
                        Some(next_index),
                        Some("Log inconsistency".to_owned()),
                    ),
                );
            }
        }
        let ghost ents = entry_views(request.entries@);
        let ghost c_spec = conflict_scan(v, request.prev_log_index as int, ents, 0);
        if request.entries.len() > 0 {
            let conflict = self.find_conflict(request.prev_log_index, &request.entries);
            proof {
                lemma_conflict_scan_bounds(v, request.prev_log_index as int, ents, 0);
            }
            match conflict {
                Some(index) => {
                    match self.log.truncate_from(index) {
                        Ok(()) => {},
                        Err(e) => {
                            proof {
                                assert(c_spec == Some(index as int));
                                assert(append_outcome(v, request) is None);
                            }
                            return Err(e);
                        },
                    }
                },
                None => {},
            }
            let ghost l1 = self.log@;
            proof {
                assert(l1 == log_after_conflict(v, c_spec));
            }
            let start = match conflict {
                Some(index) => index,
                None => last + 1,
            };
            let skip = start - request.prev_log_index - 1;
            let n = request.entries.len();
            proof {
                assert(append_start(v, c_spec) == start);
            }
            if skip < n as u64 {
                let res = self.log.append_slice_from(&request.entries, skip as usize);
                proof {
                    assert(new_entries(v, request.prev_log_index as int, ents, c_spec) == ents.skip(
                        skip as int,
                    ));
                }
                match res {
                    Ok(()) => {},
                    Err(e) => {
                        proof {
                            let add = new_entries(v, request.prev_log_index as int, ents, c_spec);
                            let k = consecutive_prefix(add, last_index(l1) + 1);
                            lemma_consecutive_prefix_bounds(add, last_index(l1) + 1);
                            assert(k < add.len());
                            assert(self.log@ == LogView { entries: l1.entries + add.take(k), ..l1 });
                        }
                        return Err(e);
                    },
                }
            } else {
                proof {
                    let l1 = log_after_conflict(v, c_spec);
                    assert(new_entries(v, request.prev_log_index as int, ents, c_spec)
                        =~= Seq::<LogEntryView>::empty());
                    assert(l1.entries + Seq::<LogEntryView>::empty() =~= l1.entries);
                }
            }
        } else {
            proof {
                assert(c_spec is None);
                assert(new_entries(v, request.prev_log_index as int, ents, c_spec)
                    =~= Seq::<LogEntryView>::empty());
                assert(v.entries + Seq::<LogEntryView>::empty().take(0) =~= v.entries);
            }
        }
        let commit = self.log.commit_index();
        if request.leader_commit > commit {
            let last_now = self.log.last_log_index();
            let new_commit = if request.leader_commit < last_now {
                request.leader_commit
            } else {
                last_now
            };
            match self.log.set_commit_index(new_commit) {
                Ok(()) => {},
                Err(e) => {
                    return Err(e);
                },
            }
        }
        Ok(AppendEntriesResponse::success(request.message_id, term, node_id))
    }

    /// A node for `config`, refused when the configuration breaks a rule: a
    /// follower in term 0 with an empty log and no timer armed.
    pub fn new(config: RaftConfig) -> (r: RaftResult<RaftNode>)
        requires
            config.peers@.len() < usize::MAX,
        ensures
            r is Ok <==> config_problem(config@) is None,
            r is Err ==> r->Err_0 is ConfigurationError && r->Err_0->ConfigurationError_message@
                == config_problem(config@)->0,
            r matches Ok(n) ==> {
                &&& node_wf(n)
                &&& n.config@ == config@
                &&& n.state.node_id == config.node_id
                &&& n.state.state == NodeState::Follower
                &&& n.state.persistent == (PersistentState { current_term: 0, voted_for: None })
                &&& n.state.volatile == (VolatileState { commit_index: 0, last_applied: 0 })
                &&& n.log@ == empty_log()
                &&& n.election_timeout is None
                &&& !n.heartbeat_timer_running
            },
    {
        match config.validate() {
            Ok(()) => {},
            Err(e) => {
                return Err(e);
            },
        }
        let state = RaftState::new(config.node_id);
        let log = Log::new();
        Ok(RaftNode { config, state, log, election_timeout: None, heartbeat_timer_running: false })
    }

    /// Arms the election timeout with a fresh random value.
    pub fn reset_election_timeout(&mut self)
        requires
            node_wf(*old(self)),
        ensures
            node_wf(*final(self)),
            *final(self) == (RaftNode { election_timeout: final(self).election_timeout, ..*old(self) }),
            final(self).election_timeout matches Some(t) && old(self).config.election_timeout_min <= t
                <= old(self).config.election_timeout_max,
    {
        let t = self.config.random_election_timeout();
        self.election_timeout = Some(t);
    }

    /// Starts the heartbeat timer.
    pub fn start_heartbeat_timer(&mut self)
        ensures
            *final(self) == (RaftNode { heartbeat_timer_running: true, ..*old(self) }),
    {
        self.heartbeat_timer_running = true;
    }

    /// Stops the heartbeat timer.
    pub fn stop_heartbeat_timer(&mut self)
        ensures
            *final(self) == (RaftNode { heartbeat_timer_running: false, ..*old(self) }),
    {
        self.heartbeat_timer_running = false;
    }

    /// Records `leader_id` as the leader known to the follower bookkeeping,
    /// when there is such bookkeeping.
    fn note_leader(&mut self, leader_id: u64)
        ensures
            final(self).config == old(self).config,
            final(self).log == old(self).log,
            final(self).election_timeout == old(self).election_timeout,
            final(self).heartbeat_timer_running == old(self).heartbeat_timer_running,
            final(self).state == (RaftState {
                follower_state: final(self).state.follower_state,
                ..old(self).state
            }),
            final(self).state.follower_state is Some == old(self).state.follower_state is Some,
            final(self).state.follower_state matches Some(f) ==> f.leader_id == Some(leader_id),
    {
        match self.state.follower_state {
            Some(f) => {
                let mut g = f;
                g.update_leader(leader_id);
                self.state.follower_state = Some(g);
            },
            None => {},
        }
    }

    /// Handles an AppendEntries request (or heartbeat) from `sender`: a newer
    /// term is adopted; a request of an older term is refused with "Stale
    /// term"; otherwise the node follows the sender, processes the request,
    /// answers and rearms its election timeout.
    pub fn handle_append_entries_request(
        &mut self,
        sender: u64,
        request: AppendEntriesRequest,
    ) -> (r: RaftResult<Outbox>)
        requires
            node_wf(*old(self)),
            last_index(old(self).log@) + request.entries@.len() + 1 < u64::MAX,
        ensures
            append_request_handled(*old(self), *final(self), sender, request, r),
    {
        let current = self.state.current_term();
        if request.term > current {
            let _ = self.state.update_term(request.term);
            let t = self.config.random_election_timeout();
            self.state.become_follower(request.term, t);
        }
        if request.term < current {
            let response = AppendEntriesResponse::failure(
                request.message_id,
                current,
                self.config.node_id,
                None,
                Some("Stale term".to_owned()),
            );
            let mut out = Outbox::empty();
            out.messages.push((sender, Message::AppendEntriesResponse(response)));
            return Ok(out);
        }
        if !self.state.is_follower() {
            let t = self.config.random_election_timeout();
            self.state.become_follower(request.term, t);
        }
        self.note_leader(request.leader_id);
        let ghost before = *self;
        let response = match self.process_append_entries_request(request) {
            Ok(resp) => resp,
            Err(e) => {
                return Err(e);
            },
        };
        let mut out = Outbox::empty();
        out.messages.push((sender, Message::AppendEntriesResponse(response)));
        self.reset_election_timeout();
        Ok(out)
    }

    /// Handles a response to an AppendEntries request sent to `sender`. Only
    /// a leader acts on it: a newer term makes it follow; a response of an
    /// older term is ignored; otherwise the pending request to `sender` is
    /// settled and, on success, the peer's match index moves to its next
    /// index and the commit index follows the majority; on failure the
    /// peer's next index moves to the hint given, or one back (never below 1).
    pub fn handle_append_entries_response(&mut self, sender: u64, response: AppendEntriesResponse) -> (r:
        RaftResult<()>)
        requires
            node_wf(*old(self)),
            old(self).state.leader_state matches Some(l) ==> (l.next_index@.contains_key(sender)
                ==> 0 < l.next_index@[sender] < u64::MAX),
        ensures
            append_response_handled(*old(self), *final(self), sender, response, r),
    {
        if !self.state.is_leader() {
            return Ok(());
        }
        let current_term = self.state.current_term();
        if response.term > current_term {
            let _ = self.state.update_term(response.term);
            let t = self.config.random_election_timeout();
            self.state.become_follower(response.term, t);
            return Ok(());
        }
        if response.term < current_term {
            return Ok(());
        }
        let current_commit = self.state.commit_index();
        let mut leader_state = match self.state.leader_state.take() {
            Some(l) => l,
            None => {
                return Ok(());
            },
        };
        let _ = leader_state.remove_pending_response(sender);
        if response.success {
            let match_index = match leader_state.next_index.get(&sender) {
                Some(n) => *n,
                None => 0,
            };
            leader_state.update_match_index(sender, match_index);
            let quorum = self.config.quorum_size();
            let new_commit = leader_state.calculate_commit_index(current_commit, quorum);
            self.state.leader_state = Some(leader_state);
            if new_commit > current_commit {
                self.state.set_commit_index(new_commit);
            }
        } else {
            match response.next_index {
                Some(next_index) => {
                    leader_state.update_next_index(sender, next_index);
                },
                None => {
                    let current_next = match leader_state.next_index.get(&sender) {
                        Some(n) => *n,
                        None => 1,
                    };
                    let lowered = if current_next > 1 {
                        current_next - 1
                    } else {
                        1
                    };
                    leader_state.update_next_index(sender, lowered);
                },
            }
            self.state.leader_state = Some(leader_state);
        }
        Ok(())
    }

    /// Whether this node grants the vote asked by `request`.
    pub fn should_grant_vote(&self, request: &VoteRequest) -> (r: bool)
        requires
            log_wf(self.log@),
        ensures
            r == grants_vote(
                self.state.persistent.current_term,
                self.state.persistent.voted_for,
                self.log@,
                *request,
            ),
    {
        if request.term < self.state.current_term() {
            return false;
        }
        if !self.state.can_vote_for(request.candidate_id) {
            return false;
        }
        let our_last_log_term = self.log.last_log_term();
        let our_last_log_index = self.log.last_log_index();
        if request.last_log_term > our_last_log_term {
            return true;
        }
        request.last_log_term == our_last_log_term && request.last_log_index >= our_last_log_index
    }

    /// Why this node denies the vote asked by `request`.
    pub fn vote_denial_reason(&self, request: &VoteRequest) -> (r: String)
        ensures
            r@ == denial_reason(
                self.state.persistent.current_term,
                self.state.persistent.voted_for,
                *request,
            ),
    {
        if request.term < self.state.current_term() {
            return "Stale term".to_owned();
        }
        if !self.state.can_vote_for(request.candidate_id) {
            return "Already voted".to_owned();
        }
        "Candidate log not up-to-date".to_owned()
    }

    /// Handles a vote request from `sender`: a newer term is adopted (the
    /// node follows and rearms its election timeout); then the vote is
    /// granted, and recorded unless it is a pre-vote, when the request is
    /// not stale, the node has not voted for another candidate and the
    /// candidate's log is at least as up to date; else it is denied with
    /// the reason.
    pub fn handle_vote_request(&mut self, sender: u64, request: VoteRequest) -> (r: RaftResult<
        Outbox,
    >)
        requires
            node_wf(*old(self)),
        ensures
            vote_request_handled(*old(self), *final(self), sender, request, r),
    {
        let mut should_reset = false;
        if request.term > self.state.current_term() {
            let _ = self.state.update_term(request.term);
            let t = self.config.random_election_timeout();
            self.state.become_follower(request.term, t);
            should_reset = true;
        }
        let response = if self.should_grant_vote(&request) {
            if !request.pre_vote {
                match self.state.vote_for(request.candidate_id) {
                    Ok(()) => {},
                    Err(e) => {
                        return Err(e);
                    },
                }
            }
            VoteResponse::granted(request.message_id, self.state.current_term(), self.config.node_id)
        } else {
            let reason = self.vote_denial_reason(&request);
            VoteResponse::denied(
                request.message_id,
                self.state.current_term(),
                self.config.node_id,
                reason,
            )
        };
        let mut out = Outbox::empty();
        out.messages.push((sender, Message::VoteResponse(response)));
        if should_reset {
            self.reset_election_timeout();
        }
        Ok(out)
    }

    /// Sends `peer` the entries from its next index on (a heartbeat when
    /// there are none), and records the request as pending and the
    /// heartbeat as sent.
    pub fn send_append_entries_to_peer(&mut self, peer: u64) -> (r: RaftResult<Outbox>)
        requires
            node_wf(*old(self)),
            old(self).state.state == NodeState::Leader,
        ensures
            node_wf(*final(self)),
            final(self).config == old(self).config,
            final(self).log == old(self).log,
            final(self).election_timeout == old(self).election_timeout,
            final(self).heartbeat_timer_running == old(self).heartbeat_timer_running,
            final(self).state == (RaftState {
                leader_state: final(self).state.leader_state,
                ..old(self).state
            }),
            ({
                let v = old(self).log@;
                let l = old(self).state.leader_state->0;
                let next = next_for(l, peer);
                let prev = prev_of(next);
                let ents = entries_to_send(v, next, old(self).config.max_entries_per_request);
                &&& term_at(v, prev as int) is None ==> r == Err::<Outbox, RaftError>(
                    RaftError::LogEntryNotFound { index: prev },
                ) && *final(self) == *old(self)
                &&& term_at(v, prev as int) is Some && next <= last_index(v) && next < v.first_index
                    ==> r == Err::<Outbox, RaftError>(RaftError::LogEntryNotFound { index: next })
                    && *final(self) == *old(self)
                &&& term_at(v, prev as int) is Some && !(next <= last_index(v) && next
                    < v.first_index) ==> {
                    let nl = final(self).state.leader_state->0;
                    &&& r is Ok
                    &&& sole_message(r->Ok_0, peer) matches Some(m) && is_append_request(
                        m,
                        old(self).state.persistent.current_term,
                        old(self).config.node_id,
                        prev,
                        term_at(v, prev as int)->0,
                        ents,
                        v.commit_index,
                    )
                    &&& nl.next_index@ == l.next_index@
                    &&& nl.match_index@ == l.match_index@
                    &&& nl.pending_responses@.contains_key(peer)
                    &&& nl.pending_responses@[peer].last_entry_index == prev + ents.len()
                    &&& nl.pending_responses@.remove(peer) == l.pending_responses@.remove(peer)
                    &&& nl.last_heartbeat@.dom() == l.last_heartbeat@.dom().insert(peer)
                }
            }),
    {
        let ghost v = self.log@;
        let mut leader_state = match self.state.leader_state.take() {
            Some(l) => l,
            None => {
                return Ok(Outbox::empty());
            },
        };
        let next_index = match leader_state.next_index.get(&peer) {
            Some(n) => *n,
            None => 1,
        };
        let prev_log_index = if next_index > 1 {
            next_index - 1
        } else {
            0
        };
        let prev_log_term = if prev_log_index > 0 {
            match self.log.get_term(prev_log_index) {
                Ok(t) => t,
                Err(e) => {
                    self.state.leader_state = Some(leader_state);
                    return Err(e);
                },
            }
        } else {
            0
        };
        let last = self.log.last_log_index();
        let entries = if next_index <= last {
            let room = last - next_index + 1;
            let max_entries = if (self.config.max_entries_per_request as u64) < room {
                self.config.max_entries_per_request
            } else {
                room as usize
            };
            match self.log.get_entries_from(next_index, max_entries) {
                Ok(es) => es,
                Err(e) => {
                    self.state.leader_state = Some(leader_state);
                    return Err(e);
                },
            }
        } else {
            let es: Vec<LogEntry> = Vec::new();
            proof {
                assert(entry_views(es@) =~= Seq::<LogEntryView>::empty());
            }
            es
        };
        proof {
            assert(entry_views(entries@).len() == entries@.len());
            assert(prev_log_index + entries@.len() <= last_index(v));
        }
        let count = entries.len() as u64;
        let request = AppendEntriesRequest::new(
            self.state.current_term(),
            self.config.node_id,
            prev_log_index,
            prev_log_term,
            entries,
            self.log.commit_index(),
        );
        leader_state.add_pending_response(peer, prev_log_index + count);
        leader_state.record_heartbeat(peer);
        self.state.leader_state = Some(leader_state);
        let mut out = Outbox::empty();
        out.messages.push((peer, Message::AppendEntriesRequest(request)));
        Ok(out)
    }

    /// As leader, sends AppendEntries to every peer that needs contact: a
    /// heartbeat is due or no request is pending. Does nothing otherwise.
    pub fn send_heartbeats(&mut self) -> (r: RaftResult<Outbox>)
        requires
            node_wf(*old(self)),
        ensures
            heartbeats_sent(*old(self), *final(self), r),
    {
        let peers = match &self.state.leader_state {
            Some(l) => l.peers_needing_entries(self.config.heartbeat_interval),
            None => {
                return Ok(Outbox::empty());
            },
        };
        let ghost l = self.state.leader_state->0;
        let mut out = Outbox::empty();
        let mut i: usize = 0;
        while i < peers.len()
            invariant
                node_wf(*self),
                old(self).state.state == NodeState::Leader,
                self.config == old(self).config,
                self.log == old(self).log,
                self.election_timeout == old(self).election_timeout,
                self.heartbeat_timer_running == old(self).heartbeat_timer_running,
                self.state == (RaftState { leader_state: self.state.leader_state, ..old(self).state }),
                self.state.leader_state->0.next_index@ == l.next_index@,
                self.state.leader_state->0.match_index@ == l.match_index@,
                l == old(self).state.leader_state->0,
                i <= peers.len(),
                out.client_responses@.len() == 0,
                out.messages@.len() == i,
                forall|j: int| 0 <= j < peers@.len() ==> l.next_index@.contains_key(#[trigger] peers@[j]),
                forall|p: u64| #[trigger] l.next_index@.contains_key(p)
                    && !l.pending_responses@.contains_key(p) ==> peers@.contains(p),
                forall|j: int|
                    0 <= j < i ==> #[trigger] out.messages@[j].0 == peers@[j]
                        && is_request_of(
                        out.messages@[j].1,
                        old(self).state.persistent.current_term,
                        old(self).config.node_id,
                    ),
            decreases peers.len() - i,
        {
            let peer = peers[i];
            let sent = self.send_append_entries_to_peer(peer);
            match sent {
                Ok(o) => {
                    let mut o = o;
                    proof {
                        assert(o.messages@.len() == 1);
                    }
                    let m = o.messages.pop().unwrap();
                    out.messages.push(m);
                },
                Err(e) => {
                    return Err(e);
                },
            }
            i = i + 1;
        }
        proof {
            assert forall|p: u64|
                l.next_index@.contains_key(p) && !l.pending_responses@.contains_key(p) implies exists|
                i: int,
            | 0 <= i < out.messages@.len() && #[trigger] out.messages@[i].0 == p by {
                assert(peers@.contains(p));
                let j = choose|j: int| 0 <= j < peers@.len() && peers@[j] == p;
                assert(out.messages@[j].0 == p);
            }
        }
        Ok(out)
    }

    /// Starts an election: moves to the next term as a candidate that votes
    /// for itself, and asks every peer for its vote.
    pub fn start_election(&mut self) -> (r: RaftResult<Outbox>)
        requires
            node_wf(*old(self)),
            old(self).state.persistent.current_term < u64::MAX,
        ensures
            node_wf(*final(self)),
            final(self).config == old(self).config,
            final(self).log == old(self).log,
            final(self).election_timeout == old(self).election_timeout,
            final(self).heartbeat_timer_running == old(self).heartbeat_timer_running,
            final(self).state.node_id == old(self).state.node_id,
            final(self).state.volatile == old(self).state.volatile,
            final(self).state.state == NodeState::Candidate,
            final(self).state.persistent == (PersistentState {
                current_term: (old(self).state.persistent.current_term + 1) as u64,
                voted_for: Some(old(self).state.node_id),
            }),
            final(self).state.candidate_state->0.votes_received@ == Set::<u64>::empty(),
            r is Ok,
            r->Ok_0.client_responses@.len() == 0,
            vote_requests_sent(
                r->Ok_0,
                old(self).config.peers@,
                (old(self).state.persistent.current_term + 1) as u64,
                old(self).config.node_id,
                last_index(old(self).log@) as u64,
                last_term(old(self).log@),
            ),
    {
        let t = self.config.random_election_timeout();
        let _ = self.state.become_candidate(t, false);
        let vote_request = VoteRequest::new(
            self.state.current_term(),
            self.config.node_id,
            self.log.last_log_index(),
            self.log.last_log_term(),
            false,
        );
        let mut out = Outbox::empty();
        let n = self.config.peers.len();
        let mut i: usize = 0;
        while i < n
            invariant
                i <= n,
                n == self.config.peers@.len(),
                self.config == old(self).config,
                is_vote_request(
                    Message::VoteRequest(vote_request),
                    (old(self).state.persistent.current_term + 1) as u64,
                    old(self).config.node_id,
                    last_index(old(self).log@) as u64,
                    last_term(old(self).log@),
                ),
                out.client_responses@.len() == 0,
                out.messages@.len() == i,
                forall|j: int|
                    0 <= j < i ==> #[trigger] out.messages@[j].0 == self.config.peers@[j]
                        && out.messages@[j].1 == Message::VoteRequest(vote_request),
            decreases n - i,
        {
            out.messages.push((self.config.peers[i], Message::VoteRequest(vote_request)));
            i = i + 1;
        }
        proof {
            assert(vote_requests_sent(
                out,
                old(self).config.peers@,
                (old(self).state.persistent.current_term + 1) as u64,
                old(self).config.node_id,
                last_index(old(self).log@) as u64,
                last_term(old(self).log@),
            ));
        }
        Ok(out)
    }

    /// Handles the election timeout: a leader ignores it; a follower whose
    /// leader made contact within its timeout ignores it too; otherwise the
    /// node starts an election and rearms the timeout.
    pub fn handle_election_timeout(&mut self) -> (r: RaftResult<Outbox>)
        requires
            node_wf(*old(self)),
            old(self).state.persistent.current_term < u64::MAX,
        ensures
            election_timeout_handled(*old(self), *final(self), r),
    {
        if self.state.is_leader() {
            return Ok(Outbox::empty());
        }
        if self.state.is_follower() {
            match self.state.follower_state {
                Some(f) => {
                    if !f.has_election_timeout() {
                        return Ok(Outbox::empty());
                    }
                },
                None => {},
            }
        }
        let out = self.start_election();
        self.reset_election_timeout();
        out
    }

    /// Handles a vote response from `sender`. Only a candidate acts on it:
    /// a newer term makes it follow and rearm its election timeout; a
    /// response of an older term is ignored; a granted vote is counted and,
    /// with a majority, the node becomes leader, starts its heartbeat timer
    /// and contacts every peer.
    pub fn handle_vote_response(&mut self, sender: u64, response: VoteResponse) -> (r: RaftResult<
        Outbox,
    >)
        requires
            node_wf(*old(self)),
        ensures
            vote_response_handled(*old(self), *final(self), sender, response, r),
    {
        if !self.state.is_candidate() {
            return Ok(Outbox::empty());
        }
        let current = self.state.current_term();
        if response.term > current {
            let _ = self.state.update_term(response.term);
            let t = self.config.random_election_timeout();
            self.state.become_follower(response.term, t);
            self.reset_election_timeout();
            return Ok(Outbox::empty());
        }
        if response.term < current || !response.vote_granted {
            return Ok(Outbox::empty());
        }
        let mut candidate = match self.state.candidate_state.take() {
            Some(c) => c,
            None => {
                return Ok(Outbox::empty());
            },
        };
        candidate.add_vote(sender);
        let won = candidate.has_majority(self.config.cluster_size());
        self.state.candidate_state = Some(candidate);
        if !won {
            return Ok(Outbox::empty());
        }
        let last = self.log.last_log_index();
        match self.state.become_leader(self.config.peers.as_slice(), last) {
            Ok(()) => {},
            Err(e) => {
                return Err(e);
            },
        }
        self.start_heartbeat_timer();
        let ghost l = self.state.leader_state->0;
        let sent = self.send_heartbeats();
        proof {
            if sent is Ok {
                let o = sent->Ok_0;
                assert forall|p: u64|
                    #![trigger old(self).config.peers@.contains(p)]
                    old(self).config.peers@.contains(p) implies exists|i: int|
                        0 <= i < o.messages@.len() && #[trigger] o.messages@[i].0 == p by {
                    assert(l.next_index@.contains_key(p));
                    assert(!l.pending_responses@.contains_key(p));
                }
            }
        }
        sent
    }

    /// Handles a client request. A write reaches only a leader: elsewhere it
    /// is refused with "Not leader" and the known leader as a hint. A
    /// read-only request is answered at once. A leader appends a write as a
    /// command of its term at the end of its log; the answer comes once it is
    /// applied.
    pub fn handle_client_request(&mut self, request: ClientRequest) -> (r: RaftResult<Outbox>)
        requires
            node_wf(*old(self)),
            last_index(old(self).log@) + 1 < u64::MAX,
        ensures
            client_request_handled(*old(self), *final(self), request, r),
    {
        if !self.state.is_leader() && !request.read_only {
            let leader_hint = match self.state.follower_state {
                Some(f) => f.leader_id,
                None => None,
            };
            let response = ClientResponse::failure(
                request.message_id,
                "Not leader".to_owned(),
                leader_hint,
            );
            let mut out = Outbox::empty();
            out.client_responses.push(response);
            return Ok(out);
        }
        if request.read_only {
            let data: Vec<u8> = vec![114u8, 101, 97, 100, 45, 111, 110, 108, 121];
            proof {
                assert(data@ =~= read_only_bytes());
            }
            let response = ClientResponse::success(request.message_id, Some(data));
            let mut out = Outbox::empty();
            out.client_responses.push(response);
            return Ok(out);
        }
        let term = self.state.current_term();
        let index = self.log.last_log_index() + 1;
        let entry = LogEntry::new_command(term, index, request.command);
        let _ = self.log.append_entry(entry);
        Ok(Outbox::empty())
    }

    /// Installs a snapshot sent by the leader once its last chunk has come:
    /// the state machine restores it, the log drops the entries it covers and
    /// both positions move to its last index.
    pub fn process_install_snapshot_request<S: StateMachine>(
        &mut self,
        state_machine: &mut S,
        request: InstallSnapshotRequest,
    ) -> (r: RaftResult<InstallSnapshotResponse>)
        requires
            node_wf(*old(self)),
        ensures
            node_wf(*final(self)),
            only_log_changed(*final(self), *old(self)),
            ({
                let v = old(self).log@;
                let idx = request.last_included_index;
                &&& !request.done ==> r is Ok && final(self).log@ == v
                &&& r is Ok ==> {
                    &&& r->Ok_0.message_id == request.message_id
                    &&& r->Ok_0.term == old(self).state.persistent.current_term
                    &&& r->Ok_0.node_id == old(self).config.node_id
                    &&& r->Ok_0.success
                    &&& request.done ==> idx <= last_index(v) && idx >= v.commit_index
                        && final(self).log@ == snapshot_installed(v, idx)
                }
                &&& r is Err ==> request.done && (final(self).log@ == v || (idx <= last_index(v)
                    && idx < v.commit_index && final(self).log@ == snapshot_compacted(v, idx)))
            }),
    {
        if request.done {
            match state_machine.restore_from_snapshot(request.data.as_slice()) {
                Ok(()) => {},
                Err(e) => {
                    return Err(e);
                },
            }
            let idx = request.last_included_index;
            match self.log.compact(idx) {
                Ok(()) => {},
                Err(e) => {
                    return Err(e);
                },
            }
            match self.log.set_commit_index(idx) {
                Ok(()) => {},
                Err(e) => {
                    return Err(e);
                },
            }
            match self.log.set_last_applied(idx) {
                Ok(()) => {},
                Err(e) => {
                    return Err(e);
                },
            }
        }
        Ok(
            InstallSnapshotResponse::success(
                request.message_id,
                self.state.current_term(),
                self.config.node_id,
            ),
        )
    }

    /// Handles a snapshot sent by `sender`: a newer term makes the node follow
    /// and rearm its election timeout, without answering; a request of an
    /// older term is refused with "Stale term"; otherwise the node notes the
    /// leader, installs the snapshot, answers and rearms its timeout.
    pub fn handle_install_snapshot_request<S: StateMachine>(
        &mut self,
        state_machine: &mut S,
        sender: u64,
        request: InstallSnapshotRequest,
    ) -> (r: RaftResult<Outbox>)
        requires
            node_wf(*old(self)),
        ensures
            snapshot_request_handled(*old(self), *final(self), sender, request, r),
    {
        let current = self.state.current_term();
        if request.term > current {
            let _ = self.state.update_term(request.term);
            let t = self.config.random_election_timeout();
            self.state.become_follower(request.term, t);
            self.reset_election_timeout();
            return Ok(Outbox::empty());
        }
        if request.term < current {
            let response = InstallSnapshotResponse::failure(
                request.message_id,
                current,
                self.config.node_id,
                "Stale term".to_owned(),
            );
            let mut out = Outbox::empty();
            out.messages.push((sender, Message::InstallSnapshotResponse(response)));
            return Ok(out);
        }
        self.note_leader(request.leader_id);
        let response = match self.process_install_snapshot_request(state_machine, request) {
            Ok(resp) => resp,
            Err(e) => {
                return Err(e);
            },
        };
        let mut out = Outbox::empty();
        out.messages.push((sender, Message::InstallSnapshotResponse(response)));
        self.reset_election_timeout();
        Ok(out)
    }

    /// Handles a response to a snapshot sent to `sender`. Only a leader acts
    /// on it: a newer term makes it follow and rearm its election timeout; a
    /// success resets the peer's match index to 0 and its next index to 1.
    pub fn handle_install_snapshot_response(
        &mut self,
        sender: u64,
        response: InstallSnapshotResponse,
    ) -> (r: RaftResult<()>)
        requires
            node_wf(*old(self)),
        ensures
            snapshot_response_handled(*old(self), *final(self), sender, response, r),
    {
        if !self.state.is_leader() {
            return Ok(());
        }
        let current = self.state.current_term();
        if response.term > current {
            let _ = self.state.update_term(response.term);
            let t = self.config.random_election_timeout();
            self.state.become_follower(response.term, t);
            self.reset_election_timeout();
            return Ok(());
        }
        if response.success {
            let mut leader_state = match self.state.leader_state.take() {
                Some(l) => l,
                None => {
                    return Ok(());
                },
            };
            leader_state.update_match_index(sender, 0);
            leader_state.update_next_index(sender, 1);
            proof {
                assert(leader_state.next_index@ =~= old(self).state.leader_state->0.next_index@.insert(
                    sender,
                    1,
                ));
            }
            self.state.leader_state = Some(leader_state);
        }
        Ok(())
    }

    /// Feeds the state machine the entries committed but not yet applied,
    /// in order, and moves the apply position past them.
    pub fn apply_committed_entries<S: StateMachine>(&mut self, state_machine: &mut S) -> (r:
        RaftResult<()>)
        requires
            node_wf(*old(self)),
        ensures
            entries_applied(*old(self), *final(self), r),
    {
        let last_applied = self.state.last_applied();
        let commit_index = self.state.commit_index();
        if last_applied >= commit_index {
            return Ok(());
        }
        let entries = match self.log.get_entries(last_applied + 1, commit_index) {
            Ok(es) => es,
            Err(e) => {
                return Err(e);
            },
        };
        let ghost ents = entry_views(entries@);
        let mut new_last_applied = last_applied;
        let mut i: usize = 0;
        while i < entries.len()
            invariant
                i <= entries.len(),
                *self == *old(self),
                node_wf(*old(self)),
                last_applied == old(self).state.volatile.last_applied,
                commit_index == old(self).state.volatile.commit_index,
                last_applied < commit_index,
                last_applied + 1 >= old(self).log@.first_index,
                ents == entry_views(entries@),
                new_last_applied == applied_through(last_applied, ents.take(i as int)),
            decreases entries.len() - i,
        {
            match state_machine.apply(&entries[i]) {
                Ok(_) => {},
                Err(e) => {
                    return Err(e);
                },
            }
            new_last_applied = entries[i].index;
            proof {
                assert(ents.take(i + 1).last() == ents[i as int]);
            }
            i = i + 1;
        }
        proof {
            assert(ents.take(entries.len() as int) =~= ents);
        }
        self.state.set_last_applied(new_last_applied);
        self.log.set_last_applied(new_last_applied)
    }

    /// Handles a message from `sender`: messages from nodes outside the
    /// cluster, and client traffic, are ignored; the others go to their
    /// handler (a heartbeat is an AppendEntries request).
    pub fn handle_message<S: StateMachine>(
        &mut self,
        state_machine: &mut S,
        sender: u64,
        message: Message,
    ) -> (r: RaftResult<Outbox>)
        requires
            node_wf(*old(self)),
            old(self).state.persistent.current_term < u64::MAX,
            message matches Message::AppendEntriesRequest(req) ==> last_index(old(self).log@)
                + req.entries@.len() + 1 < u64::MAX,
            message matches Message::Heartbeat(req) ==> last_index(old(self).log@)
                + req.entries@.len() + 1 < u64::MAX,
            old(self).state.leader_state matches Some(l) ==> (l.next_index@.contains_key(sender)
                ==> 0 < l.next_index@[sender] < u64::MAX),
        ensures
            message_handled(*old(self), *final(self), sender, message, r),
    {
        if !self.config.is_member(sender) {
            return Ok(Outbox::empty());
        }
        match message {
            Message::AppendEntriesRequest(request) => self.handle_append_entries_request(sender, request),
            Message::Heartbeat(request) => self.handle_append_entries_request(sender, request),
            Message::AppendEntriesResponse(response) => {
                match self.handle_append_entries_response(sender, response) {
                    Ok(()) => Ok(Outbox::empty()),
                    Err(e) => Err(e),
                }
            },
            Message::VoteRequest(request) => self.handle_vote_request(sender, request),
            Message::VoteResponse(response) => self.handle_vote_response(sender, response),
            Message::InstallSnapshotRequest(request) => self.handle_install_snapshot_request(
                state_machine,
                sender,
                request,
            ),
            Message::InstallSnapshotResponse(response) => {
                match self.handle_install_snapshot_response(sender, response) {
                    Ok(()) => Ok(Outbox::empty()),
                    Err(e) => Err(e),
                }
            },
            _ => Ok(Outbox::empty()),
        }
    }

    /// One turn of the node's event loop: what the node does with `event`.
    /// Shutdown stops the loop; every other event is handled by its handler
    /// and the loop goes on, delivering what the handler returns. An error
    /// of a handler does not stop the loop: nothing is delivered for it.
    /// The heartbeat timer and the election timeout fire only while they
    /// are armed.
    pub fn step<S: StateMachine>(&mut self, state_machine: &mut S, event: NodeEvent) -> (r:
        StepOutcome)
        requires
            node_wf(*old(self)),
            old(self).state.persistent.current_term < u64::MAX,
            event matches NodeEvent::Incoming { sender, message } ==> ({
                &&& message matches Message::AppendEntriesRequest(req) ==> last_index(old(self).log@)
                    + req.entries@.len() + 1 < u64::MAX
                &&& message matches Message::Heartbeat(req) ==> last_index(old(self).log@)
                    + req.entries@.len() + 1 < u64::MAX
                &&& old(self).state.leader_state matches Some(l) ==> (l.next_index@.contains_key(sender)
                    ==> 0 < l.next_index@[sender] < u64::MAX)
            }),
            event is Client ==> last_index(old(self).log@) + 1 < u64::MAX,
        ensures
            node_wf(*final(self)),
            final(self).config == old(self).config,
            event is Shutdown <==> r is Stop,
            event is Shutdown ==> *final(self) == *old(self),
            event is Incoming ==> final(self).state.persistent.current_term
                >= old(self).state.persistent.current_term,
            event is Client ==> final(self).state == old(self).state,
            event is HeartbeatTick && (!old(self).heartbeat_timer_running || old(self).state.state
                != NodeState::Leader) ==> *final(self) == *old(self) && (r matches StepOutcome::Continue(o)
                && o.messages@.len() == 0 && o.client_responses@.len() == 0),
            event is ElectionTimeout && (old(self).election_timeout is None || old(self).state.state
                == NodeState::Leader) ==> *final(self) == *old(self) && (r matches StepOutcome::Continue(o)
                && o.messages@.len() == 0 && o.client_responses@.len() == 0),
            event matches NodeEvent::Incoming { sender, message } ==> exists|h: RaftResult<Outbox>|
                #[trigger] message_handled(*old(self), *final(self), sender, message, h) && delivers(r, h),
            event matches NodeEvent::Client(request) ==> exists|h: RaftResult<Outbox>|
                #[trigger] client_request_handled(*old(self), *final(self), request, h) && delivers(r, h),
            event is HeartbeatTick && old(self).heartbeat_timer_running ==> exists|h: RaftResult<Outbox>|
                #[trigger] heartbeats_sent(*old(self), *final(self), h) && delivers(r, h),
            event is ElectionTimeout && old(self).election_timeout is Some ==> exists|
                h: RaftResult<Outbox>,
            | #[trigger] election_timeout_handled(*old(self), *final(self), h) && delivers(r, h),
            event is ApplyTick ==> exists|h: RaftResult<()>| #[trigger]
                entries_applied(*old(self), *final(self), h) && (r matches StepOutcome::Continue(o)
                && o.messages@.len() == 0 && o.client_responses@.len() == 0),
    {
        let handled = match event {
            NodeEvent::Shutdown => {
                return StepOutcome::Stop;
            },
            NodeEvent::Incoming { sender, message } => self.handle_message(state_machine, sender, message),
            NodeEvent::Client(request) => self.handle_client_request(request),
            NodeEvent::HeartbeatTick => {
                if self.heartbeat_timer_running {
                    self.send_heartbeats()
                } else {
                    Ok(Outbox::empty())
                }
            },
            NodeEvent::ElectionTimeout => {
                if self.election_timeout.is_some() {
                    self.handle_election_timeout()
                } else {
                    Ok(Outbox::empty())
                }
            },
            NodeEvent::ApplyTick => match self.apply_committed_entries(state_machine) {
                Ok(()) => Ok(Outbox::empty()),
                Err(e) => Err(e),
            },
        };
        match handled {
            Ok(outbox) => StepOutcome::Continue(outbox),
            Err(_) => StepOutcome::Continue(Outbox::empty()),
        }
    }

    /// The next index to suggest to the leader after a log inconsistency.
    fn find_next_index(&self, prev_log_index: LogIndex, prev_log_term: Term) -> (r: LogIndex)
        ensures
            r == 1,
    {
        1
    }
}

} // verus!
