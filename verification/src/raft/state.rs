//! State of a Raft node: its role, its persistent and volatile state, and
//! the per-role bookkeeping of leaders, candidates and followers.
//! Points in time are milliseconds on the clock of `crate::support::now_millis`.

use vstd::prelude::*;
use std::collections::{BTreeMap, BTreeSet};
use crate::raft::error::{RaftError, RaftResult};
use crate::raft::log::{LogIndex, Term};
use crate::order::{keys_in_order, map_keys, sort_u64, sorted_descending};

verus! {

broadcast use vstd::std_specs::btree::group_btree_axioms;

/// The role of a Raft node.
#[derive(Debug, Clone, Copy, PartialEq, Eq, Structural)]
pub enum NodeState {
    /// Accepts AppendEntries and RequestVote.
    Follower,
    /// Requests votes from other nodes.
    Candidate,
    /// Sends AppendEntries to the other nodes.
    Leader,
}

/// The printed name of a role.
pub open spec fn node_state_name(s: NodeState) -> Seq<char> {
    match s {
        NodeState::Follower => "Follower"@,
        NodeState::Candidate => "Candidate"@,
        NodeState::Leader => "Leader"@,
    }
}

impl NodeState {
    /// The printed name of the role.
    pub fn name(&self) -> (s: String)
        ensures
            s@ == node_state_name(*self),
    {
        match self {
            NodeState::Follower => "Follower".to_owned(),
            NodeState::Candidate => "Candidate".to_owned(),
            NodeState::Leader => "Leader".to_owned(),
        }
    }
}

/// Milliseconds elapsed from `since` to `now`, never negative.
pub open spec fn elapsed_ms(since: i64, now: i64) -> int {
    if now > since {
        now - since
    } else {
        0
    }
}

/// Milliseconds elapsed from `since` to `now`, never negative.
pub fn elapsed_between(since: i64, now: i64) -> (r: u64)
    ensures
        r == elapsed_ms(since, now),
{
    if now > since {
        let d: i128 = (now as i128) - (since as i128);
        d as u64
    } else {
        0
    }
}

/// State that must be kept on stable storage.
#[derive(Debug, Clone, Copy, PartialEq, Eq, Structural)]
pub struct PersistentState {
    /// Latest term this server has seen.
    pub current_term: Term,
    /// Candidate that received this server's vote in the current term.
    pub voted_for: Option<u64>,
}

impl PersistentState {
    /// Term 0, no vote.
    pub fn default() -> (s: PersistentState)
        ensures
            s.current_term == 0,
            s.voted_for is None,
    {
        PersistentState { current_term: 0, voted_for: None }
    }
}

/// Volatile state of every server.
#[derive(Debug, Clone, Copy, PartialEq, Eq, Structural)]
pub struct VolatileState {
    /// Highest log index known to be committed.
    pub commit_index: LogIndex,
    /// Highest log index applied to the state machine.
    pub last_applied: LogIndex,
}

impl VolatileState {
    /// Both positions at 0.
    pub fn default() -> (s: VolatileState)
        ensures
            s.commit_index == 0,
            s.last_applied == 0,
    {
        VolatileState { commit_index: 0, last_applied: 0 }
    }
}

/// An AppendEntries request awaiting its response.
#[derive(Debug, Clone, Copy, PartialEq, Eq, Structural)]
pub struct PendingResponse {
    /// Index of the last entry sent in the request.
    pub last_entry_index: LogIndex,
    /// When the request was sent.
    pub sent_at: i64,
    /// Number of retries of this request.
    pub retries: u32,
}

/// Volatile state of a leader, reinitialised after each election.
#[derive(Debug, Clone)]
pub struct LeaderState {
    /// For each peer, the index of the next entry to send to it.
    pub next_index: BTreeMap<u64, LogIndex>,
    /// For each peer, the highest index known to be replicated on it.
    pub match_index: BTreeMap<u64, LogIndex>,
    /// For each peer, when a heartbeat was last sent to it.
    pub last_heartbeat: BTreeMap<u64, i64>,
    /// Requests awaiting a response, by peer.
    pub pending_responses: BTreeMap<u64, PendingResponse>,
}

/// The map giving every peer of `peers` the value `v`.
pub open spec fn uniform_map<V>(peers: Seq<u64>, v: V) -> Map<u64, V> {
    Map::new(|p: u64| peers.contains(p), |p: u64| v)
}

/// Whether a heartbeat is due for `peer` at `now`.
pub open spec fn heartbeat_due(l: LeaderState, peer: u64, interval: u64, now: i64) -> bool {
    if l.last_heartbeat@.contains_key(peer) {
        elapsed_ms(l.last_heartbeat@[peer], now) >= interval
    } else {
        true
    }
}

/// The match indices of a leader, in increasing order of peer.
pub open spec fn match_values(l: LeaderState) -> Seq<u64> {
    keys_in_order(l.match_index@).map_values(|k: u64| l.match_index@[k])
}

/// The commit index that a leader derives from the match indices:
/// the `majority`-th highest match index when there are that many, never
/// below the current commit index.
pub open spec fn commit_from(values: Seq<u64>, current: u64, majority: int) -> u64 {
    if values.len() == 0 || values.len() < majority {
        current
    } else {
        let m = sorted_descending(values)[majority - 1];
        if m > current {
            m
        } else {
            current
        }
    }
}

impl LeaderState {
    /// Leader state for `peers` after an election won with `last_log_index`
    /// as the last index, with heartbeats recorded at `now`.
    pub fn new_at(peers: &[u64], last_log_index: LogIndex, now: i64) -> (l: LeaderState)
        requires
            last_log_index < u64::MAX,
        ensures
            l.next_index@ == uniform_map(peers@, (last_log_index + 1) as u64),
            l.match_index@ == uniform_map(peers@, 0u64),
            l.last_heartbeat@ == uniform_map(peers@, now),
            l.pending_responses@ == Map::<u64, PendingResponse>::empty(),
    {
        let mut next_index: BTreeMap<u64, LogIndex> = BTreeMap::new();
        let mut match_index: BTreeMap<u64, LogIndex> = BTreeMap::new();
        let mut last_heartbeat: BTreeMap<u64, i64> = BTreeMap::new();
        let mut i: usize = 0;
        while i < peers.len()
            invariant
                i <= peers.len(),
                last_log_index < u64::MAX,
                next_index@ == uniform_map(peers@.take(i as int), (last_log_index + 1) as u64),
                match_index@ == uniform_map(peers@.take(i as int), 0u64),
                last_heartbeat@ == uniform_map(peers@.take(i as int), now),
            decreases peers.len() - i,
        {
            let peer = peers[i];
            next_index.insert(peer, last_log_index + 1);
            match_index.insert(peer, 0);
            last_heartbeat.insert(peer, now);
            proof {
                let t = peers@.take(i + 1);
                assert(t =~= peers@.take(i as int).push(peer));
                assert forall|p: u64| t.contains(p) <==> (peers@.take(i as int).contains(p) || p
                    == peer) by {
                    if t.contains(p) {
                        let k = choose|k: int| 0 <= k < t.len() && t[k] == p;
                        if k < i {
                            assert(peers@.take(i as int)[k] == p);
                        }
                    }
                    if peers@.take(i as int).contains(p) {
                        let k = choose|k: int| 0 <= k < i && peers@.take(i as int)[k] == p;
                        assert(t[k] == p);
                    }
                    if p == peer {
                        assert(t[i as int] == p);
                    }
                }
                assert(next_index@ =~= uniform_map(t, (last_log_index + 1) as u64));
                assert(match_index@ =~= uniform_map(t, 0u64));
                assert(last_heartbeat@ =~= uniform_map(t, now));
            }
            i = i + 1;
        }
        proof {
            assert(peers@.take(peers.len() as int) =~= peers@);
        }
        LeaderState {
            next_index,
            match_index,
            last_heartbeat,
            pending_responses: BTreeMap::new(),
        }
    }

    /// Leader state for `peers`, with heartbeats recorded now.
    pub fn new(peers: &[u64], last_log_index: LogIndex) -> (l: LeaderState)
        requires
            last_log_index < u64::MAX,
        ensures
            l.next_index@ == uniform_map(peers@, (last_log_index + 1) as u64),
            l.match_index@ == uniform_map(peers@, 0u64),
            l.last_heartbeat@.dom() == peers@.to_set(),
            l.pending_responses@ == Map::<u64, PendingResponse>::empty(),
    {
        let l = LeaderState::new_at(peers, last_log_index, crate::support::now_millis());
        proof {
            assert(l.last_heartbeat@.dom() =~= peers@.to_set());
        }
        l
    }

    /// Sets the next index of `peer`.
    pub fn update_next_index(&mut self, peer: u64, index: LogIndex)
        ensures
            final(self).next_index@ == old(self).next_index@.insert(peer, index),
            final(self).match_index@ == old(self).match_index@,
            final(self).last_heartbeat@ == old(self).last_heartbeat@,
            final(self).pending_responses@ == old(self).pending_responses@,
    {
        self.next_index.insert(peer, index);
    }

    /// Sets the match index of `peer`, and raises its next index to
    /// `index + 1` when it was not above `index`.
    pub fn update_match_index(&mut self, peer: u64, index: LogIndex)
        requires
            index < u64::MAX,
        ensures
            final(self).match_index@ == old(self).match_index@.insert(peer, index),
            ({
                let next = if old(self).next_index@.contains_key(peer) {
                    old(self).next_index@[peer]
                } else {
                    0
                };
                final(self).next_index@ == if next <= index {
                    old(self).next_index@.insert(peer, (index + 1) as u64)
                } else {
                    old(self).next_index@
                }
            }),
            final(self).last_heartbeat@ == old(self).last_heartbeat@,
            final(self).pending_responses@ == old(self).pending_responses@,
    {
        self.match_index.insert(peer, index);
        let next = match self.next_index.get(&peer) {
            Some(n) => *n,
            None => 0,
        };
        if next <= index {
            self.next_index.insert(peer, index + 1);
        }
    }

    /// Records that a heartbeat was sent to `peer` at `now`.
    pub fn record_heartbeat_at(&mut self, peer: u64, now: i64)
        ensures
            final(self).last_heartbeat@ == old(self).last_heartbeat@.insert(peer, now),
            final(self).next_index@ == old(self).next_index@,
            final(self).match_index@ == old(self).match_index@,
            final(self).pending_responses@ == old(self).pending_responses@,
    {
        self.last_heartbeat.insert(peer, now);
    }

    /// Records that a heartbeat was sent to `peer` now.
    pub fn record_heartbeat(&mut self, peer: u64)
        ensures
            final(self).last_heartbeat@.dom() == old(self).last_heartbeat@.dom().insert(peer),
            forall|p: u64| p != peer ==> #[trigger] final(self).last_heartbeat@.contains_key(p)
                ==> final(self).last_heartbeat@[p] == old(self).last_heartbeat@[p],
            final(self).next_index@ == old(self).next_index@,
            final(self).match_index@ == old(self).match_index@,
            final(self).pending_responses@ == old(self).pending_responses@,
    {
        self.record_heartbeat_at(peer, crate::support::now_millis());
    }

    /// Whether a heartbeat to `peer` is due at `now`: none was sent, or the
    /// last one is at least `heartbeat_interval` milliseconds old.
    pub fn needs_heartbeat_at(&self, peer: u64, heartbeat_interval: u64, now: i64) -> (r: bool)
        ensures
            r == heartbeat_due(*self, peer, heartbeat_interval, now),
    {
        match self.last_heartbeat.get(&peer) {
            Some(last) => elapsed_between(*last, now) >= heartbeat_interval,
            None => true,
        }
    }

    /// Whether a heartbeat to `peer` is due now.
    pub fn needs_heartbeat(&self, peer: u64, heartbeat_interval: u64) -> (r: bool)
        ensures
            !self.last_heartbeat@.contains_key(peer) ==> r,
    {
        self.needs_heartbeat_at(peer, heartbeat_interval, crate::support::now_millis())
    }

    /// Records a request to `peer` sent at `now` whose last entry has
    /// index `last_entry_index`.
    pub fn add_pending_response_at(&mut self, peer: u64, last_entry_index: LogIndex, now: i64)
        ensures
            final(self).pending_responses@ == old(self).pending_responses@.insert(
                peer,
                PendingResponse { last_entry_index, sent_at: now, retries: 0 },
            ),
            final(self).next_index@ == old(self).next_index@,
            final(self).match_index@ == old(self).match_index@,
            final(self).last_heartbeat@ == old(self).last_heartbeat@,
    {
        self.pending_responses.insert(
            peer,
            PendingResponse { last_entry_index, sent_at: now, retries: 0 },
        );
    }

    /// Records a request to `peer` sent now.
    pub fn add_pending_response(&mut self, peer: u64, last_entry_index: LogIndex)
        ensures
            final(self).pending_responses@.contains_key(peer),
            final(self).pending_responses@[peer].last_entry_index == last_entry_index,
            final(self).pending_responses@[peer].retries == 0,
            final(self).pending_responses@.remove(peer) == old(self).pending_responses@.remove(
                peer,
            ),
            final(self).next_index@ == old(self).next_index@,
            final(self).match_index@ == old(self).match_index@,
            final(self).last_heartbeat@ == old(self).last_heartbeat@,
    {
        self.add_pending_response_at(peer, last_entry_index, crate::support::now_millis());
        proof {
            assert(self.pending_responses@.remove(peer) =~= old(self).pending_responses@.remove(
                peer,
            ));
        }
    }

    /// Removes and returns the pending request to `peer`, if any.
    pub fn remove_pending_response(&mut self, peer: u64) -> (r: Option<PendingResponse>)
        ensures
            final(self).pending_responses@ == old(self).pending_responses@.remove(peer),
            match r {
                Some(p) => old(self).pending_responses@.contains_key(peer)
                    && p == old(self).pending_responses@[peer],
                None => !old(self).pending_responses@.contains_key(peer),
            },
            final(self).next_index@ == old(self).next_index@,
            final(self).match_index@ == old(self).match_index@,
            final(self).last_heartbeat@ == old(self).last_heartbeat@,
    {
        self.pending_responses.remove(&peer)
    }

    /// The peers that need contact at `now`, in increasing order: those with
    /// a due heartbeat or without a pending request.
    pub fn peers_needing_entries_at(&self, heartbeat_interval: u64, now: i64) -> (r: Vec<u64>)
        ensures
            r@ == keys_in_order(self.next_index@).filter(
                |p: u64|
                    heartbeat_due(*self, p, heartbeat_interval, now)
                        || !self.pending_responses@.contains_key(p),
            ),
            forall|i: int| 0 <= i < r@.len() ==> self.next_index@.contains_key(#[trigger] r@[i]),
            forall|p: u64| #[trigger] self.next_index@.contains_key(p)
                && !self.pending_responses@.contains_key(p) ==> r@.contains(p),
    {
        let keys = map_keys(&self.next_index);
        let ghost pred = |p: u64|
            heartbeat_due(*self, p, heartbeat_interval, now)
                || !self.pending_responses@.contains_key(p);
        let mut out: Vec<u64> = Vec::new();
        let mut i: usize = 0;
        while i < keys.len()
            invariant
                i <= keys.len(),
                keys@.to_set() == self.next_index@.dom(),
                out@ == keys@.take(i as int).filter(pred),
                pred == (|p: u64|
                    heartbeat_due(*self, p, heartbeat_interval, now)
                        || !self.pending_responses@.contains_key(p)),
                forall|j: int| 0 <= j < out@.len() ==> self.next_index@.contains_key(#[trigger] out@[j]),
                forall|k: int| 0 <= k < i && !self.pending_responses@.contains_key(#[trigger] keys@[k])
                    ==> out@.contains(keys@[k]),
            decreases keys.len() - i,
        {
            let p = keys[i];
            proof {
                assert(keys@.take(i + 1) =~= keys@.take(i as int).push(p));
                keys@.take(i as int).lemma_filter_push(p, pred);
                assert(keys@.to_set().contains(p));
            }
            let ghost prev = out@;
            if self.needs_heartbeat_at(p, heartbeat_interval, now)
                || !self.pending_responses.contains_key(&p) {
                out.push(p);
                proof {
                    assert forall|k: int| 0 <= k < i + 1 && !self.pending_responses@.contains_key(
                        #[trigger] keys@[k],
                    ) implies out@.contains(keys@[k]) by {
                        if k < i {
                            let j = choose|j: int| 0 <= j < prev.len() && prev[j] == keys@[k];
                            assert(out@[j] == keys@[k]);
                        } else {
                            assert(out@[prev.len() as int] == p);
                        }
                    }
                }
            }
            i = i + 1;
        }
        proof {
            assert(keys@.take(keys.len() as int) =~= keys@);
            assert forall|p: u64| #[trigger] self.next_index@.contains_key(p)
                && !self.pending_responses@.contains_key(p) implies out@.contains(p) by {
                assert(keys@.to_set().contains(p));
                let k = choose|k: int| 0 <= k < keys@.len() && keys@[k] == p;
            }
        }
        out
    }

    /// The peers that need contact now.
    pub fn peers_needing_entries(&self, heartbeat_interval: u64) -> (r: Vec<u64>)
        ensures
            forall|i: int| 0 <= i < r@.len() ==> self.next_index@.contains_key(#[trigger] r@[i]),
            forall|p: u64| #[trigger] self.next_index@.contains_key(p)
                && !self.pending_responses@.contains_key(p) ==> r@.contains(p),
    {
        self.peers_needing_entries_at(heartbeat_interval, crate::support::now_millis())
    }

    /// The commit index that the match indices support, given the current
    /// commit index and the number of nodes that make a majority.
    pub fn calculate_commit_index(&self, current_commit: LogIndex, majority: usize) -> (r:
        LogIndex)
        requires
            self.match_index@.len() > 0 ==> majority > 0,
        ensures
            r == commit_from(match_values(*self), current_commit, majority as int),
    {
        let keys = map_keys(&self.match_index);
        if keys.len() == 0 {
            proof {
                assert(match_values(*self) =~= Seq::<u64>::empty());
            }
            return current_commit;
        }
        proof {
            assert(keys@.to_set().contains(keys@[0]));
            assert(self.match_index@.dom().contains(keys@[0]));
            assert(self.match_index@.dom().len() > 0);
        }
        let mut values: Vec<u64> = Vec::new();
        let mut i: usize = 0;
        while i < keys.len()
            invariant
                i <= keys.len(),
                keys@ == keys_in_order(self.match_index@),
                keys@.to_set() == self.match_index@.dom(),
                values@ == keys@.take(i as int).map_values(|k: u64| self.match_index@[k]),
            decreases keys.len() - i,
        {
            let k = keys[i];
            proof {
                assert(keys@.to_set().contains(k));
            }
            let v = *self.match_index.get(&k).unwrap();
            let ghost prev = values@;
            values.push(v);
            proof {
                assert(keys@.take(i + 1).map_values(|k: u64| self.match_index@[k]) =~= prev.push(
                    v,
                ));
            }
            i = i + 1;
        }
        proof {
            assert(keys@.take(keys.len() as int) =~= keys@);
            assert(values@ == match_values(*self));
        }
        let sorted = sort_u64(&values, true);
        if sorted.len() >= majority {
            let majority_index = sorted[majority - 1];
            if majority_index > current_commit {
                majority_index
            } else {
                current_commit
            }
        } else {
            current_commit
        }
    }
}

/// Volatile state of a candidate.
#[derive(Debug, Clone)]
pub struct CandidateState {
    /// Nodes that granted their vote.
    pub votes_received: BTreeSet<u64>,
    /// When the election started.
    pub election_start: i64,
    /// Timeout of this election, in milliseconds.
    pub election_timeout: u64,
    /// Whether this is a pre-vote election.
    pub pre_vote: bool,
}

/// Whether the votes received, with the candidate's own, make a majority.
pub open spec fn spec_has_majority(votes: int, cluster_size: int) -> bool {
    votes + 1 >= cluster_size / 2 + 1
}

impl CandidateState {
    /// Candidate state of an election started at `now`, with no vote yet.
    pub fn new_at(election_timeout: u64, pre_vote: bool, now: i64) -> (c: CandidateState)
        ensures
            c.votes_received@ == Set::<u64>::empty(),
            c.election_start == now,
            c.election_timeout == election_timeout,
            c.pre_vote == pre_vote,
    {
        CandidateState {
            votes_received: BTreeSet::new(),
            election_start: now,
            election_timeout,
            pre_vote,
        }
    }

    /// Candidate state of an election started now.
    pub fn new(election_timeout: u64, pre_vote: bool) -> (c: CandidateState)
        ensures
            c.votes_received@ == Set::<u64>::empty(),
            c.election_timeout == election_timeout,
            c.pre_vote == pre_vote,
    {
        CandidateState::new_at(election_timeout, pre_vote, crate::support::now_millis())
    }

    /// Records the vote of `node_id`.
    pub fn add_vote(&mut self, node_id: u64)
        ensures
            final(self).votes_received@ == old(self).votes_received@.insert(node_id),
            final(self).election_start == old(self).election_start,
            final(self).election_timeout == old(self).election_timeout,
            final(self).pre_vote == old(self).pre_vote,
    {
        self.votes_received.insert(node_id);
    }

    /// Whether the election has timed out at `now`.
    pub fn has_timed_out_at(&self, now: i64) -> (r: bool)
        ensures
            r == (elapsed_ms(self.election_start, now) >= self.election_timeout),
    {
        elapsed_between(self.election_start, now) >= self.election_timeout
    }

    /// Whether the election has timed out now.
    pub fn has_timed_out(&self) -> (r: bool)
        ensures
            self.election_timeout == 0 ==> r,
    {
        self.has_timed_out_at(crate::support::now_millis())
    }

    /// Whether the votes, with the candidate's own, make a majority of
    /// `cluster_size` nodes.
    pub fn has_majority(&self, cluster_size: usize) -> (r: bool)
        ensures
            r == spec_has_majority(self.votes_received@.len() as int, cluster_size as int),
    {
        let votes_needed = (cluster_size / 2) as u128 + 1;
        (self.votes_received.len() as u128) + 1 >= votes_needed
    }

    /// Number of votes, the candidate's own included.
    pub fn vote_count(&self) -> (n: usize)
        requires
            self.votes_received@.len() < usize::MAX,
        ensures
            n == self.votes_received@.len() + 1,
    {
        self.votes_received.len() + 1
    }
}

/// Volatile state of a follower.
#[derive(Debug, Clone, Copy, PartialEq, Eq, Structural)]
pub struct FollowerState {
    /// The leader this follower knows of.
    pub leader_id: Option<u64>,
    /// When the leader last made contact.
    pub last_leader_contact: Option<i64>,
    /// Election timeout of this follower, in milliseconds.
    pub election_timeout: u64,
}

/// Whether a follower's election timeout has passed at `now`.
pub open spec fn follower_timed_out(f: FollowerState, now: i64) -> bool {
    match f.last_leader_contact {
        Some(last) => elapsed_ms(last, now) >= f.election_timeout,
        None => true,
    }
}

impl FollowerState {
    /// A follower that knows no leader yet.
    pub fn new(election_timeout: u64) -> (f: FollowerState)
        ensures
            f == (FollowerState { leader_id: None, last_leader_contact: None, election_timeout }),
    {
        FollowerState { leader_id: None, last_leader_contact: None, election_timeout }
    }

    /// Records `leader_id` as the leader, in contact at `now`.
    pub fn update_leader_at(&mut self, leader_id: u64, now: i64)
        ensures
            *final(self) == (FollowerState {
                leader_id: Some(leader_id),
                last_leader_contact: Some(now),
                ..*old(self)
            }),
    {
        self.leader_id = Some(leader_id);
        self.last_leader_contact = Some(now);
    }

    /// Records `leader_id` as the leader, in contact now.
    pub fn update_leader(&mut self, leader_id: u64)
        ensures
            final(self).leader_id == Some(leader_id),
            final(self).last_leader_contact is Some,
            final(self).election_timeout == old(self).election_timeout,
    {
        self.update_leader_at(leader_id, crate::support::now_millis());
    }

    /// Records contact from the leader at `now`.
    pub fn record_leader_contact_at(&mut self, now: i64)
        ensures
            *final(self) == (FollowerState { last_leader_contact: Some(now), ..*old(self) }),
    {
        self.last_leader_contact = Some(now);
    }

    /// Records contact from the leader now.
    pub fn record_leader_contact(&mut self)
        ensures
            final(self).last_leader_contact is Some,
            final(self).leader_id == old(self).leader_id,
            final(self).election_timeout == old(self).election_timeout,
    {
        self.record_leader_contact_at(crate::support::now_millis());
    }

    /// Whether the election timeout has passed at `now`: no contact yet, or
    /// the last one at least `election_timeout` milliseconds old.
    pub fn has_election_timeout_at(&self, now: i64) -> (r: bool)
        ensures
            r == follower_timed_out(*self, now),
    {
        match self.last_leader_contact {
            Some(last) => elapsed_between(last, now) >= self.election_timeout,
            None => true,
        }
    }

    /// Whether the election timeout has passed now.
    pub fn has_election_timeout(&self) -> (r: bool)
        ensures
            self.last_leader_contact is None ==> r,
    {
        self.has_election_timeout_at(crate::support::now_millis())
    }

    /// Milliseconds since the last contact at `now`, if there was one.
    pub fn time_since_leader_contact_at(&self, now: i64) -> (r: Option<u64>)
        ensures
            match self.last_leader_contact {
                Some(last) => r == Some(elapsed_ms(last, now) as u64),
                None => r is None,
            },
    {
        match self.last_leader_contact {
            Some(last) => Some(elapsed_between(last, now)),
            None => None,
        }
    }

    /// Milliseconds since the last contact, if there was one.
    pub fn time_since_leader_contact(&self) -> (r: Option<u64>)
        ensures
            r is Some <==> self.last_leader_contact is Some,
    {
        self.time_since_leader_contact_at(crate::support::now_millis())
    }
}

/// The complete state of a Raft node.
#[derive(Debug, Clone)]
pub struct RaftState {
    /// Node identifier.
    pub node_id: u64,
    /// Current role.
    pub state: NodeState,
    /// Persistent state.
    pub persistent: PersistentState,
    /// Volatile state.
    pub volatile: VolatileState,
    /// Leader bookkeeping (present while leader).
    pub leader_state: Option<LeaderState>,
    /// Candidate bookkeeping (present while candidate).
    pub candidate_state: Option<CandidateState>,
    /// Follower bookkeeping (present while follower, after a transition).
    pub follower_state: Option<FollowerState>,
    /// When the node started.
    pub start_time: i64,
    /// When the role last changed.
    pub last_state_change: i64,
}

/// Whether only the role bookkeeping and the time of the last role change
/// differ between two states, besides what is named.
pub open spec fn same_core(a: RaftState, b: RaftState) -> bool {
    &&& a.node_id == b.node_id
    &&& a.volatile == b.volatile
    &&& a.start_time == b.start_time
}

impl RaftState {
    /// A follower in term 0 that has not voted, started now.
    pub fn new(node_id: u64) -> (s: RaftState)
        ensures
            s.node_id == node_id,
            s.state == NodeState::Follower,
            s.persistent == (PersistentState { current_term: 0, voted_for: None }),
            s.volatile == (VolatileState { commit_index: 0, last_applied: 0 }),
            s.leader_state is None,
            s.candidate_state is None,
            s.follower_state is None,
    {
        let now = crate::support::now_millis();
        RaftState {
            node_id,
            state: NodeState::Follower,
            persistent: PersistentState::default(),
            volatile: VolatileState::default(),
            leader_state: None,
            candidate_state: None,
            follower_state: None,
            start_time: now,
            last_state_change: now,
        }
    }

    /// Becomes a follower in `term`, without a vote.
    pub fn become_follower(&mut self, term: Term, election_timeout: u64)
        ensures
            same_core(*final(self), *old(self)),
            final(self).state == NodeState::Follower,
            final(self).persistent == (PersistentState { current_term: term, voted_for: None }),
            final(self).leader_state is None,
            final(self).candidate_state is None,
            final(self).follower_state == Some(FollowerState::new_spec(election_timeout)),
    {
        self.state = NodeState::Follower;
        self.persistent.current_term = term;
        self.persistent.voted_for = None;
        self.leader_state = None;
        self.candidate_state = None;
        self.follower_state = Some(FollowerState::new(election_timeout));
        self.last_state_change = crate::support::now_millis();
    }

    /// Becomes a candidate. A real election moves to the next term and
    /// votes for itself; a pre-vote changes neither term nor vote.
    pub fn become_candidate(&mut self, election_timeout: u64, pre_vote: bool) -> (r: RaftResult<
        (),
    >)
        requires
            !pre_vote ==> old(self).persistent.current_term < u64::MAX,
        ensures
            r is Ok,
            same_core(*final(self), *old(self)),
            final(self).state == NodeState::Candidate,
            !pre_vote ==> final(self).persistent == (PersistentState {
                current_term: (old(self).persistent.current_term + 1) as u64,
                voted_for: Some(old(self).node_id),
            }),
            pre_vote ==> final(self).persistent == old(self).persistent,
            final(self).leader_state is None,
            final(self).follower_state is None,
            final(self).candidate_state is Some,
            final(self).candidate_state->0.votes_received@ == Set::<u64>::empty(),
            final(self).candidate_state->0.election_timeout == election_timeout,
            final(self).candidate_state->0.pre_vote == pre_vote,
    {
        if !pre_vote {
            self.persistent.current_term = self.persistent.current_term + 1;
            self.persistent.voted_for = Some(self.node_id);
        }
        self.state = NodeState::Candidate;
        self.leader_state = None;
        self.candidate_state = Some(CandidateState::new(election_timeout, pre_vote));
        self.follower_state = None;
        self.last_state_change = crate::support::now_millis();
        Ok(())
    }

    /// Becomes leader for `peers`; refused unless the node is a candidate.
    pub fn become_leader(&mut self, peers: &[u64], last_log_index: LogIndex) -> (r: RaftResult<
        (),
    >)
        requires
            last_log_index < u64::MAX,
        ensures
            old(self).state != NodeState::Candidate ==> *final(self) == *old(self) && r is Err
                && r->Err_0 is InvalidState && r->Err_0->InvalidState_node_id == old(self).node_id
                && r->Err_0->InvalidState_current_state@ == node_state_name(old(self).state)
                && r->Err_0->InvalidState_expected_state@ == "Candidate"@,
            old(self).state == NodeState::Candidate ==> r is Ok && same_core(*final(self), *old(self))
                && final(self).state == NodeState::Leader && final(self).persistent == old(
                self,
            ).persistent && final(self).candidate_state is None && final(self).follower_state is None
                && final(self).leader_state is Some && final(self).leader_state->0.next_index@
                == uniform_map(peers@, (last_log_index + 1) as u64)
                && final(self).leader_state->0.match_index@ == uniform_map(peers@, 0u64)
                && final(self).leader_state->0.pending_responses@ == Map::<
                u64,
                PendingResponse,
            >::empty(),
    {
        if self.state != NodeState::Candidate {
            return Err(
                RaftError::InvalidState {
                    node_id: self.node_id,
                    current_state: self.state.name(),
                    expected_state: "Candidate".to_owned(),
                },
            );
        }
        self.state = NodeState::Leader;
        self.leader_state = Some(LeaderState::new(peers, last_log_index));
        self.candidate_state = None;
        self.follower_state = None;
        self.last_state_change = crate::support::now_millis();
        Ok(())
    }

    /// Moves to `term`: refused when it is older than the current term; a
    /// newer term clears the vote.
    pub fn update_term(&mut self, term: Term) -> (r: RaftResult<()>)
        ensures
            term < old(self).persistent.current_term ==> r == Err::<(), RaftError>(
                RaftError::InvalidTerm { received: term, current: old(self).persistent.current_term },
            ) && *final(self) == *old(self),
            term == old(self).persistent.current_term ==> r is Ok && *final(self) == *old(self),
            term > old(self).persistent.current_term ==> r is Ok && *final(self) == (RaftState {
                persistent: PersistentState { current_term: term, voted_for: None },
                ..*old(self)
            }),
    {
        if term < self.persistent.current_term {
            return Err(
                RaftError::InvalidTerm { received: term, current: self.persistent.current_term },
            );
        }
        if term > self.persistent.current_term {
            self.persistent.current_term = term;
            self.persistent.voted_for = None;
        }
        Ok(())
    }

    /// Votes for `candidate_id`; refused when a vote was already cast.
    pub fn vote_for(&mut self, candidate_id: u64) -> (r: RaftResult<()>)
        ensures
            old(self).persistent.voted_for is Some ==> r is Err && r->Err_0 is Internal
                && r->Err_0->Internal_message@ == "Already voted in this term"@ && *final(self)
                == *old(self),
            old(self).persistent.voted_for is None ==> r is Ok && *final(self) == (RaftState {
                persistent: PersistentState {
                    voted_for: Some(candidate_id),
                    ..old(self).persistent
                },
                ..*old(self)
            }),
    {
        if self.persistent.voted_for.is_some() {
            return Err(RaftError::internal("Already voted in this term"));
        }
        self.persistent.voted_for = Some(candidate_id);
        Ok(())
    }

    /// Whether this node may vote for `candidate_id`: it has not voted, or
    /// voted for that candidate.
    pub fn can_vote_for(&self, candidate_id: u64) -> (r: bool)
        ensures
            r == (self.persistent.voted_for is None || self.persistent.voted_for == Some(
                candidate_id,
            )),
    {
        match self.persistent.voted_for {
            Some(voted_for) => voted_for == candidate_id,
            None => true,
        }
    }

    /// The current term.
    pub fn current_term(&self) -> (r: Term)
        ensures
            r == self.persistent.current_term,
    {
        self.persistent.current_term
    }

    /// The candidate voted for in the current term.
    pub fn voted_for(&self) -> (r: Option<u64>)
        ensures
            r == self.persistent.voted_for,
    {
        self.persistent.voted_for
    }

    /// The commit position.
    pub fn commit_index(&self) -> (r: LogIndex)
        ensures
            r == self.volatile.commit_index,
    {
        self.volatile.commit_index
    }

    /// Sets the commit position.
    pub fn set_commit_index(&mut self, index: LogIndex)
        ensures
            *final(self) == (RaftState {
                volatile: VolatileState { commit_index: index, ..old(self).volatile },
                ..*old(self)
            }),
    {
        self.volatile.commit_index = index;
    }

    /// The apply position.
    pub fn last_applied(&self) -> (r: LogIndex)
        ensures
            r == self.volatile.last_applied,
    {
        self.volatile.last_applied
    }

    /// Sets the apply position.
    pub fn set_last_applied(&mut self, index: LogIndex)
        ensures
            *final(self) == (RaftState {
                volatile: VolatileState { last_applied: index, ..old(self).volatile },
                ..*old(self)
            }),
    {
        self.volatile.last_applied = index;
    }

    /// Whether the node is leader.
    pub fn is_leader(&self) -> (r: bool)
        ensures
            r == (self.state == NodeState::Leader),
    {
        self.state == NodeState::Leader
    }

    /// Whether the node is candidate.
    pub fn is_candidate(&self) -> (r: bool)
        ensures
            r == (self.state == NodeState::Candidate),
    {
        self.state == NodeState::Candidate
    }

    /// Whether the node is follower.
    pub fn is_follower(&self) -> (r: bool)
        ensures
            r == (self.state == NodeState::Follower),
    {
        self.state == NodeState::Follower
    }

    /// Milliseconds spent in the current role at `now`.
    pub fn time_in_current_state_at(&self, now: i64) -> (r: u64)
        ensures
            r == elapsed_ms(self.last_state_change, now),
    {
        elapsed_between(self.last_state_change, now)
    }

    /// Milliseconds spent in the current role.
    pub fn time_in_current_state(&self) -> (r: u64) {
        self.time_in_current_state_at(crate::support::now_millis())
    }

    /// The leader bookkeeping, if any.
    pub fn leader_state(&self) -> (r: Option<&LeaderState>)
        ensures
            r == match self.leader_state {
                Some(l) => Some(&l),
                None => None::<&LeaderState>,
            },
    {
        self.leader_state.as_ref()
    }

    /// The candidate bookkeeping, if any.
    pub fn candidate_state(&self) -> (r: Option<&CandidateState>)
        ensures
            r == match self.candidate_state {
                Some(c) => Some(&c),
                None => None::<&CandidateState>,
            },
    {
        self.candidate_state.as_ref()
    }

    /// The leader bookkeeping, if any, to change in place.
    pub fn leader_state_mut(&mut self) -> (r: Option<&mut LeaderState>)
        ensures
            (match old(self).leader_state {
                None => r.is_none() && *final(self) == *old(self),
                Some(l) => r.is_some() && *r.unwrap() == l && *final(self) == (RaftState {
                    leader_state: Some(*final(r.unwrap())),
                    ..*old(self)
                }),
            }),
    {
        self.leader_state.as_mut()
    }

    /// The candidate bookkeeping, if any, to change in place.
    pub fn candidate_state_mut(&mut self) -> (r: Option<&mut CandidateState>)
        ensures
            (match old(self).candidate_state {
                None => r.is_none() && *final(self) == *old(self),
                Some(c) => r.is_some() && *r.unwrap() == c && *final(self) == (RaftState {
                    candidate_state: Some(*final(r.unwrap())),
                    ..*old(self)
                }),
            }),
    {
        self.candidate_state.as_mut()
    }

    /// The follower bookkeeping, if any, to change in place.
    pub fn follower_state_mut(&mut self) -> (r: Option<&mut FollowerState>)
        ensures
            (match old(self).follower_state {
                None => r.is_none() && *final(self) == *old(self),
                Some(f) => r.is_some() && *r.unwrap() == f && *final(self) == (RaftState {
                    follower_state: Some(*final(r.unwrap())),
                    ..*old(self)
                }),
            }),
    {
        self.follower_state.as_mut()
    }

    /// The follower bookkeeping, if any.
    pub fn follower_state(&self) -> (r: Option<&FollowerState>)
        ensures
            r == match self.follower_state {
                Some(f) => Some(&f),
                None => None::<&FollowerState>,
            },
    {
        self.follower_state.as_ref()
    }
}

impl FollowerState {
    /// The follower state that `new` builds.
    pub open spec fn new_spec(election_timeout: u64) -> FollowerState {
        FollowerState { leader_id: None, last_leader_contact: None, election_timeout }
    }
}

} // verus!
