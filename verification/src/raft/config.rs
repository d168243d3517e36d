//! Configuration of a Raft node: timing, cluster membership and limits.
//! Durations are held as whole milliseconds.

use vstd::prelude::*;
use crate::raft::error::{RaftError, RaftResult};
use crate::order::{sort_u64, sorted_ascending};

verus! {

/// Configuration of a Raft node.
#[derive(Debug, Clone)]
pub struct RaftConfig {
    /// Unique identifier of this node.
    pub node_id: u64,
    /// Identifiers of the other nodes of the cluster.
    pub peers: Vec<u64>,
    /// Interval between heartbeats when leader, in milliseconds.
    pub heartbeat_interval: u64,
    /// Minimum election timeout, in milliseconds.
    pub election_timeout_min: u64,
    /// Maximum election timeout, in milliseconds.
    pub election_timeout_max: u64,
    /// Maximum number of log entries in one AppendEntries request.
    pub max_entries_per_request: usize,
    /// Whether the pre-vote optimisation is enabled.
    pub enable_pre_vote: bool,
    /// Log size that triggers compaction.
    pub max_log_size: usize,
    /// Number of applied entries kept after compaction.
    pub compaction_threshold: usize,
    /// Maximum wait for a peer's response, in milliseconds.
    pub request_timeout: u64,
    /// Whether leadership transfer is enabled.
    pub enable_leadership_transfer: bool,
    /// Whether batching of log entries is enabled.
    pub enable_batch_optimization: bool,
}

/// The configuration of a node with the default settings, for `node_id` and `peers`.
pub open spec fn default_config_for(node_id: u64, peers: Seq<u64>) -> (RaftConfigView) {
    RaftConfigView {
        node_id,
        peers,
        heartbeat_interval: 50,
        election_timeout_min: 150,
        election_timeout_max: 300,
        max_entries_per_request: 100,
        enable_pre_vote: false,
        max_log_size: 10000,
        compaction_threshold: 1000,
        request_timeout: 1000,
        enable_leadership_transfer: false,
        enable_batch_optimization: true,
    }
}

/// The mathematical content of a configuration.
pub struct RaftConfigView {
    pub node_id: u64,
    pub peers: Seq<u64>,
    pub heartbeat_interval: u64,
    pub election_timeout_min: u64,
    pub election_timeout_max: u64,
    pub max_entries_per_request: usize,
    pub enable_pre_vote: bool,
    pub max_log_size: usize,
    pub compaction_threshold: usize,
    pub request_timeout: u64,
    pub enable_leadership_transfer: bool,
    pub enable_batch_optimization: bool,
}

impl View for RaftConfig {
    type V = RaftConfigView;

    open spec fn view(&self) -> RaftConfigView {
        RaftConfigView {
            node_id: self.node_id,
            peers: self.peers@,
            heartbeat_interval: self.heartbeat_interval,
            election_timeout_min: self.election_timeout_min,
            election_timeout_max: self.election_timeout_max,
            max_entries_per_request: self.max_entries_per_request,
            enable_pre_vote: self.enable_pre_vote,
            max_log_size: self.max_log_size,
            compaction_threshold: self.compaction_threshold,
            request_timeout: self.request_timeout,
            enable_leadership_transfer: self.enable_leadership_transfer,
            enable_batch_optimization: self.enable_batch_optimization,
        }
    }
}

/// The first rule that a configuration breaks, as the message that reports it,
/// or `None` when it breaks none.
pub open spec fn config_problem(c: RaftConfigView) -> Option<Seq<char>> {
    if c.node_id == 0 {
        Some("Node ID cannot be zero"@)
    } else if c.peers.contains(c.node_id) {
        Some("Peer list cannot contain the node's own ID"@)
    } else if c.heartbeat_interval >= c.election_timeout_min {
        Some("Heartbeat interval must be much smaller than election timeout"@)
    } else if c.election_timeout_min >= c.election_timeout_max {
        Some("Election timeout minimum must be less than maximum"@)
    } else if c.election_timeout_min < 10 {
        Some("Election timeout minimum too small (< 10ms)"@)
    } else if c.election_timeout_max > 30000 {
        Some("Election timeout maximum too large (> 30s)"@)
    } else if c.max_entries_per_request == 0 {
        Some("Max entries per request cannot be zero"@)
    } else if c.max_entries_per_request > 10000 {
        Some("Max entries per request too large (> 10000)"@)
    } else if c.compaction_threshold > c.max_log_size {
        Some("Compaction threshold cannot be larger than max log size"@)
    } else if c.request_timeout < 1 {
        Some("Request timeout too small (< 1ms)"@)
    } else {
        None
    }
}

/// Number of nodes in the cluster, this node included.
pub open spec fn spec_cluster_size(c: RaftConfigView) -> int {
    c.peers.len() + 1int
}

/// Number of nodes whose agreement makes a decision.
pub open spec fn spec_quorum_size(c: RaftConfigView) -> int {
    spec_cluster_size(c) / 2 + 1
}

/// Whether a vector of node identifiers holds `id`.
pub fn contains_id(ids: &Vec<u64>, id: u64) -> (r: bool)
    ensures
        r == ids@.contains(id),
{
    let mut i: usize = 0;
    while i < ids.len()
        invariant
            i <= ids.len(),
            forall|k: int| 0 <= k < i ==> ids@[k] != id,
        decreases ids.len() - i,
    {
        if ids[i] == id {
            return true;
        }
        i = i + 1;
    }
    false
}

/// A copy of a vector of node identifiers.
pub fn copy_ids(ids: &Vec<u64>) -> (r: Vec<u64>)
    ensures
        r@ == ids@,
{
    let mut out: Vec<u64> = Vec::new();
    let mut i: usize = 0;
    while i < ids.len()
        invariant
            i <= ids.len(),
            out@ == ids@.take(i as int),
        decreases ids.len() - i,
    {
        out.push(ids[i]);
        proof {
            assert(ids@.take(i + 1) =~= ids@.take(i as int).push(ids@[i as int]));
        }
        i = i + 1;
    }
    proof {
        assert(ids@.take(ids.len() as int) =~= ids@);
    }
    out
}

impl RaftConfig {
    /// The default configuration: node 1, no peers, 50 ms heartbeats,
    /// elections between 150 and 300 ms.
    pub fn default() -> (c: RaftConfig)
        ensures
            c@ == default_config_for(1, Seq::empty()),
    {
        RaftConfig::new(1, Vec::new())
    }

    /// A configuration with the default settings for `node_id` and `peers`.
    pub fn new(node_id: u64, peers: Vec<u64>) -> (c: RaftConfig)
        ensures
            c@ == default_config_for(node_id, peers@),
    {
        RaftConfig {
            node_id,
            peers,
            heartbeat_interval: 50,
            election_timeout_min: 150,
            election_timeout_max: 300,
            max_entries_per_request: 100,
            enable_pre_vote: false,
            max_log_size: 10000,
            compaction_threshold: 1000,
            request_timeout: 1000,
            enable_leadership_transfer: false,
            enable_batch_optimization: true,
        }
    }

    /// Sets the heartbeat interval.
    pub fn with_heartbeat_interval(self, interval: u64) -> (c: RaftConfig)
        ensures
            c@ == (RaftConfigView { heartbeat_interval: interval, ..self@ }),
    {
        let mut c = self;
        c.heartbeat_interval = interval;
        c
    }

    /// Sets the election timeout range.
    pub fn with_election_timeout(self, min: u64, max: u64) -> (c: RaftConfig)
        ensures
            c@ == (RaftConfigView { election_timeout_min: min, election_timeout_max: max, ..self@ }),
    {
        let mut c = self;
        c.election_timeout_min = min;
        c.election_timeout_max = max;
        c
    }

    /// Sets the maximum number of entries per request.
    pub fn with_max_entries_per_request(self, max: usize) -> (c: RaftConfig)
        ensures
            c@ == (RaftConfigView { max_entries_per_request: max, ..self@ }),
    {
        let mut c = self;
        c.max_entries_per_request = max;
        c
    }

    /// Enables or disables pre-vote.
    pub fn with_pre_vote(self, enable: bool) -> (c: RaftConfig)
        ensures
            c@ == (RaftConfigView { enable_pre_vote: enable, ..self@ }),
    {
        let mut c = self;
        c.enable_pre_vote = enable;
        c
    }

    /// Sets the log compaction parameters.
    pub fn with_log_compaction(self, max_size: usize, threshold: usize) -> (c: RaftConfig)
        ensures
            c@ == (RaftConfigView { max_log_size: max_size, compaction_threshold: threshold, ..self@ }),
    {
        let mut c = self;
        c.max_log_size = max_size;
        c.compaction_threshold = threshold;
        c
    }

    /// Sets the request timeout.
    pub fn with_request_timeout(self, timeout: u64) -> (c: RaftConfig)
        ensures
            c@ == (RaftConfigView { request_timeout: timeout, ..self@ }),
    {
        let mut c = self;
        c.request_timeout = timeout;
        c
    }

    /// Enables or disables leadership transfer.
    pub fn with_leadership_transfer(self, enable: bool) -> (c: RaftConfig)
        ensures
            c@ == (RaftConfigView { enable_leadership_transfer: enable, ..self@ }),
    {
        let mut c = self;
        c.enable_leadership_transfer = enable;
        c
    }

    /// Enables or disables batch optimisation.
    pub fn with_batch_optimization(self, enable: bool) -> (c: RaftConfig)
        ensures
            c@ == (RaftConfigView { enable_batch_optimization: enable, ..self@ }),
    {
        let mut c = self;
        c.enable_batch_optimization = enable;
        c
    }

    /// Checks the configuration: `Ok` exactly when it breaks no rule, else the
    /// configuration error that names the first rule it breaks.
    pub fn validate(&self) -> (r: RaftResult<()>)
        ensures
            r is Ok <==> config_problem(self@) is None,
            r is Err ==> r->Err_0 is ConfigurationError && r->Err_0->ConfigurationError_message@
                == config_problem(self@)->0,
    {
        if self.node_id == 0 {
            return Err(RaftError::configuration("Node ID cannot be zero"));
        }
        if contains_id(&self.peers, self.node_id) {
            return Err(RaftError::configuration("Peer list cannot contain the node's own ID"));
        }
        if self.heartbeat_interval >= self.election_timeout_min {
            return Err(
                RaftError::configuration(
                    "Heartbeat interval must be much smaller than election timeout",
                ),
            );
        }
        if self.election_timeout_min >= self.election_timeout_max {
            return Err(
                RaftError::configuration("Election timeout minimum must be less than maximum"),
            );
        }
        if self.election_timeout_min < 10 {
            return Err(RaftError::configuration("Election timeout minimum too small (< 10ms)"));
        }
        if self.election_timeout_max > 30000 {
            return Err(RaftError::configuration("Election timeout maximum too large (> 30s)"));
        }
        if self.max_entries_per_request == 0 {
            return Err(RaftError::configuration("Max entries per request cannot be zero"));
        }
        if self.max_entries_per_request > 10000 {
            return Err(RaftError::configuration("Max entries per request too large (> 10000)"));
        }
        if self.compaction_threshold > self.max_log_size {
            return Err(
                RaftError::configuration("Compaction threshold cannot be larger than max log size"),
            );
        }
        if self.request_timeout < 1 {
            return Err(RaftError::configuration("Request timeout too small (< 1ms)"));
        }
        Ok(())
    }

    /// Number of nodes in the cluster, this node included.
    pub fn cluster_size(&self) -> (n: usize)
        requires
            self.peers.len() < usize::MAX,
        ensures
            n == spec_cluster_size(self@),
    {
        self.peers.len() + 1
    }

    /// Number of nodes whose agreement makes a decision: a strict majority.
    pub fn quorum_size(&self) -> (n: usize)
        requires
            self.peers.len() < usize::MAX,
        ensures
            n == spec_quorum_size(self@),
    {
        (self.cluster_size() / 2) + 1
    }

    /// All node identifiers of the cluster, this node included, ascending.
    pub fn all_nodes(&self) -> (nodes: Vec<u64>)
        ensures
            nodes@ == sorted_ascending(self.peers@.push(self.node_id)),
    {
        let mut nodes = copy_ids(&self.peers);
        nodes.push(self.node_id);
        sort_u64(&nodes, false)
    }

    /// Whether `node_id` belongs to the cluster.
    pub fn is_member(&self, node_id: u64) -> (r: bool)
        ensures
            r == (node_id == self.node_id || self.peers@.contains(node_id)),
    {
        node_id == self.node_id || contains_id(&self.peers, node_id)
    }

    /// A random election timeout in the configured range, in milliseconds.
    pub fn random_election_timeout(&self) -> (t: u64)
        requires
            self.election_timeout_min <= self.election_timeout_max,
        ensures
            self.election_timeout_min <= t <= self.election_timeout_max,
    {
        crate::support::random_in_range(self.election_timeout_min, self.election_timeout_max)
    }
}

} // verus!
