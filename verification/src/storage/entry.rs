//! What a store keeps besides raw entries: the persistent state of a node,
//! the cluster membership, and log entries stamped with a checksum.

use vstd::prelude::*;
use std::collections::hash_map::DefaultHasher;
use std::collections::HashMap;
use std::hash::Hasher;
use vstd::std_specs::hash::DefaultHasherAdditionalSpecFns;
use crate::raft::log::{LogEntry, LogEntryType, LogEntryView, LogIndex, Term};

verus! {

/// Information about a cluster node. `added_at` is in milliseconds since
/// the Unix epoch.
#[derive(Debug, Clone, PartialEq)]
pub struct NodeInfo {
    /// Node identifier.
    pub id: u64,
    /// Address the node is reached at.
    pub address: String,
    /// Whether the node votes.
    pub voting: bool,
    /// When the node joined the cluster.
    pub added_at: i64,
}

impl NodeInfo {
    /// A voting node, added now.
    pub fn voting(id: u64, address: String) -> (n: NodeInfo)
        ensures
            n.id == id,
            n.address == address,
            n.voting,
    {
        NodeInfo { id, address, voting: true, added_at: crate::support::now_millis() }
    }

    /// A non-voting node, added now.
    pub fn non_voting(id: u64, address: String) -> (n: NodeInfo)
        ensures
            n.id == id,
            n.address == address,
            !n.voting,
    {
        NodeInfo { id, address, voting: false, added_at: crate::support::now_millis() }
    }
}

/// Cluster membership.
#[derive(Debug, Clone, PartialEq)]
pub struct ClusterConfig {
    /// The nodes of the cluster, by identifier.
    pub nodes: HashMap<u64, NodeInfo>,
    /// Index of the configuration change.
    pub config_index: LogIndex,
}

impl ClusterConfig {
    /// No node, configuration index 0.
    pub fn default() -> (c: ClusterConfig)
        ensures
            c.nodes@ == Map::<u64, NodeInfo>::empty(),
            c.config_index == 0,
    {
        ClusterConfig { nodes: HashMap::new(), config_index: 0 }
    }
}

/// State a node keeps across restarts.
#[derive(Debug, Clone, PartialEq)]
pub struct PersistentState {
    /// Current term.
    pub current_term: Term,
    /// Candidate voted for in the current term.
    pub voted_for: Option<u64>,
    /// Last applied log index.
    pub last_applied: LogIndex,
    /// Cluster membership.
    pub cluster_config: ClusterConfig,
}

impl PersistentState {
    /// Term 0, no vote, nothing applied, no node.
    pub fn default() -> (s: PersistentState)
        ensures
            s.current_term == 0,
            s.voted_for is None,
            s.last_applied == 0,
            s.cluster_config.nodes@ == Map::<u64, NodeInfo>::empty(),
            s.cluster_config.config_index == 0,
    {
        PersistentState {
            current_term: 0,
            voted_for: None,
            last_applied: 0,
            cluster_config: ClusterConfig::default(),
        }
    }
}

/// The eight bytes of `n`, least significant first.
#[verifier::opaque]
pub open spec fn le_bytes(n: u64) -> Seq<u8> {
    seq![
        (n % 256) as u8,
        ((n / 0x100) % 256) as u8,
        ((n / 0x10000) % 256) as u8,
        ((n / 0x1000000) % 256) as u8,
        ((n / 0x100000000) % 256) as u8,
        ((n / 0x10000000000) % 256) as u8,
        ((n / 0x1000000000000) % 256) as u8,
        ((n / 0x100000000000000) % 256) as u8,
    ]
}

/// A one-byte code of an entry kind.
pub open spec fn type_code(t: LogEntryType) -> u8 {
    match t {
        LogEntryType::Command => 0,
        LogEntryType::Configuration => 1,
        LogEntryType::NoOp => 2,
        LogEntryType::Snapshot => 3,
    }
}

/// The checksum of an entry: the low 32 bits of the default hash of its
/// term, index, data and kind.
pub open spec fn entry_checksum(e: LogEntryView) -> u32 {
    (DefaultHasher::spec_finish(
        seq![le_bytes(e.term), le_bytes(e.index), e.data, seq![type_code(e.entry_type)]],
    ) % 0x100000000) as u32
}

/// The checksum of a byte string: the low 32 bits of its default hash.
pub open spec fn bytes_checksum(data: Seq<u8>) -> u32 {
    (DefaultHasher::spec_finish(seq![data]) % 0x100000000) as u32
}

/// The eight bytes of `n`, least significant first.
fn u64_bytes(n: u64) -> (r: Vec<u8>)
    ensures
        r@ == le_bytes(n),
{
    let r: Vec<u8> = vec![
        (n % 256) as u8,
        ((n / 0x100) % 256) as u8,
        ((n / 0x10000) % 256) as u8,
        ((n / 0x1000000) % 256) as u8,
        ((n / 0x100000000) % 256) as u8,
        ((n / 0x10000000000) % 256) as u8,
        ((n / 0x1000000000000) % 256) as u8,
        ((n / 0x100000000000000) % 256) as u8,
    ];
    proof {
        reveal(le_bytes);
        assert(r@ =~= le_bytes(n));
    }
    r
}

/// The checksum of an entry.
pub fn checksum_of(entry: &LogEntry) -> (c: u32)
    ensures
        c == entry_checksum(entry@),
{
    let code: u8 = match entry.entry_type {
        LogEntryType::Command => 0,
        LogEntryType::Configuration => 1,
        LogEntryType::NoOp => 2,
        LogEntryType::Snapshot => 3,
    };
    let term = u64_bytes(entry.term);
    let index = u64_bytes(entry.index);
    let kind: Vec<u8> = vec![code];
    assert(kind@ =~= seq![type_code(entry.entry_type)]);
    let mut hasher = DefaultHasher::new();
    hasher.write(term.as_slice());
    hasher.write(index.as_slice());
    hasher.write(entry.data.as_slice());
    hasher.write(kind.as_slice());
    proof {
        assert(hasher@ =~= seq![
            le_bytes(entry.term),
            le_bytes(entry.index),
            entry.data@,
            seq![type_code(entry.entry_type)],
        ]);
    }
    let h = hasher.finish();
    (h % 0x100000000) as u32
}

/// The checksum of a byte string.
pub fn checksum_of_bytes(data: &[u8]) -> (c: u32)
    ensures
        c == bytes_checksum(data@),
{
    let mut hasher = DefaultHasher::new();
    hasher.write(data);
    proof {
        assert(hasher@ =~= seq![data@]);
    }
    (hasher.finish() % 0x100000000) as u32
}

/// A log entry with the checksum computed when it was stored, and when
/// (milliseconds since the Unix epoch).
#[derive(Debug, Clone, PartialEq)]
pub struct StoredLogEntry {
    /// The entry.
    pub entry: LogEntry,
    /// Checksum of the entry when stored.
    pub checksum: u32,
    /// When the entry was stored.
    pub stored_at: i64,
}

impl StoredLogEntry {
    /// Stores `entry` now, with its checksum.
    pub fn new(entry: LogEntry) -> (s: StoredLogEntry)
        ensures
            s.entry == entry,
            s.checksum == entry_checksum(entry@),
    {
        let checksum = checksum_of(&entry);
        StoredLogEntry { entry, checksum, stored_at: crate::support::now_millis() }
    }

    /// Whether the entry still has the checksum it was stored with.
    pub fn verify_integrity(&self) -> (r: bool)
        ensures
            r == (entry_checksum(self.entry@) == self.checksum),
    {
        checksum_of(&self.entry) == self.checksum
    }
}

/// An entry just stored passes its integrity check.
pub proof fn law_fresh_entry_intact(s: StoredLogEntry, e: LogEntry)
    requires
        s.entry == e,
        s.checksum == entry_checksum(e@),
    ensures
        entry_checksum(s.entry@) == s.checksum,
{
}

} // verus!
