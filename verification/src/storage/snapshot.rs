//! Snapshot bookkeeping: file names, checksums, the check of a loaded
//! snapshot, which snapshots to drop, and statistics. Reading and writing
//! the files is left to the caller.

use vstd::prelude::*;
use crate::raft::log::{LogIndex, Term};
use crate::storage::entry::{bytes_checksum, checksum_of_bytes};
use crate::storage::error::{StorageError, StorageResult};
use crate::support::{decimal, decimal_text, join_text};

verus! {

/// Appends `name` to the directory `dir` through `std::path::Path::join`
/// and reads the result back with `to_string_lossy`. For a relative `name`
/// the result ends with `name`; the separator put before it depends on the
/// platform, so nothing more is promised.
#[verifier::external_body]
fn join_path(dir: &str, name: &str) -> (r: String)
    ensures
        r@.len() >= name@.len(),
        r@.skip(r@.len() - name@.len()) == name@,
{
    std::path::Path::new(dir).join(name).to_string_lossy().into_owned()
}

/// Metadata of a snapshot. `created_at` is in milliseconds since the Unix epoch.
#[derive(Debug, Clone, PartialEq)]
pub struct SnapshotMetadata {
    /// Index of the last entry the snapshot covers.
    pub last_included_index: LogIndex,
    /// Term of that entry.
    pub last_included_term: Term,
    /// Size of the snapshot data in bytes.
    pub size: u64,
    /// Checksum of the snapshot data.
    pub checksum: u32,
    /// When the snapshot was made.
    pub created_at: i64,
    /// Configuration index at the time of the snapshot.
    pub config_index: LogIndex,
    /// Nodes of the cluster at the time of the snapshot.
    pub cluster_config: Vec<u64>,
}

impl SnapshotMetadata {
    /// Metadata made now.
    pub fn new(
        last_included_index: LogIndex,
        last_included_term: Term,
        size: u64,
        checksum: u32,
        config_index: LogIndex,
        cluster_config: Vec<u64>,
    ) -> (m: SnapshotMetadata)
        ensures
            m.last_included_index == last_included_index,
            m.last_included_term == last_included_term,
            m.size == size,
            m.checksum == checksum,
            m.config_index == config_index,
            m.cluster_config == cluster_config,
    {
        SnapshotMetadata {
            last_included_index,
            last_included_term,
            size,
            checksum,
            created_at: crate::support::now_millis(),
            config_index,
            cluster_config,
        }
    }
}

/// Statistics about stored snapshots.
#[derive(Debug, Clone, PartialEq, Eq)]
pub struct SnapshotStats {
    /// Number of snapshots.
    pub count: usize,
    /// Total size of the snapshots in bytes.
    pub total_size: u64,
    /// Index of the oldest snapshot.
    pub oldest_snapshot: Option<LogIndex>,
    /// Index of the newest snapshot.
    pub newest_snapshot: Option<LogIndex>,
}

/// The name of the data file of the snapshot at `index`.
pub open spec fn snapshot_file_name(index: u64) -> Seq<char> {
    "snapshot_"@ + decimal(index as nat) + ".snap"@
}

/// The name of the metadata file of the snapshot at `index`.
pub open spec fn metadata_file_name(index: u64) -> Seq<char> {
    "snapshot_"@ + decimal(index as nat) + ".meta"@
}

/// Sum of the sizes of the `(index, size)` pairs.
pub open spec fn total_size(s: Seq<(u64, u64)>) -> int
    decreases s.len(),
{
    if s.len() == 0 {
        0
    } else {
        total_size(s.drop_last()) + s.last().1
    }
}

/// The least index among the `(index, size)` pairs.
pub open spec fn min_index(s: Seq<(u64, u64)>) -> Option<u64>
    decreases s.len(),
{
    if s.len() == 0 {
        None
    } else {
        match min_index(s.drop_last()) {
            Some(m) => Some(if s.last().0 < m { s.last().0 } else { m }),
            None => Some(s.last().0),
        }
    }
}

/// The greatest index among the `(index, size)` pairs.
pub open spec fn max_index(s: Seq<(u64, u64)>) -> Option<u64>
    decreases s.len(),
{
    if s.len() == 0 {
        None
    } else {
        match max_index(s.drop_last()) {
            Some(m) => Some(if s.last().0 > m { s.last().0 } else { m }),
            None => Some(s.last().0),
        }
    }
}

/// Manages the snapshots of a directory, keeping at most `max_snapshots`.
#[derive(Debug)]
pub struct SnapshotManager {
    snapshots_dir: String,
    max_snapshots: usize,
    compress: bool,
}

impl SnapshotManager {
    /// The directory of the snapshots.
    pub closed spec fn dir_spec(&self) -> Seq<char> {
        self.snapshots_dir@
    }

    /// How many snapshots are kept.
    pub closed spec fn max_spec(&self) -> usize {
        self.max_snapshots
    }

    /// A manager of `snapshots_dir` that keeps five snapshots, uncompressed.
    /// The directory must exist.
    pub fn new(snapshots_dir: String) -> (m: SnapshotManager)
        ensures
            m.dir_spec() == snapshots_dir@,
            m.max_spec() == 5,
    {
        SnapshotManager::with_config(snapshots_dir, 5, false)
    }

    /// A manager of `snapshots_dir` that keeps `max_snapshots` snapshots.
    /// The directory must exist.
    pub fn with_config(snapshots_dir: String, max_snapshots: usize, compress: bool) -> (m:
        SnapshotManager)
        ensures
            m.dir_spec() == snapshots_dir@,
            m.max_spec() == max_snapshots,
    {
        SnapshotManager { snapshots_dir, max_snapshots, compress }
    }

    /// The directory of the snapshots.
    pub fn snapshots_dir(&self) -> (r: &str)
        ensures
            r@ == self.dir_spec(),
    {
        self.snapshots_dir.as_str()
    }

    /// The name of the data file of the snapshot at `index`.
    pub fn snapshot_file(index: LogIndex) -> (r: String)
        ensures
            r@ == snapshot_file_name(index),
    {
        let digits = decimal_text(index);
        let a = join_text("snapshot_", digits.as_str());
        join_text(a.as_str(), ".snap")
    }

    /// The name of the metadata file of the snapshot at `index`.
    pub fn metadata_file(index: LogIndex) -> (r: String)
        ensures
            r@ == metadata_file_name(index),
    {
        let digits = decimal_text(index);
        let a = join_text("snapshot_", digits.as_str());
        join_text(a.as_str(), ".meta")
    }

    /// The path of the data file of the snapshot at `index`: the directory
    /// joined with `snapshot_{index}.snap`.
    pub fn snapshot_path(&self, index: LogIndex) -> (r: String)
        ensures
            r@.len() >= snapshot_file_name(index).len(),
            r@.skip(r@.len() - snapshot_file_name(index).len()) == snapshot_file_name(index),
    {
        let name = SnapshotManager::snapshot_file(index);
        join_path(self.snapshots_dir.as_str(), name.as_str())
    }

    /// The path of the metadata file of the snapshot at `index`: the
    /// directory joined with `snapshot_{index}.meta`.
    pub fn metadata_path(&self, index: LogIndex) -> (r: String)
        ensures
            r@.len() >= metadata_file_name(index).len(),
            r@.skip(r@.len() - metadata_file_name(index).len()) == metadata_file_name(index),
    {
        let name = SnapshotManager::metadata_file(index);
        join_path(self.snapshots_dir.as_str(), name.as_str())
    }

    /// The checksum of snapshot data.
    pub fn calculate_checksum(&self, data: &[u8]) -> (c: u32)
        ensures
            c == bytes_checksum(data@),
    {
        checksum_of_bytes(data)
    }

    /// The metadata of a snapshot of `data` that covers the entries up to
    /// `last_included_index`: its size and checksum.
    pub fn describe_snapshot(
        &self,
        data: &[u8],
        last_included_index: LogIndex,
        last_included_term: Term,
        config_index: LogIndex,
        cluster_config: Vec<u64>,
    ) -> (m: SnapshotMetadata)
        ensures
            m.last_included_index == last_included_index,
            m.last_included_term == last_included_term,
            m.size == data@.len(),
            m.checksum == bytes_checksum(data@),
            m.config_index == config_index,
            m.cluster_config == cluster_config,
    {
        let checksum = self.calculate_checksum(data);
        SnapshotMetadata::new(
            last_included_index,
            last_included_term,
            data.len() as u64,
            checksum,
            config_index,
            cluster_config,
        )
    }

    /// Checks loaded snapshot data against its metadata: refused with a
    /// corruption error when the checksums differ.
    pub fn check_snapshot(&self, data: &[u8], metadata: &SnapshotMetadata) -> (r: StorageResult<()>)
        ensures
            r is Ok <==> bytes_checksum(data@) == metadata.checksum,
            r is Err ==> r->Err_0 is Corruption && r->Err_0->Corruption_message@
                == "Snapshot checksum mismatch: expected "@ + decimal(metadata.checksum as nat)
                + ", got "@ + decimal(bytes_checksum(data@) as nat),
    {
        let calculated = self.calculate_checksum(data);
        if calculated != metadata.checksum {
            let expected = decimal_text(metadata.checksum as u64);
            let got = decimal_text(calculated as u64);
            let a = join_text("Snapshot checksum mismatch: expected ", expected.as_str());
            let b = join_text(a.as_str(), ", got ");
            let message = join_text(b.as_str(), got.as_str());
            return Err(StorageError::Corruption { message });
        }
        Ok(())
    }

    /// Of the snapshot indices `sorted` (ascending), those to delete so that
    /// at most `max_snapshots` remain: the oldest ones.
    pub fn snapshots_to_remove(&self, sorted: &Vec<LogIndex>) -> (r: Vec<LogIndex>)
        ensures
            sorted@.len() > self.max_spec() ==> r@ == sorted@.take(sorted@.len() - self.max_spec()),
            sorted@.len() <= self.max_spec() ==> r@.len() == 0,
    {
        let mut out: Vec<LogIndex> = Vec::new();
        if sorted.len() > self.max_snapshots {
            let count = sorted.len() - self.max_snapshots;
            let mut i: usize = 0;
            while i < count
                invariant
                    i <= count,
                    count <= sorted@.len(),
                    out@ == sorted@.take(i as int),
                decreases count - i,
            {
                out.push(sorted[i]);
                proof {
                    assert(sorted@.take(i + 1) =~= sorted@.take(i as int).push(sorted@[i as int]));
                }
                i = i + 1;
            }
        }
        out
    }

    /// The index in the name of a snapshot data file,
    /// `snapshot_<index>.snap`.
    pub fn index_of_snapshot_file(name: &str) -> (r: Option<LogIndex>)
        ensures
            r == crate::storage::file_format::snapshot_index_of(name@),
    {
        crate::storage::file_format::snapshot_index_in(name)
    }

    /// The index of the latest of the snapshots listed, none for none.
    pub fn latest_index(indices: &Vec<LogIndex>) -> (r: Option<LogIndex>)
        ensures
            indices@.len() == 0 <==> r is None,
            r matches Some(m) ==> indices@.contains(m) && forall|i: int|
                0 <= i < indices@.len() ==> #[trigger] indices@[i] <= m,
    {
        if indices.len() == 0 {
            return None;
        }
        let mut m = indices[0];
        let mut i: usize = 1;
        while i < indices.len()
            invariant
                1 <= i <= indices@.len(),
                indices@.contains(m),
                forall|j: int| 0 <= j < i ==> #[trigger] indices@[j] <= m,
            decreases indices.len() - i,
        {
            if indices[i] > m {
                m = indices[i];
            }
            i = i + 1;
        }
        Some(m)
    }

    /// Whether a snapshot verifies, from the outcome of loading it: a load
    /// refused as corrupted is a snapshot that does not verify; another
    /// error is passed on.
    pub fn verification_outcome(loaded: StorageResult<()>) -> (r: StorageResult<bool>)
        ensures
            loaded is Ok ==> r == Ok::<bool, StorageError>(true),
            loaded is Err && crate::storage::error::spec_storage_corruption(loaded->Err_0) ==> r
                == Ok::<bool, StorageError>(false),
            loaded is Err && !crate::storage::error::spec_storage_corruption(loaded->Err_0) ==> r
                == Err::<bool, StorageError>(loaded->Err_0),
    {
        match loaded {
            Ok(()) => Ok(true),
            Err(e) => {
                if e.is_corruption() {
                    Ok(false)
                } else {
                    Err(e)
                }
            },
        }
    }

    /// Statistics of the snapshots listed as `(index, size)` pairs: their
    /// number, total size, and oldest and newest index.
    pub fn storage_stats_of(&self, snapshots: &Vec<(LogIndex, u64)>) -> (r: StorageResult<SnapshotStats>)
        requires
            total_size(snapshots@) <= u64::MAX,
        ensures
            r == Ok::<SnapshotStats, StorageError>(
                SnapshotStats {
                    count: snapshots@.len() as usize,
                    total_size: total_size(snapshots@) as u64,
                    oldest_snapshot: min_index(snapshots@),
                    newest_snapshot: max_index(snapshots@),
                },
            ),
    {
        let mut total: u64 = 0;
        let mut oldest: Option<LogIndex> = None;
        let mut newest: Option<LogIndex> = None;
        let mut i: usize = 0;
        while i < snapshots.len()
            invariant
                i <= snapshots@.len(),
                total_size(snapshots@) <= u64::MAX,
                total == total_size(snapshots@.take(i as int)),
                oldest == min_index(snapshots@.take(i as int)),
                newest == max_index(snapshots@.take(i as int)),
            decreases snapshots.len() - i,
        {
            let (index, size) = snapshots[i];
            proof {
                let t = snapshots@.take(i + 1);
                assert(t.drop_last() =~= snapshots@.take(i as int));
                lemma_total_size_prefix(snapshots@, i + 1);
            }
            total = total + size;
            oldest = match oldest {
                Some(m) => Some(if index < m { index } else { m }),
                None => Some(index),
            };
            newest = match newest {
                Some(m) => Some(if index > m { index } else { m }),
                None => Some(index),
            };
            i = i + 1;
        }
        proof {
            assert(snapshots@.take(snapshots@.len() as int) =~= snapshots@);
        }
        Ok(
            SnapshotStats {
                count: snapshots.len(),
                total_size: total,
                oldest_snapshot: oldest,
                newest_snapshot: newest,
            },
        )
    }
}

/// A prefix of the pairs has a total size no larger than the whole.
proof fn lemma_total_size_prefix(s: Seq<(u64, u64)>, n: int)
    requires
        0 <= n <= s.len(),
    ensures
        total_size(s.take(n)) <= total_size(s),
    decreases s.len() - n,
{
    if n < s.len() {
        lemma_total_size_prefix(s, n + 1);
        assert(s.take(n + 1).drop_last() =~= s.take(n));
    } else {
        assert(s.take(n) =~= s);
    }
}

} // verus!
