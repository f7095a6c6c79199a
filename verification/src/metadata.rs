use vstd::prelude::*;
use crate::manifest::ManifestSummary;
use crate::schema::{ColumnDefV, Schema, schema_wf};

verus! {

/// One immutable, point-in-time view of the table: a fresh id, the id of
/// the snapshot it extends, when it was made, the manifests that list its
/// complete live data, and the summary of what the commit added.
#[derive(Debug)]
pub struct Snapshot {
    pub snapshot_id: u64,
    pub parent_id: Option<u64>,
    pub timestamp_ms: u64,
    pub manifest_paths: Vec<String>,
    pub summary: ManifestSummary,
}

/// Model of a snapshot.
pub struct SnapshotV {
    pub snapshot_id: u64,
    pub parent_id: Option<u64>,
    pub timestamp_ms: u64,
    pub manifest_paths: Seq<Seq<char>>,
    pub summary: ManifestSummary,
}

/// The models of a list of paths.
pub open spec fn paths_view(ps: Seq<String>) -> Seq<Seq<char>> {
    ps.map_values(|p: String| p@)
}

impl View for Snapshot {
    type V = SnapshotV;

    open spec fn view(&self) -> SnapshotV {
        SnapshotV {
            snapshot_id: self.snapshot_id,
            parent_id: self.parent_id,
            timestamp_ms: self.timestamp_ms,
            manifest_paths: paths_view(self.manifest_paths@),
            summary: self.summary,
        }
    }
}

impl Clone for Snapshot {
    fn clone(&self) -> (r: Self)
        ensures
            r@ == self@,
    {
        let mut manifest_paths: Vec<String> = Vec::new();
        for k in 0..self.manifest_paths.len()
            invariant
                manifest_paths@.len() == k,
                forall|i: int|
                    0 <= i < k ==> #[trigger] manifest_paths@[i]@ == self.manifest_paths@[i]@,
        {
            manifest_paths.push(self.manifest_paths[k].clone());
        }
        let r = Snapshot {
            snapshot_id: self.snapshot_id,
            parent_id: self.parent_id,
            timestamp_ms: self.timestamp_ms,
            manifest_paths,
            summary: self.summary,
        };
        proof {
            assert(paths_view(r.manifest_paths@) =~= paths_view(self.manifest_paths@));
        }
        r
    }
}

/// The models of a list of snapshots.
pub open spec fn snapshots_view(ss: Seq<Snapshot>) -> Seq<SnapshotV> {
    ss.map_values(|s: Snapshot| s@)
}

/// The versioned description of one table: its fixed schema, its storage
/// location, its whole snapshot history, and which snapshot is current.
/// Exactly one metadata document is current per table at any instant; a
/// commit writes a new document and never changes an old one.
#[derive(Debug)]
pub struct TableMetadata {
    pub format_version: u64,
    pub schema: Schema,
    pub location: String,
    pub current_snapshot_id: Option<u64>,
    pub snapshots: Vec<Snapshot>,
}

/// Model of a table-metadata document.
pub struct MetadataV {
    pub format_version: u64,
    pub schema: Seq<ColumnDefV>,
    pub location: Seq<char>,
    pub current_snapshot_id: Option<u64>,
    pub snapshots: Seq<SnapshotV>,
}

impl View for TableMetadata {
    type V = MetadataV;

    open spec fn view(&self) -> MetadataV {
        MetadataV {
            format_version: self.format_version,
            schema: self.schema@,
            location: self.location@,
            current_snapshot_id: self.current_snapshot_id,
            snapshots: snapshots_view(self.snapshots@),
        }
    }
}

impl Clone for TableMetadata {
    fn clone(&self) -> (r: Self)
        ensures
            r@ == self@,
    {
        let mut snapshots: Vec<Snapshot> = Vec::new();
        for k in 0..self.snapshots.len()
            invariant
                snapshots@.len() == k,
                forall|i: int| 0 <= i < k ==> #[trigger] snapshots@[i]@ == self.snapshots@[i]@,
        {
            snapshots.push(self.snapshots[k].clone());
        }
        let r = TableMetadata {
            format_version: self.format_version,
            schema: self.schema.clone(),
            location: self.location.clone(),
            current_snapshot_id: self.current_snapshot_id,
            snapshots,
        };
        proof {
            assert(snapshots_view(r.snapshots@) =~= snapshots_view(self.snapshots@));
        }
        r
    }
}

/// A metadata document is well formed when its schema is well formed and
/// nonempty, its snapshot ids are one, two, three and so on in history
/// order, every snapshot's parent is the snapshot before it, and the
/// current snapshot is the last one (or none for a table with no data yet).
pub open spec fn metadata_wf(m: MetadataV) -> bool {
    &&& schema_wf(m.schema)
    &&& m.schema.len() >= 1
    &&& forall|i: int|
        0 <= i < m.snapshots.len() ==> (#[trigger] m.snapshots[i]).snapshot_id == i + 1
    &&& forall|i: int|
        0 <= i < m.snapshots.len() ==> (#[trigger] m.snapshots[i]).parent_id == (if i == 0 {
            None
        } else {
            Some(i as u64)
        })
    &&& m.current_snapshot_id == (if m.snapshots.len() == 0 {
        None::<u64>
    } else {
        Some(m.snapshots.len() as u64)
    })
    &&& m.snapshots.len() <= u64::MAX
}

/// The snapshot history of a well-formed table is a single traceable chain:
/// snapshot ids are distinct and strictly increasing, the first snapshot has
/// no parent, every later snapshot's parent is exactly the snapshot before
/// it, and the current snapshot is the newest.
pub proof fn lemma_snapshot_chain(m: MetadataV)
    requires
        metadata_wf(m),
    ensures
        forall|i: int, j: int|
            0 <= i < j < m.snapshots.len() ==> (#[trigger] m.snapshots[i]).snapshot_id < (
            #[trigger] m.snapshots[j]).snapshot_id,
        forall|i: int|
            1 <= i < m.snapshots.len() ==> (#[trigger] m.snapshots[i]).parent_id == Some(
                m.snapshots[i - 1].snapshot_id,
            ),
        m.snapshots.len() > 0 ==> m.snapshots[0].parent_id is None,
        m.snapshots.len() > 0 ==> m.current_snapshot_id == Some(
            m.snapshots[m.snapshots.len() - 1].snapshot_id,
        ),
{
}

} // verus!
