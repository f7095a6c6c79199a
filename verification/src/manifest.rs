use vstd::prelude::*;
use crate::datafile::{DataFile, DataFileV};

verus! {

/// How a manifest entry relates to the snapshot that owns the manifest: the
/// data file was added by that snapshot, carried over from the prior
/// snapshot, or removed by it.
#[derive(Clone, Copy, PartialEq, Eq, Structural, Debug)]
pub enum EntryStatus {
    Added,
    Existing,
    Deleted,
}

/// One manifest entry: a data file, its status, and the snapshot that
/// introduced the file.
#[derive(Debug)]
pub struct ManifestEntry {
    pub data_file: DataFile,
    pub status: EntryStatus,
    pub snapshot_id: u64,
}

/// Model of a manifest entry.
pub struct EntryV {
    pub data_file: DataFileV,
    pub status: EntryStatus,
    pub snapshot_id: u64,
}

impl View for ManifestEntry {
    type V = EntryV;

    open spec fn view(&self) -> EntryV {
        EntryV {
            data_file: self.data_file@,
            status: self.status,
            snapshot_id: self.snapshot_id,
        }
    }
}

impl Clone for ManifestEntry {
    fn clone(&self) -> (r: Self)
        ensures
            r@ == self@,
    {
        ManifestEntry {
            data_file: self.data_file.clone(),
            status: self.status,
            snapshot_id: self.snapshot_id,
        }
    }
}

/// The models of a sequence of manifest entries.
pub open spec fn entries_view(es: Seq<ManifestEntry>) -> Seq<EntryV> {
    es.map_values(|e: ManifestEntry| e@)
}

/// The models of a sequence of data files.
pub open spec fn files_view(fs: Seq<DataFile>) -> Seq<DataFileV> {
    fs.map_values(|f: DataFile| f@)
}

/// Aggregate counts over one manifest.  All counts saturate at the largest
/// 64-bit value.  This system never deletes rows, so the deleted counts of a
/// manifest it builds are zero.
#[derive(Clone, Copy, PartialEq, Eq, Structural, Debug)]
pub struct ManifestSummary {
    pub added_files: u64,
    pub added_rows: u64,
    pub existing_files: u64,
    pub existing_rows: u64,
    pub deleted_files: u64,
    pub deleted_rows: u64,
}

/// An ordered list of manifest entries plus its summary counts, owned by
/// exactly one snapshot and immutable once written.
#[derive(Debug)]
pub struct Manifest {
    pub entries: Vec<ManifestEntry>,
    pub summary: ManifestSummary,
}

/// Model of a manifest.
pub struct ManifestV {
    pub entries: Seq<EntryV>,
    pub summary: ManifestSummary,
}

impl View for Manifest {
    type V = ManifestV;

    open spec fn view(&self) -> ManifestV {
        ManifestV { entries: entries_view(self.entries@), summary: self.summary }
    }
}

impl Clone for Manifest {
    fn clone(&self) -> (r: Self)
        ensures
            r@ == self@,
    {
        let mut entries: Vec<ManifestEntry> = Vec::new();
        for k in 0..self.entries.len()
            invariant
                entries@.len() == k,
                forall|i: int| 0 <= i < k ==> #[trigger] entries@[i]@ == self.entries@[i]@,
        {
            entries.push(self.entries[k].clone());
        }
        let r = Manifest { entries, summary: self.summary };
        proof {
            assert(entries_view(r.entries@) =~= entries_view(self.entries@));
        }
        r
    }
}

/// 64-bit addition that saturates instead of wrapping.
pub open spec fn sat_add64(a: u64, b: u64) -> u64 {
    if a + b > u64::MAX {
        u64::MAX
    } else {
        (a + b) as u64
    }
}

/// The saturating sum of the row counts of a list of data files.
pub open spec fn sum_file_rows(fs: Seq<DataFileV>) -> u64
    decreases fs.len(),
{
    if fs.len() == 0 {
        0
    } else {
        sat_add64(fs[0].row_count, sum_file_rows(fs.skip(1)))
    }
}

/// The saturating sum of the row counts of a list of manifest entries.
pub open spec fn sum_entry_rows(es: Seq<EntryV>) -> u64
    decreases es.len(),
{
    if es.len() == 0 {
        0
    } else {
        sat_add64(es[0].data_file.row_count, sum_entry_rows(es.skip(1)))
    }
}

/// The entry that records one newly added data file.
pub open spec fn added_entry(f: DataFileV, snapshot_id: u64) -> EntryV {
    EntryV { data_file: f, status: EntryStatus::Added, snapshot_id }
}

/// The entry that carries one live data file over from the prior snapshot:
/// the file keeps the snapshot id that introduced it, and its statistics are
/// taken over verbatim.
pub open spec fn carried_entry(e: EntryV) -> EntryV {
    EntryV { data_file: e.data_file, status: EntryStatus::Existing, snapshot_id: e.snapshot_id }
}

/// The entries of the manifest built for one commit: the added files first,
/// then every live file of the prior snapshot, carried as existing.
pub open spec fn built_entries(added: Seq<DataFileV>, carried: Seq<EntryV>, snapshot_id: u64) -> Seq<
    EntryV,
> {
    Seq::new(added.len(), |i: int| added_entry(added[i], snapshot_id)) + Seq::new(
        carried.len(),
        |i: int| carried_entry(carried[i]),
    )
}

/// The summary of the manifest built for one commit.
pub open spec fn built_summary(added: Seq<DataFileV>, carried: Seq<EntryV>) -> ManifestSummary {
    ManifestSummary {
        added_files: crate::decode::sat64(added.len()),
        added_rows: sum_file_rows(added),
        existing_files: crate::decode::sat64(carried.len()),
        existing_rows: sum_entry_rows(carried),
        deleted_files: 0,
        deleted_rows: 0,
    }
}

/// Sums the row counts of a list of data files, saturating.
fn sum_file_rows_exec(fs: &Vec<DataFile>) -> (r: u64)
    ensures
        r == sum_file_rows(files_view(fs@)),
{
    let ghost fv = files_view(fs@);
    let mut total: u64 = 0;
    proof {
        assert(fv.skip(0) =~= fv);
    }
    for k in 0..fs.len()
        invariant
            fv == files_view(fs@),
            sat_add64(total, sum_file_rows(fv.skip(k as int))) == sum_file_rows(fv),
            total <= sum_file_rows(fv),
    {
        proof {
            assert(fv.skip(k as int)[0] == fv[k as int]);
            assert(fv.skip(k as int).skip(1) =~= fv.skip(k as int + 1));
            assert(fv[k as int] == fs@[k as int]@);
        }
        let rc = fs[k].row_count;
        if rc > u64::MAX - total {
            total = u64::MAX;
        } else {
            total = total + rc;
        }
    }
    proof {
        assert(fv.skip(fs@.len() as int) =~= Seq::<DataFileV>::empty());
    }
    total
}

/// Sums the row counts of a list of manifest entries, saturating.
fn sum_entry_rows_exec(es: &Vec<ManifestEntry>) -> (r: u64)
    ensures
        r == sum_entry_rows(entries_view(es@)),
{
    let ghost ev = entries_view(es@);
    let mut total: u64 = 0;
    proof {
        assert(ev.skip(0) =~= ev);
    }
    for k in 0..es.len()
        invariant
            ev == entries_view(es@),
            sat_add64(total, sum_entry_rows(ev.skip(k as int))) == sum_entry_rows(ev),
            total <= sum_entry_rows(ev),
    {
        proof {
            assert(ev.skip(k as int)[0] == ev[k as int]);
            assert(ev.skip(k as int).skip(1) =~= ev.skip(k as int + 1));
            assert(ev[k as int] == es@[k as int]@);
        }
        let rc = es[k].data_file.row_count;
        if rc > u64::MAX - total {
            total = u64::MAX;
        } else {
            total = total + rc;
        }
    }
    proof {
        assert(ev.skip(es@.len() as int) =~= Seq::<EntryV>::empty());
    }
    total
}

/// Builds the manifest for one commit from the newly created data files and
/// the live entries carried over from the prior snapshot.  Entries keep
/// their statistics verbatim; nothing is recomputed.  The added files come
/// first with status `Added` and the committing snapshot's id; every carried
/// entry follows with status `Existing` and its original snapshot id.
pub fn build_manifest(added: &Vec<DataFile>, carried: &Vec<ManifestEntry>, snapshot_id: u64) -> (m:
    Manifest)
    ensures
        m@.entries == built_entries(files_view(added@), entries_view(carried@), snapshot_id),
        m@.summary == built_summary(files_view(added@), entries_view(carried@)),
{
    let ghost av = files_view(added@);
    let ghost cv = entries_view(carried@);
    let mut entries: Vec<ManifestEntry> = Vec::new();
    for k in 0..added.len()
        invariant
            av == files_view(added@),
            entries@.len() == k,
            forall|i: int|
                0 <= i < k ==> #[trigger] entries@[i]@ == added_entry(av[i], snapshot_id),
    {
        proof {
            assert(av[k as int] == added@[k as int]@);
        }
        entries.push(
            ManifestEntry {
                data_file: added[k].clone(),
                status: EntryStatus::Added,
                snapshot_id,
            },
        );
    }
    let na = added.len();
    for k in 0..carried.len()
        invariant
            av == files_view(added@),
            cv == entries_view(carried@),
            na == av.len(),
            entries@.len() == na + k,
            forall|i: int|
                0 <= i < na ==> #[trigger] entries@[i]@ == added_entry(av[i], snapshot_id),
            forall|i: int|
                na <= i < na + k ==> #[trigger] entries@[i]@ == carried_entry(cv[i - na]),
    {
        proof {
            assert(cv[k as int] == carried@[k as int]@);
        }
        let e = &carried[k];
        entries.push(
            ManifestEntry {
                data_file: e.data_file.clone(),
                status: EntryStatus::Existing,
                snapshot_id: e.snapshot_id,
            },
        );
    }
    let added_rows = sum_file_rows_exec(added);
    let existing_rows = sum_entry_rows_exec(carried);
    let added_files = added.len() as u64;
    let existing_files = carried.len() as u64;
    let summary = ManifestSummary {
        added_files,
        added_rows,
        existing_files,
        existing_rows,
        deleted_files: 0,
        deleted_rows: 0,
    };
    let m = Manifest { entries, summary };
    proof {
        assert(entries_view(m.entries@) =~= built_entries(av, cv, snapshot_id));
    }
    m
}

} // verus!
