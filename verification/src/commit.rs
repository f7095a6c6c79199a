use vstd::prelude::*;
use crate::catalog::{Catalog, pointer_view};
use crate::manifest::{EntryV, Manifest, ManifestEntry, built_entries, built_summary,
    entries_view, files_view};
use crate::datafile::DataFile;
use crate::metadata::{MetadataV, Snapshot, SnapshotV, TableMetadata, metadata_wf, paths_view,
    snapshots_view};
use crate::schema::{Schema, schemas_equal};
use crate::store::{BlobV, ObjectStore, PutOutcome, StoredBlob, store_lookup};
use crate::text::{manifest_path, manifest_path_s, metadata_path, metadata_path_s};

verus! {

/// Why a commit attempt failed.
#[derive(Debug)]
pub enum CommitError {
    /// The ingesting schema is not the table's schema; never retried.
    SchemaMismatch,
    /// A transient store fault while writing the manifest or the metadata
    /// document; the staged objects are abandoned and the caller may retry.
    ManifestWrite,
    /// Another writer advanced the table first: the pointer moved, or this
    /// commit's object names were already taken.  Retried by rebasing on
    /// the new current snapshot, up to a bound.
    Conflict,
    /// A transient catalog fault; the table is untouched.
    CatalogUnavailable,
    /// The catalog and store do not describe a consistent table: no pointer,
    /// a dangling pointer, or a missing manifest.
    CorruptTable,
    /// The snapshot-id space is exhausted.
    HistoryFull,
}

/// What a successful commit reports: the id of the new snapshot and where
/// its metadata document lives.
#[derive(Debug)]
pub struct CommitAck {
    pub snapshot_id: u64,
    pub metadata_path: String,
}

/// The entries of the listed manifests, in order; a missing manifest
/// contributes nothing.
pub open spec fn manifests_entries(
    paths: Seq<Seq<char>>,
    objects: Seq<(String, StoredBlob)>,
) -> Seq<EntryV>
    decreases paths.len(),
{
    if paths.len() == 0 {
        Seq::empty()
    } else {
        (match store_lookup(objects, paths[0]) {
            Some(BlobV::ManifestDoc(m)) => m.entries,
            _ => Seq::empty(),
        }) + manifests_entries(paths.skip(1), objects)
    }
}

/// The complete live data of the table: the entries of the current
/// snapshot's manifests.  A reader needs only the current snapshot to
/// reconstruct the table's contents.
pub open spec fn live_entries(m: MetadataV, objects: Seq<(String, StoredBlob)>) -> Seq<EntryV> {
    if m.snapshots.len() == 0 {
        Seq::empty()
    } else {
        manifests_entries(m.snapshots.last().manifest_paths, objects)
    }
}

/// Every manifest that any snapshot of the table references is in the store.
pub open spec fn manifests_present(m: MetadataV, objects: Seq<(String, StoredBlob)>) -> bool {
    forall|i: int, k: int|
        0 <= i < m.snapshots.len() && 0 <= k < (#[trigger] m.snapshots[i]).manifest_paths.len()
            ==> store_lookup(objects, (#[trigger] m.snapshots[i].manifest_paths[k])) matches Some(
            BlobV::ManifestDoc(_),
        )
}

/// The metadata document that the catalog pointer names, if it is there.
pub open spec fn table_at(
    pointer: Option<Seq<char>>,
    objects: Seq<(String, StoredBlob)>,
) -> Option<MetadataV> {
    match pointer {
        None => None,
        Some(p) => match store_lookup(objects, p) {
            Some(BlobV::MetadataDoc(m)) => Some(m),
            _ => None,
        },
    }
}

/// The catalog and the store describe a consistent table: the pointer names
/// a well-formed metadata document, and every referenced manifest exists.
pub open spec fn consistent(
    pointer: Option<Seq<char>>,
    objects: Seq<(String, StoredBlob)>,
) -> bool {
    &&& table_at(pointer, objects) matches Some(m)
    &&& metadata_wf(table_at(pointer, objects)->Some_0)
    &&& manifests_present(table_at(pointer, objects)->Some_0, objects)
}

/// One key maps to the same object in two stores.
pub open spec fn lookups_preserved(
    old_objects: Seq<(String, StoredBlob)>,
    new_objects: Seq<(String, StoredBlob)>,
) -> bool {
    forall|k: Seq<char>|
        store_lookup(old_objects, k) is Some ==> #[trigger] store_lookup(new_objects, k)
            == store_lookup(old_objects, k)
}

/// Manifest contents survive any append-only store growth.
pub proof fn lemma_entries_preserved(
    paths: Seq<Seq<char>>,
    old_objects: Seq<(String, StoredBlob)>,
    new_objects: Seq<(String, StoredBlob)>,
)
    requires
        lookups_preserved(old_objects, new_objects),
        forall|i: int| 0 <= i < paths.len() ==> store_lookup(old_objects, #[trigger] paths[i]) is Some,
    ensures
        manifests_entries(paths, new_objects) == manifests_entries(paths, old_objects),
    decreases paths.len(),
{
    if paths.len() > 0 {
        assert(store_lookup(old_objects, paths[0]) is Some);
        assert(store_lookup(new_objects, paths[0]) == store_lookup(old_objects, paths[0]));
        assert(forall|i: int|
            0 <= i < paths.skip(1).len() ==> #[trigger] paths.skip(1)[i] == paths[i + 1]);
        lemma_entries_preserved(paths.skip(1), old_objects, new_objects);
    }
}

/// A consistent table stays consistent under the same pointer when the
/// store only grows, and its live data stays the same.
pub proof fn lemma_consistent_preserved(
    pointer: Option<Seq<char>>,
    old_objects: Seq<(String, StoredBlob)>,
    new_objects: Seq<(String, StoredBlob)>,
)
    requires
        consistent(pointer, old_objects),
        lookups_preserved(old_objects, new_objects),
    ensures
        consistent(pointer, new_objects),
        table_at(pointer, new_objects) == table_at(pointer, old_objects),
        live_entries(table_at(pointer, old_objects)->Some_0, new_objects) == live_entries(
            table_at(pointer, old_objects)->Some_0,
            old_objects,
        ),
{
    let m = table_at(pointer, old_objects)->Some_0;
    let p = pointer->Some_0;
    assert(store_lookup(new_objects, p) == store_lookup(old_objects, p));
    assert forall|i: int, k: int|
        0 <= i < m.snapshots.len() && 0 <= k < (#[trigger] m.snapshots[i]).manifest_paths.len()
            implies store_lookup(new_objects, (#[trigger] m.snapshots[i].manifest_paths[k]))
        matches Some(BlobV::ManifestDoc(_)) by {
        assert(store_lookup(old_objects, m.snapshots[i].manifest_paths[k]) matches Some(
            BlobV::ManifestDoc(_),
        ));
    }
    if m.snapshots.len() > 0 {
        let paths = m.snapshots.last().manifest_paths;
        assert forall|i: int| 0 <= i < paths.len() implies store_lookup(
            old_objects,
            #[trigger] paths[i],
        ) is Some by {
            assert(store_lookup(old_objects, m.snapshots[m.snapshots.len() - 1].manifest_paths[i])
                matches Some(BlobV::ManifestDoc(_)));
        }
        lemma_entries_preserved(paths, old_objects, new_objects);
    }
}

/// The manifest and metadata paths of one commit never collide: they differ
/// already in length.
proof fn lemma_paths_distinct(location: Seq<char>, id: u64)
    ensures
        manifest_path_s(location, id) != metadata_path_s(location, id),
{
    reveal_strlit("/manifests/");
    reveal_strlit("/metadata/");
    reveal_strlit(".mf");
    reveal_strlit(".tm");
    assert(manifest_path_s(location, id).len() == location.len() + 11 + crate::text::dec_str(
        id,
    ).len() + 3);
    assert(metadata_path_s(location, id).len() == location.len() + 10 + crate::text::dec_str(
        id,
    ).len() + 3);
}

/// The snapshot that one commit makes on top of the given table state.
pub open spec fn next_snapshot(
    m: MetadataV,
    files: Seq<crate::datafile::DataFileV>,
    carried: Seq<EntryV>,
    timestamp_ms: u64,
) -> SnapshotV {
    SnapshotV {
        snapshot_id: (m.snapshots.len() + 1) as u64,
        parent_id: m.current_snapshot_id,
        timestamp_ms,
        manifest_paths: seq![manifest_path_s(m.location, (m.snapshots.len() + 1) as u64)],
        summary: built_summary(files, carried),
    }
}

/// The metadata document that one commit writes: the old document with the
/// new snapshot appended to the history and made current.  Everything else
/// is carried over unchanged.
pub open spec fn next_metadata(
    m: MetadataV,
    files: Seq<crate::datafile::DataFileV>,
    timestamp_ms: u64,
    objects: Seq<(String, StoredBlob)>,
) -> MetadataV {
    MetadataV {
        format_version: m.format_version,
        schema: m.schema,
        location: m.location,
        current_snapshot_id: Some((m.snapshots.len() + 1) as u64),
        snapshots: m.snapshots.push(
            next_snapshot(m, files, live_entries(m, objects), timestamp_ms),
        ),
    }
}

/// What a successful commit guarantees: the table that was current when the
/// commit read the catalog has been extended by exactly one snapshot, the
/// new metadata document is in the store under the acknowledged path, the
/// pointer names it, and the new live data is the added files followed by
/// everything that was live before — no writer's data is dropped.
pub open spec fn commit_success(
    ack: CommitAck,
    old_cat: Catalog,
    old_store: ObjectStore,
    new_cat: Catalog,
    new_store: ObjectStore,
    ingest: Seq<crate::schema::ColumnDefV>,
    files: Seq<crate::datafile::DataFileV>,
    timestamp_ms: u64,
) -> bool {
    let oldp = pointer_view(old_cat.pointer);
    let oldobj = old_store.objects@;
    &&& table_at(oldp, oldobj) matches Some(m0)
    &&& {
        let m0 = table_at(oldp, oldobj)->Some_0;
        let m1 = next_metadata(m0, files, timestamp_ms, oldobj);
        &&& m0.schema =~= ingest
        &&& ack.snapshot_id == m0.snapshots.len() + 1
        &&& ack.metadata_path@ == metadata_path_s(m0.location, ack.snapshot_id)
        &&& pointer_view(new_cat.pointer) == Some(ack.metadata_path@)
        &&& store_lookup(new_store.objects@, ack.metadata_path@) == Some(BlobV::MetadataDoc(m1))
        &&& live_entries(m1, new_store.objects@) == built_entries(
            files,
            live_entries(m0, oldobj),
            ack.snapshot_id,
        )
    }
}

/// What each failure kind says about the state the commit started from.
pub open spec fn commit_failure(
    e: CommitError,
    old_cat: Catalog,
    old_store: ObjectStore,
    new_store: ObjectStore,
    ingest: Seq<crate::schema::ColumnDefV>,
) -> bool {
    let oldp = pointer_view(old_cat.pointer);
    let oldobj = old_store.objects@;
    match e {
        CommitError::SchemaMismatch => new_store.objects == old_store.objects && (table_at(
            oldp,
            oldobj,
        ) matches Some(m0) && !(m0.schema =~= ingest)),
        CommitError::ManifestWrite => old_store.pending_faults > 0,
        CommitError::CatalogUnavailable => old_cat.pending_faults > 0,
        CommitError::Conflict => true,
        CommitError::CorruptTable => !consistent(oldp, oldobj),
        CommitError::HistoryFull => true,
    }
}

/// The starting states from which a commit attempt is owed success: no
/// injected faults, a consistent table, the matching schema, room for one
/// more snapshot, and the commit's two object names still free.
pub open spec fn commit_unobstructed(
    cat: Catalog,
    st: ObjectStore,
    ingest: Seq<crate::schema::ColumnDefV>,
) -> bool {
    let oldp = pointer_view(cat.pointer);
    let oldobj = st.objects@;
    &&& cat.pending_faults == 0
    &&& st.pending_faults == 0
    &&& consistent(oldp, oldobj)
    &&& {
        let m0 = table_at(oldp, oldobj)->Some_0;
        let id = (m0.snapshots.len() + 1) as u64;
        &&& m0.schema =~= ingest
        &&& m0.snapshots.len() < u64::MAX
        &&& store_lookup(oldobj, manifest_path_s(m0.location, id)) is None
        &&& store_lookup(oldobj, metadata_path_s(m0.location, id)) is None
    }
}

/// One full commit attempt: read the current table state through the
/// catalog, verify the schema, build and write the new manifest and the new
/// metadata document at fresh names, and swap the catalog pointer with
/// compare-and-swap.  Nothing becomes visible to readers before the swap,
/// and a failed attempt leaves the pointer exactly where it was.
pub fn try_commit_once(
    catalog: &mut Catalog,
    store: &mut ObjectStore,
    ingest_schema: &Schema,
    new_files: &Vec<DataFile>,
    timestamp_ms: u64,
) -> (r: Result<CommitAck, CommitError>)
    requires
        old(store).wf(),
    ensures
        final(store).wf(),
        final(catalog).pending_faults <= old(catalog).pending_faults,
        final(store).pending_faults <= old(store).pending_faults,
        lookups_preserved(old(store).objects@, final(store).objects@),
        r is Err ==> pointer_view(final(catalog).pointer) == pointer_view(old(catalog).pointer),
        pointer_view(final(catalog).pointer) == pointer_view(old(catalog).pointer) || (r matches
        Ok(ack) && pointer_view(final(catalog).pointer) == Some(ack.metadata_path@)),
        consistent(pointer_view(old(catalog).pointer), old(store).objects@) ==> consistent(
            pointer_view(final(catalog).pointer),
            final(store).objects@,
        ),
        (r matches Ok(ack) ==> commit_success(
            ack,
            *old(catalog),
            *old(store),
            *final(catalog),
            *final(store),
            ingest_schema@,
            files_view(new_files@),
            timestamp_ms,
        )),
        (r matches Err(e) ==> commit_failure(
            e,
            *old(catalog),
            *old(store),
            *final(store),
            ingest_schema@,
        )),
        commit_unobstructed(*old(catalog), *old(store), ingest_schema@) ==> r is Ok,
{
    let ghost oldp = pointer_view(old(catalog).pointer);
    let ghost oldobj = old(store).objects@;
    let pointer = match catalog.read_pointer() {
        Ok(p) => p,
        Err(_) => {
            return Err(CommitError::CatalogUnavailable);
        },
    };
    let current_path = match pointer {
        Some(p) => p,
        None => {
            return Err(CommitError::CorruptTable);
        },
    };
    let meta = match store.get(&current_path) {
        Some(StoredBlob::MetadataDoc(m)) => m.clone(),
        _ => {
            return Err(CommitError::CorruptTable);
        },
    };
    proof {
        assert(table_at(oldp, oldobj) == Some(meta@));
    }
    if !schemas_equal(ingest_schema, &meta.schema) {
        return Err(CommitError::SchemaMismatch);
    }
    if meta.snapshots.len() as u64 == u64::MAX {
        return Err(CommitError::HistoryFull);
    }
    let new_id = meta.snapshots.len() as u64 + 1;
    // Collect the live entries of the current snapshot.
    let mut carried: Vec<ManifestEntry> = Vec::new();
    if meta.snapshots.len() > 0 {
        let snap = &meta.snapshots[meta.snapshots.len() - 1];
        let ghost pathsv = paths_view(snap.manifest_paths@);
        proof {
            assert(snap@ == meta@.snapshots.last());
            assert(pathsv.skip(0) =~= pathsv);
            assert(entries_view(carried@) + manifests_entries(pathsv, oldobj)
                =~= manifests_entries(pathsv, oldobj));
        }
        let ghost cat0 = *catalog;
        for k in 0..snap.manifest_paths.len()
            invariant
                *catalog == cat0,
                catalog.pending_faults <= old(catalog).pending_faults,
                store.pending_faults <= old(store).pending_faults,
                oldp == pointer_view(old(catalog).pointer),
                oldobj == old(store).objects@,
                pointer_view(catalog.pointer) == oldp,
                pathsv == paths_view(snap.manifest_paths@),
                store.objects@ == oldobj,
                store.wf(),
                table_at(oldp, oldobj) == Some(meta@),
                meta@.snapshots.len() > 0,
                snap@ == meta@.snapshots.last(),
                pathsv == snap@.manifest_paths,
                entries_view(carried@) + manifests_entries(pathsv.skip(k as int), oldobj)
                    == manifests_entries(pathsv, oldobj),
        {
            proof {
                assert(pathsv.skip(k as int)[0] == pathsv[k as int]);
                assert(pathsv.skip(k as int).skip(1) =~= pathsv.skip(k as int + 1));
                assert(pathsv[k as int] == snap.manifest_paths@[k as int]@);
            }
            let man = match store.get(&snap.manifest_paths[k]) {
                Some(StoredBlob::ManifestDoc(m)) => m,
                _ => {
                    proof {
                        if consistent(oldp, oldobj) {
                            assert(store_lookup(
                                oldobj,
                                meta@.snapshots[meta@.snapshots.len() - 1].manifest_paths[k as int],
                            ) matches Some(BlobV::ManifestDoc(_)));
                            assert(false);
                        }
                    }
                    return Err(CommitError::CorruptTable);
                },
            };
            let ghost carried_before = entries_view(carried@);
            for t in 0..man.entries.len()
                invariant
                    entries_view(carried@) =~= carried_before + entries_view(man.entries@).take(
                        t as int,
                    ),
            {
                let ghost cprev = entries_view(carried@);
                proof {
                    assert(entries_view(man.entries@)[t as int] == man.entries@[t as int]@);
                }
                carried.push(man.entries[t].clone());
                proof {
                    assert(entries_view(carried@) =~= cprev + seq![man.entries@[t as int]@]);
                    assert(entries_view(man.entries@).take(t as int).push(
                        entries_view(man.entries@)[t as int],
                    ) =~= entries_view(man.entries@).take(t as int + 1));
                    assert(entries_view(carried@) =~= carried_before + entries_view(
                        man.entries@,
                    ).take(t as int + 1));
                }
            }
            proof {
                assert(entries_view(man.entries@).take(man.entries@.len() as int) =~= entries_view(
                    man.entries@,
                ));
                assert(entries_view(carried@) =~= carried_before + man@.entries);
                assert(entries_view(carried@) + manifests_entries(pathsv.skip(k as int + 1), oldobj)
                    =~= carried_before + (man@.entries + manifests_entries(
                    pathsv.skip(k as int + 1),
                    oldobj,
                )));
                assert(carried_before + manifests_entries(pathsv.skip(k as int), oldobj)
                    =~= carried_before + (man@.entries + manifests_entries(
                    pathsv.skip(k as int + 1),
                    oldobj,
                )));
            }
        }
        proof {
            assert(manifests_entries(pathsv.skip(snap.manifest_paths@.len() as int), oldobj)
                =~= Seq::<EntryV>::empty());
            assert(entries_view(carried@) + Seq::<EntryV>::empty() =~= entries_view(carried@));
            assert(entries_view(carried@) =~= live_entries(meta@, oldobj));
        }
    } else {
        proof {
            assert(entries_view(carried@) =~= live_entries(meta@, oldobj));
        }
    }
    // Build and stage the new manifest.
    let ghost m0v = meta@;
    let ghost carriedv = entries_view(carried@);
    let ghost files = files_view(new_files@);
    let manifest = crate::manifest::build_manifest(new_files, &carried, new_id);
    let summary = manifest.summary;
    let ghost manifestv = manifest@;
    let mpath = manifest_path(meta.location.as_str(), new_id);
    proof {
        lemma_paths_distinct(m0v.location, new_id);
    }
    match store.put_if_absent(mpath.clone(), StoredBlob::ManifestDoc(manifest)) {
        PutOutcome::Stored => {},
        PutOutcome::AlreadyPresent => {
            return Err(CommitError::Conflict);
        },
        PutOutcome::Unavailable => {
            return Err(CommitError::ManifestWrite);
        },
    }
    let ghost objects_with_manifest = store.objects@;
    // Build and stage the new metadata document.
    let mut manifest_paths: Vec<String> = Vec::new();
    manifest_paths.push(mpath.clone());
    let new_snapshot = Snapshot {
        snapshot_id: new_id,
        parent_id: meta.current_snapshot_id,
        timestamp_ms,
        manifest_paths,
        summary,
    };
    let ghost new_snapshotv = new_snapshot@;
    let mut meta2 = meta;
    meta2.snapshots.push(new_snapshot);
    meta2.current_snapshot_id = Some(new_id);
    let tpath = metadata_path(meta2.location.as_str(), new_id);
    let ghost m1v = meta2@;
    proof {
        assert(new_snapshotv.manifest_paths =~= seq![manifest_path_s(m0v.location, new_id)]);
        assert(new_snapshotv == next_snapshot(m0v, files, carriedv, timestamp_ms));
        assert(snapshots_view(meta2.snapshots@) =~= m0v.snapshots.push(new_snapshotv));
        assert(m1v == next_metadata(m0v, files, timestamp_ms, oldobj));
    }
    match store.put_if_absent(tpath.clone(), StoredBlob::MetadataDoc(meta2)) {
        PutOutcome::Stored => {},
        PutOutcome::AlreadyPresent => {
            proof {
                if consistent(oldp, oldobj) {
                    lemma_consistent_preserved(oldp, oldobj, store.objects@);
                }
            }
            return Err(CommitError::Conflict);
        },
        PutOutcome::Unavailable => {
            proof {
                if consistent(oldp, oldobj) {
                    lemma_consistent_preserved(oldp, oldobj, store.objects@);
                }
            }
            return Err(CommitError::ManifestWrite);
        },
    }
    // Make the commit visible: swap the catalog pointer, conditioned on the
    // value read at the start.
    let expected = Some(current_path);
    match catalog.compare_and_swap(&expected, tpath.clone()) {
        Err(_) => {
            proof {
                if consistent(oldp, oldobj) {
                    lemma_consistent_preserved(oldp, oldobj, store.objects@);
                }
            }
            return Err(CommitError::CatalogUnavailable);
        },
        Ok(false) => {
            proof {
                if consistent(oldp, oldobj) {
                    lemma_consistent_preserved(oldp, oldobj, store.objects@);
                }
            }
            return Err(CommitError::Conflict);
        },
        Ok(true) => {},
    }
    proof {
        // The new document is in place and the pointer names it.
        assert(store_lookup(store.objects@, tpath@) == Some(BlobV::MetadataDoc(m1v)));
        assert(store_lookup(store.objects@, mpath@) == Some(BlobV::ManifestDoc(manifestv)));
        // The new table's live data is exactly the built manifest.
        assert(m1v.snapshots.last() == new_snapshotv);
        assert(new_snapshotv.manifest_paths.skip(1) =~= Seq::<Seq<char>>::empty());
        assert(new_snapshotv.manifest_paths[0] == mpath@);
        assert(manifests_entries(new_snapshotv.manifest_paths.skip(1), store.objects@) == Seq::<
            EntryV,
        >::empty());
        assert(manifests_entries(new_snapshotv.manifest_paths, store.objects@) =~= manifestv.entries
            + Seq::<EntryV>::empty());
        assert(live_entries(m1v, store.objects@) =~= built_entries(files, carriedv, new_id));
        // Consistency is preserved.
        if consistent(oldp, oldobj) {
            assert(metadata_wf(m1v)) by {
                assert(forall|i: int|
                    0 <= i < m0v.snapshots.len() ==> m1v.snapshots[i] == m0v.snapshots[i]);
                assert(m1v.snapshots[m0v.snapshots.len() as int] == new_snapshotv);
            }
            assert(manifests_present(m1v, store.objects@)) by {
                assert forall|i: int, k: int|
                    0 <= i < m1v.snapshots.len() && 0 <= k < (
                    #[trigger] m1v.snapshots[i]).manifest_paths.len() implies store_lookup(
                    store.objects@,
                    (#[trigger] m1v.snapshots[i].manifest_paths[k]),
                ) matches Some(BlobV::ManifestDoc(_)) by {
                    if i < m0v.snapshots.len() {
                        assert(m1v.snapshots[i] == m0v.snapshots[i]);
                        assert(store_lookup(oldobj, m0v.snapshots[i].manifest_paths[k])
                            matches Some(BlobV::ManifestDoc(_)));
                    } else {
                        assert(m1v.snapshots[i].manifest_paths[k] == mpath@);
                    }
                }
            }
        }
    }
    Ok(CommitAck { snapshot_id: new_id, metadata_path: tpath })
}

/// How many times a commit is retried after a conflict before giving up.
pub const MAX_COMMIT_ATTEMPTS: u64 = 5;

/// What each failure kind of the retrying committer says about the state it
/// started from.
pub open spec fn commit_retry_failure(
    e: CommitError,
    old_cat: Catalog,
    old_store: ObjectStore,
    ingest: Seq<crate::schema::ColumnDefV>,
) -> bool {
    let oldp = pointer_view(old_cat.pointer);
    let oldobj = old_store.objects@;
    match e {
        CommitError::SchemaMismatch => consistent(oldp, oldobj) ==> (table_at(oldp, oldobj)
            matches Some(m0) && !(m0.schema =~= ingest)),
        CommitError::ManifestWrite => old_store.pending_faults > 0,
        CommitError::CatalogUnavailable => old_cat.pending_faults > 0,
        CommitError::Conflict => true,
        CommitError::CorruptTable => !consistent(oldp, oldobj),
        CommitError::HistoryFull => true,
    }
}

/// Commits one batch of new data files, retrying a bounded number of times
/// when another writer wins the race: each retry re-reads the current table
/// state and rebuilds the manifest against it, so no committed data is ever
/// lost to a conflict.  After the bound the conflict is surfaced.  However
/// the commit ends, the catalog pointer has either its old value or, on
/// success, the new document's path — readers never observe anything in
/// between.
pub fn commit_snapshot(
    catalog: &mut Catalog,
    store: &mut ObjectStore,
    ingest_schema: &Schema,
    new_files: &Vec<DataFile>,
    timestamp_ms: u64,
) -> (r: Result<CommitAck, CommitError>)
    requires
        old(store).wf(),
    ensures
        final(store).wf(),
        lookups_preserved(old(store).objects@, final(store).objects@),
        r is Err ==> pointer_view(final(catalog).pointer) == pointer_view(old(catalog).pointer),
        pointer_view(final(catalog).pointer) == pointer_view(old(catalog).pointer) || (r matches
        Ok(ack) && pointer_view(final(catalog).pointer) == Some(ack.metadata_path@)),
        consistent(pointer_view(old(catalog).pointer), old(store).objects@) ==> consistent(
            pointer_view(final(catalog).pointer),
            final(store).objects@,
        ),
        r matches Ok(ack) ==> consistent(pointer_view(old(catalog).pointer), old(store).objects@)
            ==> commit_success(
            ack,
            *old(catalog),
            *old(store),
            *final(catalog),
            *final(store),
            ingest_schema@,
            files_view(new_files@),
            timestamp_ms,
        ),
        (r matches Err(e) ==> commit_retry_failure(e, *old(catalog), *old(store), ingest_schema@)),
        commit_unobstructed(*old(catalog), *old(store), ingest_schema@) ==> r is Ok,
{
    let mut attempt: u64 = 0;
    loop
        invariant
            store.wf(),
            attempt < MAX_COMMIT_ATTEMPTS,
            lookups_preserved(old(store).objects@, store.objects@),
            pointer_view(catalog.pointer) == pointer_view(old(catalog).pointer),
            catalog.pending_faults <= old(catalog).pending_faults,
            store.pending_faults <= old(store).pending_faults,
            consistent(pointer_view(old(catalog).pointer), old(store).objects@) ==> consistent(
                pointer_view(catalog.pointer),
                store.objects@,
            ),
            attempt == 0 ==> *catalog == *old(catalog) && *store == *old(store),
            attempt > 0 ==> !commit_unobstructed(*old(catalog), *old(store), ingest_schema@),
        decreases MAX_COMMIT_ATTEMPTS - attempt,
    {
        let ghost cat_t = *catalog;
        let ghost store_t = *store;
        let result = try_commit_once(catalog, store, ingest_schema, new_files, timestamp_ms);
        proof {
            // The store only ever grows, across attempts too.
            assert forall|k: Seq<char>|
                store_lookup(old(store).objects@, k) is Some implies #[trigger] store_lookup(
                store.objects@,
                k,
            ) == store_lookup(old(store).objects@, k) by {
                assert(store_lookup(store_t.objects@, k) == store_lookup(old(store).objects@, k));
            }
        }
        match result {
            Ok(ack) => {
                proof {
                    if consistent(pointer_view(old(catalog).pointer), old(store).objects@) {
                        lemma_consistent_preserved(
                            pointer_view(old(catalog).pointer),
                            old(store).objects@,
                            store_t.objects@,
                        );
                        assert(table_at(pointer_view(cat_t.pointer), store_t.objects@) == table_at(
                            pointer_view(old(catalog).pointer),
                            old(store).objects@,
                        ));
                        let m0 = table_at(
                            pointer_view(old(catalog).pointer),
                            old(store).objects@,
                        )->Some_0;
                        assert(live_entries(m0, store_t.objects@) == live_entries(
                            m0,
                            old(store).objects@,
                        ));
                        assert(next_metadata(
                            m0,
                            files_view(new_files@),
                            timestamp_ms,
                            store_t.objects@,
                        ) == next_metadata(
                            m0,
                            files_view(new_files@),
                            timestamp_ms,
                            old(store).objects@,
                        ));
                    }
                }
                return Ok(ack);
            },
            Err(CommitError::Conflict) => {
                if attempt + 1 >= MAX_COMMIT_ATTEMPTS {
                    return Err(CommitError::Conflict);
                }
                attempt = attempt + 1;
            },
            Err(e) => {
                proof {
                    if consistent(pointer_view(old(catalog).pointer), old(store).objects@) {
                        lemma_consistent_preserved(
                            pointer_view(old(catalog).pointer),
                            old(store).objects@,
                            store_t.objects@,
                        );
                    }
                }
                return Err(e);
            },
        }
    }
}

/// The initial metadata document of a fresh table: the fixed schema, the
/// storage location, and an empty snapshot history.
pub open spec fn initial_metadata(
    schema: Seq<crate::schema::ColumnDefV>,
    location: Seq<char>,
) -> MetadataV {
    MetadataV {
        format_version: 1,
        schema,
        location,
        current_snapshot_id: None,
        snapshots: Seq::empty(),
    }
}

/// Registers a fresh table: writes its first metadata document, with an
/// empty history, and points the catalog at it, conditioned on no table
/// being registered yet.
pub fn create_table(
    catalog: &mut Catalog,
    store: &mut ObjectStore,
    schema: Schema,
    location: String,
) -> (r: Result<String, CommitError>)
    requires
        old(store).wf(),
        crate::schema::schema_wf(schema@),
        schema@.len() >= 1,
    ensures
        final(store).wf(),
        lookups_preserved(old(store).objects@, final(store).objects@),
        r is Err ==> pointer_view(final(catalog).pointer) == pointer_view(old(catalog).pointer),
        r matches Ok(p) ==> p@ == metadata_path_s(location@, 0) && pointer_view(
            final(catalog).pointer,
        ) == Some(p@) && table_at(pointer_view(final(catalog).pointer), final(store).objects@)
            == Some(initial_metadata(schema@, location@)) && consistent(
            pointer_view(final(catalog).pointer),
            final(store).objects@,
        ),
        (old(catalog).pending_faults == 0 && old(store).pending_faults == 0 && old(
            catalog,
        ).pointer is None && store_lookup(old(store).objects@, metadata_path_s(location@, 0))
            is None) ==> r is Ok,
{
    let path0 = metadata_path(location.as_str(), 0);
    let ghost schemav = schema@;
    let ghost locationv = location@;
    let meta = TableMetadata {
        format_version: 1,
        schema,
        location,
        current_snapshot_id: None,
        snapshots: Vec::new(),
    };
    proof {
        assert(snapshots_view(meta.snapshots@) =~= Seq::<SnapshotV>::empty());
        assert(meta@ == initial_metadata(schemav, locationv));
    }
    match store.put_if_absent(path0.clone(), StoredBlob::MetadataDoc(meta)) {
        PutOutcome::Stored => {},
        PutOutcome::AlreadyPresent => {
            return Err(CommitError::Conflict);
        },
        PutOutcome::Unavailable => {
            return Err(CommitError::ManifestWrite);
        },
    }
    let expected: Option<String> = None;
    match catalog.compare_and_swap(&expected, path0.clone()) {
        Err(_) => {
            return Err(CommitError::CatalogUnavailable);
        },
        Ok(false) => {
            return Err(CommitError::Conflict);
        },
        Ok(true) => {},
    }
    Ok(path0)
}

/// Reads the table's complete live data: the entries of the current
/// snapshot's manifests, in manifest order.  A reader needs nothing but the
/// current snapshot — and because commits become visible only through the
/// atomic pointer swap, what it reconstructs here is always one complete,
/// committed table state, never a partial one.
pub fn read_live_entries(catalog: &Catalog, store: &ObjectStore) -> (r: Option<Vec<ManifestEntry>>)
    ensures
        match r {
            Some(es) => table_at(pointer_view(catalog.pointer), store.objects@) matches Some(m)
                && entries_view(es@) == live_entries(m, store.objects@),
            None => !consistent(pointer_view(catalog.pointer), store.objects@),
        },
{
    let meta = match current_metadata(catalog, store) {
        Some(m) => m,
        None => {
            return None;
        },
    };
    let mut entries: Vec<ManifestEntry> = Vec::new();
    if meta.snapshots.len() == 0 {
        proof {
            assert(entries_view(entries@) =~= live_entries(meta@, store.objects@));
        }
        return Some(entries);
    }
    let snap = &meta.snapshots[meta.snapshots.len() - 1];
    let ghost pathsv = paths_view(snap.manifest_paths@);
    proof {
        assert(snap@ == meta@.snapshots.last());
        assert(pathsv.skip(0) =~= pathsv);
        assert(entries_view(entries@) + manifests_entries(pathsv, store.objects@)
            =~= manifests_entries(pathsv, store.objects@));
    }
    for k in 0..snap.manifest_paths.len()
        invariant
            pathsv == paths_view(snap.manifest_paths@),
            table_at(pointer_view(catalog.pointer), store.objects@) == Some(meta@),
            meta@.snapshots.len() > 0,
            snap@ == meta@.snapshots.last(),
            pathsv == snap@.manifest_paths,
            entries_view(entries@) + manifests_entries(pathsv.skip(k as int), store.objects@)
                == manifests_entries(pathsv, store.objects@),
    {
        proof {
            assert(pathsv.skip(k as int)[0] == pathsv[k as int]);
            assert(pathsv.skip(k as int).skip(1) =~= pathsv.skip(k as int + 1));
            assert(pathsv[k as int] == snap.manifest_paths@[k as int]@);
        }
        let man = match store.get(&snap.manifest_paths[k]) {
            Some(StoredBlob::ManifestDoc(m)) => m,
            _ => {
                proof {
                    if consistent(pointer_view(catalog.pointer), store.objects@) {
                        assert(store_lookup(
                            store.objects@,
                            meta@.snapshots[meta@.snapshots.len() - 1].manifest_paths[k as int],
                        ) matches Some(BlobV::ManifestDoc(_)));
                        assert(false);
                    }
                }
                return None;
            },
        };
        let ghost entries_before = entries_view(entries@);
        for t in 0..man.entries.len()
            invariant
                entries_view(entries@) =~= entries_before + entries_view(man.entries@).take(
                    t as int,
                ),
        {
            let ghost eprev = entries_view(entries@);
            proof {
                assert(entries_view(man.entries@)[t as int] == man.entries@[t as int]@);
            }
            entries.push(man.entries[t].clone());
            proof {
                assert(entries_view(entries@) =~= eprev + seq![man.entries@[t as int]@]);
                assert(entries_view(man.entries@).take(t as int).push(
                    entries_view(man.entries@)[t as int],
                ) =~= entries_view(man.entries@).take(t as int + 1));
                assert(entries_view(entries@) =~= entries_before + entries_view(
                    man.entries@,
                ).take(t as int + 1));
            }
        }
        proof {
            assert(entries_view(man.entries@).take(man.entries@.len() as int) =~= entries_view(
                man.entries@,
            ));
            assert(entries_view(entries@) =~= entries_before + man@.entries);
            assert(entries_view(entries@) + manifests_entries(
                pathsv.skip(k as int + 1),
                store.objects@,
            ) =~= entries_before + (man@.entries + manifests_entries(
                pathsv.skip(k as int + 1),
                store.objects@,
            )));
            assert(entries_before + manifests_entries(pathsv.skip(k as int), store.objects@)
                =~= entries_before + (man@.entries + manifests_entries(
                pathsv.skip(k as int + 1),
                store.objects@,
            )));
        }
    }
    proof {
        assert(manifests_entries(pathsv.skip(snap.manifest_paths@.len() as int), store.objects@)
            =~= Seq::<EntryV>::empty());
        assert(entries_view(entries@) + Seq::<EntryV>::empty() =~= entries_view(entries@));
        assert(entries_view(entries@) =~= live_entries(meta@, store.objects@));
    }
    Some(entries)
}

/// The metadata document that the catalog currently points at, straight
/// from the store.  Because the pointer is swapped atomically, what a
/// reader sees here is always one complete, committed table state.
pub fn current_metadata<'a>(catalog: &Catalog, store: &'a ObjectStore) -> (r: Option<
    &'a TableMetadata,
>)
    ensures
        match r {
            Some(m) => table_at(pointer_view(catalog.pointer), store.objects@) == Some(m@),
            None => table_at(pointer_view(catalog.pointer), store.objects@) is None,
        },
{
    match &catalog.pointer {
        None => None,
        Some(p) => match store.get(p) {
            Some(StoredBlob::MetadataDoc(m)) => Some(m),
            _ => None,
        },
    }
}

} // verus!
