use vstd::prelude::*;
use crate::catalog::{Catalog, pointer_view};
use crate::commit::{CommitAck, CommitError, commit_snapshot, commit_success,
    commit_unobstructed, consistent, lemma_consistent_preserved, lookups_preserved, table_at,
    live_entries};
use crate::datafile::{DataFile, DataFileV, FORMAT_VERSION, enc_file, encode_data_file,
    file_stats};
use crate::decode::{DecodeError, DecodeErrorV, decode_bytes, decode_payload_s,
    lemma_decoded_payload_fits, sat64, unmapped_in_payload};
use crate::json::parsed_payload;
use crate::manifest::files_view;
use crate::schema::{ColumnDefV, Schema, schemas_equal};
use crate::store::{BlobV, ObjectStore, PutOutcome, StoredBlob, store_lookup};
use crate::text::{data_path, data_path_s, manifest_path_s, metadata_path_s};
use crate::value::CellV;

verus! {

/// How one ingestion request failed.
#[derive(Debug)]
pub enum IngestError {
    /// The payload was rejected before anything touched storage.
    Decode(DecodeError),
    /// Staging the columnar file failed; the caller may retry the request.
    Encode,
    /// The payload's schema is not the table's schema; never retried.
    SchemaMismatch,
    /// Writing the manifest or metadata document failed transiently.
    ManifestWrite,
    /// Concurrent commits kept winning until the retry bound was exhausted.
    CommitConflict,
    /// The catalog did not answer; the table is untouched.
    CatalogUnavailable,
    /// The catalog and store do not describe a consistent table.
    CorruptTable,
    /// The snapshot-id space is exhausted.
    HistoryFull,
}

/// The user-visible class of a failure: the input was rejected, the service
/// is temporarily unavailable and the request may be retried, or an internal
/// fault remained after all internal retries.
#[derive(Clone, Copy, PartialEq, Eq, Structural, Debug)]
pub enum FailureClass {
    InputRejected,
    TemporarilyUnavailable,
    InternalFault,
}

/// The class of each failure kind.
pub open spec fn classify_s(e: IngestError) -> FailureClass {
    match e {
        IngestError::Decode(_) => FailureClass::InputRejected,
        IngestError::SchemaMismatch => FailureClass::InputRejected,
        IngestError::Encode => FailureClass::TemporarilyUnavailable,
        IngestError::ManifestWrite => FailureClass::TemporarilyUnavailable,
        IngestError::CommitConflict => FailureClass::InternalFault,
        IngestError::CatalogUnavailable => FailureClass::InternalFault,
        IngestError::CorruptTable => FailureClass::InternalFault,
        IngestError::HistoryFull => FailureClass::InternalFault,
    }
}

/// Classifies a failure for the caller; decides `classify_s`.
pub fn classify(e: &IngestError) -> (c: FailureClass)
    ensures
        c == classify_s(*e),
{
    match e {
        IngestError::Decode(_) => FailureClass::InputRejected,
        IngestError::SchemaMismatch => FailureClass::InputRejected,
        IngestError::Encode => FailureClass::TemporarilyUnavailable,
        IngestError::ManifestWrite => FailureClass::TemporarilyUnavailable,
        IngestError::CommitConflict => FailureClass::InternalFault,
        IngestError::CatalogUnavailable => FailureClass::InternalFault,
        IngestError::CorruptTable => FailureClass::InternalFault,
        IngestError::HistoryFull => FailureClass::InternalFault,
    }
}

/// What a successful ingestion reports.
#[derive(Debug)]
pub struct IngestAck {
    pub snapshot_id: u64,
    pub metadata_path: String,
    pub data_file_path: String,
    pub row_count: u64,
    pub unmapped_fields: u64,
}

/// How many times a transient staging fault is retried.
pub const MAX_STAGE_ATTEMPTS: u64 = 3;

/// What decoding the raw payload against the schema yields.
pub open spec fn spec_decoded(schema: Seq<ColumnDefV>, payload: Seq<u8>) -> Result<
    Seq<Seq<CellV>>,
    DecodeErrorV,
> {
    decode_payload_s(schema, parsed_payload(payload))
}

/// The description of the data file that one ingestion stages.
pub open spec fn staged_file_v(
    path: Seq<char>,
    schema: Seq<ColumnDefV>,
    rows: Seq<Seq<CellV>>,
) -> DataFileV {
    DataFileV {
        path,
        format_version: FORMAT_VERSION,
        row_count: rows.len() as u64,
        byte_size: enc_file(schema, file_stats(rows, schema.len()), rows).len() as u64,
        column_stats: file_stats(rows, schema.len()),
    }
}

/// What a successful ingestion guarantees: the payload decoded to the
/// acknowledged rows, their columnar image is in the store at the staged
/// path, and — on a consistent table — the commit extended the table by one
/// snapshot holding exactly that file plus everything live before.
pub open spec fn ingest_success(
    ack: IngestAck,
    old_cat: Catalog,
    old_store: ObjectStore,
    new_cat: Catalog,
    new_store: ObjectStore,
    schema: Seq<ColumnDefV>,
    payload: Seq<u8>,
    token: Seq<char>,
    timestamp_ms: u64,
) -> bool {
    let oldp = pointer_view(old_cat.pointer);
    let oldobj = old_store.objects@;
    &&& spec_decoded(schema, payload) matches Ok(rows)
    &&& table_at(oldp, oldobj) matches Some(m0)
    &&& {
        let rows = spec_decoded(schema, payload)->Ok_0;
        let m0 = table_at(oldp, oldobj)->Some_0;
        &&& ack.row_count == rows.len()
        &&& ack.unmapped_fields == sat64(unmapped_in_payload(schema, parsed_payload(payload)))
        &&& ack.data_file_path@ == data_path_s(m0.location, token)
        &&& store_lookup(new_store.objects@, ack.data_file_path@) == Some(
            BlobV::Data(enc_file(schema, file_stats(rows, schema.len()), rows)),
        )
        &&& (consistent(oldp, oldobj) ==> commit_success(
            CommitAck { snapshot_id: ack.snapshot_id, metadata_path: ack.metadata_path },
            old_cat,
            old_store,
            new_cat,
            new_store,
            schema,
            seq![staged_file_v(data_path_s(m0.location, token), schema, rows)],
            timestamp_ms,
        ))
    }
}

/// The starting states from which one ingestion is owed success: no
/// injected faults, a consistent table with the matching schema and room
/// for one more snapshot, a payload that decodes, and the request's three
/// object names still free.
pub open spec fn ingest_unobstructed(
    cat: Catalog,
    st: ObjectStore,
    schema: Seq<ColumnDefV>,
    payload: Seq<u8>,
    token: Seq<char>,
) -> bool {
    let oldp = pointer_view(cat.pointer);
    let oldobj = st.objects@;
    &&& cat.pending_faults == 0
    &&& st.pending_faults == 0
    &&& consistent(oldp, oldobj)
    &&& spec_decoded(schema, payload) is Ok
    &&& {
        let m0 = table_at(oldp, oldobj)->Some_0;
        let id = (m0.snapshots.len() + 1) as u64;
        &&& m0.schema =~= schema
        &&& m0.snapshots.len() < u64::MAX
        &&& store_lookup(oldobj, data_path_s(m0.location, token)) is None
        &&& store_lookup(oldobj, manifest_path_s(m0.location, id)) is None
        &&& store_lookup(oldobj, metadata_path_s(m0.location, id)) is None
    }
}

/// The staged data path never collides with a commit's manifest or metadata
/// path: right after the location they continue with different characters.
proof fn lemma_stage_paths_distinct(location: Seq<char>, token: Seq<char>, id: u64)
    ensures
        data_path_s(location, token) != manifest_path_s(location, id),
        data_path_s(location, token) != metadata_path_s(location, id),
{
    reveal_strlit("/data/");
    reveal_strlit("/manifests/");
    reveal_strlit("/metadata/");
    let i = location.len() as int + 1;
    assert(data_path_s(location, token)[i] == 'd');
    assert(manifest_path_s(location, id)[i] == 'm');
    assert(metadata_path_s(location, id)[i] == 'm');
}

/// Stages the columnar file image at its path with create-if-absent
/// semantics, retrying transient faults a bounded number of times.  On
/// failure nothing is stored; an occupied name is a staging failure, since
/// staged names are never reused.
fn stage_data_file(store: &mut ObjectStore, dpath: &String, bytes: &Vec<u8>) -> (r: Result<
    (),
    IngestError,
>)
    requires
        old(store).wf(),
    ensures
        final(store).wf(),
        final(store).pending_faults <= old(store).pending_faults,
        r is Ok ==> store_lookup(old(store).objects@, dpath@) is None && (forall|k: Seq<char>|
            #[trigger] store_lookup(final(store).objects@, k) == (if k == dpath@ {
                Some(BlobV::Data(bytes@))
            } else {
                store_lookup(old(store).objects@, k)
            })),
        r is Err ==> final(store).objects == old(store).objects,
        r matches Err(e) ==> e is Encode,
        (old(store).pending_faults == 0 && store_lookup(old(store).objects@, dpath@) is None)
            ==> r is Ok,
{
    let mut attempt: u64 = 0;
    loop
        invariant
            store.wf(),
            attempt < MAX_STAGE_ATTEMPTS,
            store.objects == old(store).objects,
            store.pending_faults <= old(store).pending_faults,
            attempt == 0 ==> store.pending_faults == old(store).pending_faults,
            attempt > 0 ==> old(store).pending_faults > 0,
        decreases MAX_STAGE_ATTEMPTS - attempt,
    {
        let blob_bytes = bytes.clone();
        proof {
            assert(blob_bytes@ =~= bytes@);
        }
        match store.put_if_absent(dpath.clone(), StoredBlob::Data(blob_bytes)) {
            PutOutcome::Stored => {
                return Ok(());
            },
            PutOutcome::AlreadyPresent => {
                return Err(IngestError::Encode);
            },
            PutOutcome::Unavailable => {
                if attempt + 1 >= MAX_STAGE_ATTEMPTS {
                    return Err(IngestError::Encode);
                }
                attempt = attempt + 1;
            },
        }
    }
}

/// Drives one ingestion request end to end: decode the payload against the
/// schema, encode the rows into a columnar file, stage it, and commit a new
/// snapshot.  Decoding is checked first and a decode failure touches
/// nothing; the schema is checked against the table before any durable
/// write; and however the request ends, the table is never left in an
/// intermediate state — visibility is gated solely by the commit's
/// compare-and-swap.
pub fn ingest(
    catalog: &mut Catalog,
    store: &mut ObjectStore,
    schema: &Schema,
    payload: &[u8],
    staging_token: &str,
    timestamp_ms: u64,
) -> (r: Result<IngestAck, IngestError>)
    requires
        old(store).wf(),
        schema.wf(),
        schema@.len() >= 1,
    ensures
        final(store).wf(),
        lookups_preserved(old(store).objects@, final(store).objects@),
        r is Err ==> pointer_view(final(catalog).pointer) == pointer_view(old(catalog).pointer),
        pointer_view(final(catalog).pointer) == pointer_view(old(catalog).pointer) || (r matches
        Ok(ack) && pointer_view(final(catalog).pointer) == Some(ack.metadata_path@)),
        consistent(pointer_view(old(catalog).pointer), old(store).objects@) ==> consistent(
            pointer_view(final(catalog).pointer),
            final(store).objects@,
        ),
        (r matches Err(e) ==> (e matches IngestError::Decode(d) ==> spec_decoded(schema@, payload@)
            == Err::<Seq<Seq<CellV>>, DecodeErrorV>(d@) && *final(store) == *old(store)
            && *final(catalog) == *old(catalog))),
        spec_decoded(schema@, payload@) is Err ==> (r matches Err(e) && e is Decode),
        (r matches Err(e) ==> (e is SchemaMismatch ==> consistent(
            pointer_view(old(catalog).pointer),
            old(store).objects@,
        ) ==> final(store).objects == old(store).objects)),
        (r matches Ok(ack) ==> ingest_success(
            ack,
            *old(catalog),
            *old(store),
            *final(catalog),
            *final(store),
            schema@,
            payload@,
            staging_token@,
            timestamp_ms,
        )),
        ingest_unobstructed(*old(catalog), *old(store), schema@, payload@, staging_token@)
            ==> r is Ok,
{
    let ghost oldp = pointer_view(old(catalog).pointer);
    let ghost oldobj = old(store).objects@;
    // Decode first: a rejected payload never touches storage.
    let batch = match decode_bytes(schema, payload) {
        Ok(b) => b,
        Err(e) => {
            return Err(IngestError::Decode(e));
        },
    };
    // Read the table state and check the schema before any durable write.
    let pointer = match catalog.read_pointer() {
        Ok(p) => p,
        Err(_) => {
            return Err(IngestError::CatalogUnavailable);
        },
    };
    let current_path = match pointer {
        Some(p) => p,
        None => {
            return Err(IngestError::CorruptTable);
        },
    };
    let location = match store.get(&current_path) {
        Some(StoredBlob::MetadataDoc(m)) => {
            if !schemas_equal(schema, &m.schema) {
                return Err(IngestError::SchemaMismatch);
            }
            m.location.clone()
        },
        _ => {
            return Err(IngestError::CorruptTable);
        },
    };
    let ghost m0 = table_at(oldp, oldobj)->Some_0;
    proof {
        assert(table_at(oldp, oldobj) is Some);
        assert(location@ == m0.location);
        assert(m0.schema =~= schema@);
    }
    // Encode the batch into one columnar file at its staging path.
    let dpath = data_path(location.as_str(), staging_token);
    let ghost rows = spec_decoded(schema@, payload@)->Ok_0;
    proof {
        lemma_decoded_payload_fits(schema@, parsed_payload(payload@));
        lemma_stage_paths_distinct(m0.location, staging_token@, (m0.snapshots.len() + 1) as u64);
    }
    let (file, bytes) = encode_data_file(schema, &batch.rows, dpath.clone());
    let ghost filev = file@;
    proof {
        assert(filev == staged_file_v(data_path_s(m0.location, staging_token@), schema@, rows));
    }
    // Stage it.
    match stage_data_file(store, &dpath, &bytes) {
        Ok(()) => {},
        Err(e) => {
            return Err(e);
        },
    }
    let ghost staged_obj = store.objects@;
    // Commit the new snapshot.
    let mut new_files: Vec<DataFile> = Vec::new();
    new_files.push(file);
    proof {
        assert(files_view(new_files@) =~= seq![filev]);
        if consistent(oldp, oldobj) {
            lemma_consistent_preserved(oldp, oldobj, staged_obj);
        }
    }
    let ack = match commit_snapshot(catalog, store, schema, &new_files, timestamp_ms) {
        Ok(a) => a,
        Err(ce) => {
            proof {
                if consistent(oldp, oldobj) {
                    lemma_consistent_preserved(oldp, oldobj, store.objects@);
                    if ce is SchemaMismatch {
                        lemma_consistent_preserved(oldp, oldobj, staged_obj);
                        assert(false);
                    }
                }
            }
            return Err(
                match ce {
                    CommitError::SchemaMismatch => IngestError::SchemaMismatch,
                    CommitError::ManifestWrite => IngestError::ManifestWrite,
                    CommitError::Conflict => IngestError::CommitConflict,
                    CommitError::CatalogUnavailable => IngestError::CatalogUnavailable,
                    CommitError::CorruptTable => IngestError::CorruptTable,
                    CommitError::HistoryFull => IngestError::HistoryFull,
                },
            );
        },
    };
    proof {
        if consistent(oldp, oldobj) {
            lemma_consistent_preserved(oldp, oldobj, staged_obj);
            assert(live_entries(m0, staged_obj) == live_entries(m0, oldobj));
            assert(crate::commit::next_metadata(m0, seq![filev], timestamp_ms, staged_obj)
                == crate::commit::next_metadata(m0, seq![filev], timestamp_ms, oldobj));
        }
    }
    let row_count = batch.rows.len() as u64;
    Ok(
        IngestAck {
            snapshot_id: ack.snapshot_id,
            metadata_path: ack.metadata_path,
            data_file_path: dpath,
            row_count,
            unmapped_fields: batch.unmapped_fields,
        },
    )
}

} // verus!
