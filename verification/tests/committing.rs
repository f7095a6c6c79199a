use lakehouse_ingest::catalog::Catalog;
use lakehouse_ingest::commit::{commit_snapshot, create_table, current_metadata, CommitError};
use lakehouse_ingest::datafile::encode_data_file;
use lakehouse_ingest::ingest::{classify, ingest, FailureClass, IngestError};
use lakehouse_ingest::manifest::EntryStatus;
use lakehouse_ingest::schema::{ColumnDef, ColumnType, Schema};
use lakehouse_ingest::store::{ObjectStore, StoredBlob};
use lakehouse_ingest::value::{CellValue, Row};

fn table_schema() -> Schema {
    Schema {
        columns: vec![
            ColumnDef {
                name: String::from("id"),
                column_type: ColumnType::Text,
                required: true,
            },
            ColumnDef {
                name: String::from("score"),
                column_type: ColumnType::Int32,
                required: false,
            },
        ],
    }
}

fn fresh_table() -> (Catalog, ObjectStore, Schema) {
    let mut catalog = Catalog::new();
    let mut store = ObjectStore::new();
    let schema = table_schema();
    create_table(&mut catalog, &mut store, schema.clone(), String::from("wh")).unwrap();
    (catalog, store, schema)
}

#[test]
fn ingest_scenario_two_records() {
    let (mut catalog, mut store, schema) = fresh_table();
    let payload = br#"[{"id":"a","score":5},{"id":"b"}]"#;
    let ack = ingest(&mut catalog, &mut store, &schema, payload, "t1", 1000).unwrap();
    assert_eq!(ack.snapshot_id, 1);
    assert_eq!(ack.row_count, 2);
    assert_eq!(ack.unmapped_fields, 0);
    let meta = current_metadata(&catalog, &store).unwrap();
    assert_eq!(meta.snapshots.len(), 1);
    let snap = &meta.snapshots[0];
    assert_eq!(snap.summary.added_files, 1);
    assert_eq!(snap.summary.added_rows, 2);
    assert_eq!(snap.summary.existing_files, 0);
    let manifest = match store.get(&snap.manifest_paths[0]) {
        Some(StoredBlob::ManifestDoc(m)) => m,
        _ => panic!("manifest not in store"),
    };
    assert_eq!(manifest.entries.len(), 1);
    let df = &manifest.entries[0].data_file;
    assert_eq!(df.row_count, 2);
    let score_stats = &df.column_stats[1];
    assert_eq!(score_stats.null_count, 1);
    assert_eq!(score_stats.min, Some(CellValue::Int32(5)));
    assert_eq!(score_stats.max, Some(CellValue::Int32(5)));
    let bytes = match store.get(&df.path) {
        Some(StoredBlob::Data(b)) => b,
        _ => panic!("data file not in store"),
    };
    let decoded = lakehouse_ingest::datafile::decode_data_file(bytes).unwrap();
    assert_eq!(decoded.rows.len(), 2);
    assert_eq!(decoded.rows[0].cells[0], CellValue::Text(String::from("a")));
    assert_eq!(decoded.rows[0].cells[1], CellValue::Int32(5));
    assert_eq!(decoded.rows[1].cells[0], CellValue::Text(String::from("b")));
    assert_eq!(decoded.rows[1].cells[1], CellValue::Null);
}

#[test]
fn snapshot_chain_after_three_commits() {
    let (mut catalog, mut store, schema) = fresh_table();
    ingest(&mut catalog, &mut store, &schema, br#"{"id":"a"}"#, "t1", 1).unwrap();
    ingest(&mut catalog, &mut store, &schema, br#"{"id":"b"}"#, "t2", 2).unwrap();
    ingest(&mut catalog, &mut store, &schema, br#"{"id":"c"}"#, "t3", 3).unwrap();
    let meta = current_metadata(&catalog, &store).unwrap();
    assert_eq!(meta.snapshots.len(), 3);
    assert_eq!(meta.snapshots[0].snapshot_id, 1);
    assert_eq!(meta.snapshots[1].snapshot_id, 2);
    assert_eq!(meta.snapshots[2].snapshot_id, 3);
    assert_eq!(meta.snapshots[0].parent_id, None);
    assert_eq!(meta.snapshots[1].parent_id, Some(1));
    assert_eq!(meta.snapshots[2].parent_id, Some(2));
    assert_eq!(meta.current_snapshot_id, Some(3));
    assert_eq!(meta.snapshots[0].timestamp_ms, 1);
    assert_eq!(meta.snapshots[2].timestamp_ms, 3);
}

#[test]
fn second_writer_carries_first_writers_data() {
    let (mut catalog, mut store, schema) = fresh_table();
    let a = ingest(&mut catalog, &mut store, &schema, br#"{"id":"a"}"#, "ta", 1).unwrap();
    let b = ingest(&mut catalog, &mut store, &schema, br#"{"id":"b","score":2}"#, "tb", 2)
        .unwrap();
    let meta = current_metadata(&catalog, &store).unwrap();
    let snap = &meta.snapshots[1];
    let manifest = match store.get(&snap.manifest_paths[0]) {
        Some(StoredBlob::ManifestDoc(m)) => m,
        _ => panic!("manifest not in store"),
    };
    assert_eq!(manifest.entries.len(), 2);
    assert_eq!(manifest.entries[0].status, EntryStatus::Added);
    assert_eq!(manifest.entries[0].snapshot_id, 2);
    assert_eq!(manifest.entries[0].data_file.path, b.data_file_path);
    assert_eq!(manifest.entries[1].status, EntryStatus::Existing);
    assert_eq!(manifest.entries[1].snapshot_id, 1);
    assert_eq!(manifest.entries[1].data_file.path, a.data_file_path);
    assert_eq!(manifest.summary.added_files, 1);
    assert_eq!(manifest.summary.existing_files, 1);
    assert_eq!(manifest.summary.added_rows, 1);
    assert_eq!(manifest.summary.existing_rows, 1);
}

#[test]
fn reader_reconstructs_complete_live_data() {
    let (mut catalog, mut store, schema) = fresh_table();
    let empty = lakehouse_ingest::commit::read_live_entries(&catalog, &store).unwrap();
    assert_eq!(empty.len(), 0);
    let a = ingest(&mut catalog, &mut store, &schema, br#"{"id":"a"}"#, "ta", 1).unwrap();
    let b = ingest(&mut catalog, &mut store, &schema, br#"[{"id":"b"},{"id":"c"}]"#, "tb", 2)
        .unwrap();
    let live = lakehouse_ingest::commit::read_live_entries(&catalog, &store).unwrap();
    assert_eq!(live.len(), 2);
    assert_eq!(live[0].data_file.path, b.data_file_path);
    assert_eq!(live[0].data_file.row_count, 2);
    assert_eq!(live[1].data_file.path, a.data_file_path);
    assert_eq!(live[1].data_file.row_count, 1);
}

#[test]
fn conflicting_name_fails_bounded_and_leaves_table_unchanged() {
    let (mut catalog, mut store, schema) = fresh_table();
    // Another writer already claimed the next manifest name.
    store
        .put_if_absent(String::from("wh/manifests/1.mf"), StoredBlob::Data(vec![0]));
    let before = current_metadata(&catalog, &store).unwrap().snapshots.len();
    let err = ingest(&mut catalog, &mut store, &schema, br#"{"id":"a"}"#, "t1", 1).unwrap_err();
    assert!(matches!(err, IngestError::CommitConflict));
    let meta = current_metadata(&catalog, &store).unwrap();
    assert_eq!(meta.snapshots.len(), before);
}

#[test]
fn failure_between_manifest_write_and_swap_leaves_pointer_unmoved() {
    let (mut catalog, mut store, schema) = fresh_table();
    // The commit will write its data file and manifest, then fail to place
    // the new metadata document, before the pointer swap.
    store
        .put_if_absent(String::from("wh/metadata/1.tm"), StoredBlob::Data(vec![0]));
    let pointer_before = catalog.pointer.clone();
    let err = ingest(&mut catalog, &mut store, &schema, br#"{"id":"a"}"#, "t1", 1).unwrap_err();
    assert!(matches!(err, IngestError::CommitConflict));
    assert_eq!(catalog.pointer, pointer_before);
    // The staged data file exists as unreferenced garbage, yet the visible
    // table is unchanged.
    assert!(store.get(&String::from("wh/data/t1.col")).is_some());
    let meta = current_metadata(&catalog, &store).unwrap();
    assert_eq!(meta.snapshots.len(), 0);
}

#[test]
fn transient_staging_faults_are_retried() {
    let (mut catalog, mut store, schema) = fresh_table();
    store.inject_faults(2);
    let ack = ingest(&mut catalog, &mut store, &schema, br#"{"id":"a"}"#, "t1", 1).unwrap();
    assert_eq!(ack.snapshot_id, 1);
}

#[test]
fn manifest_write_fault_is_surfaced() {
    let (mut catalog, mut store, schema) = fresh_table();
    let rows = vec![Row {
        cells: vec![CellValue::Text(String::from("a")), CellValue::Null],
    }];
    let (file, bytes) = encode_data_file(&schema, &rows, String::from("wh/data/x.col"));
    store.put_if_absent(String::from("wh/data/x.col"), StoredBlob::Data(bytes));
    store.inject_faults(1);
    let err = commit_snapshot(&mut catalog, &mut store, &schema, &vec![file], 1).unwrap_err();
    assert!(matches!(err, CommitError::ManifestWrite));
    assert_eq!(current_metadata(&catalog, &store).unwrap().snapshots.len(), 0);
}

#[test]
fn schema_mismatch_is_rejected_before_any_write() {
    let (mut catalog, mut store, schema) = fresh_table();
    let _ = schema;
    let other = Schema {
        columns: vec![
            ColumnDef {
                name: String::from("id"),
                column_type: ColumnType::Int64,
                required: true,
            },
        ],
    };
    let objects_before = store.objects.len();
    let err = ingest(&mut catalog, &mut store, &other, br#"{"id":1}"#, "t1", 1).unwrap_err();
    assert!(matches!(err, IngestError::SchemaMismatch));
    assert_eq!(store.objects.len(), objects_before);
}

#[test]
fn decode_failure_touches_nothing() {
    let (mut catalog, mut store, schema) = fresh_table();
    let objects_before = store.objects.len();
    let pointer_before = catalog.pointer.clone();
    let err = ingest(&mut catalog, &mut store, &schema, br#"{"id":3}"#, "t1", 1).unwrap_err();
    assert!(matches!(err, IngestError::Decode(_)));
    assert_eq!(store.objects.len(), objects_before);
    assert_eq!(catalog.pointer, pointer_before);
}

#[test]
fn occupied_staging_name_is_an_encode_failure() {
    let (mut catalog, mut store, schema) = fresh_table();
    store.put_if_absent(String::from("wh/data/t1.col"), StoredBlob::Data(vec![0]));
    let err = ingest(&mut catalog, &mut store, &schema, br#"{"id":"a"}"#, "t1", 1).unwrap_err();
    assert!(matches!(err, IngestError::Encode));
}

#[test]
fn catalog_fault_is_surfaced_untouched() {
    let (mut catalog, mut store, schema) = fresh_table();
    catalog.inject_faults(1);
    let err = ingest(&mut catalog, &mut store, &schema, br#"{"id":"a"}"#, "t1", 1).unwrap_err();
    assert!(matches!(err, IngestError::CatalogUnavailable));
    assert_eq!(current_metadata(&catalog, &store).unwrap().snapshots.len(), 0);
}

#[test]
fn missing_table_is_corrupt() {
    let mut catalog = Catalog::new();
    let mut store = ObjectStore::new();
    let schema = table_schema();
    let err = ingest(&mut catalog, &mut store, &schema, br#"{"id":"a"}"#, "t1", 1).unwrap_err();
    assert!(matches!(err, IngestError::CorruptTable));
}

#[test]
fn creating_a_table_twice_conflicts() {
    let (mut catalog, mut store, schema) = fresh_table();
    let err = create_table(&mut catalog, &mut store, schema, String::from("wh")).unwrap_err();
    assert!(matches!(err, CommitError::Conflict));
}

#[test]
fn failure_classes() {
    assert_eq!(
        classify(&IngestError::Decode(
            lakehouse_ingest::decode::DecodeError::MalformedPayload
        )),
        FailureClass::InputRejected
    );
    assert_eq!(classify(&IngestError::SchemaMismatch), FailureClass::InputRejected);
    assert_eq!(classify(&IngestError::Encode), FailureClass::TemporarilyUnavailable);
    assert_eq!(classify(&IngestError::ManifestWrite), FailureClass::TemporarilyUnavailable);
    assert_eq!(classify(&IngestError::CommitConflict), FailureClass::InternalFault);
    assert_eq!(classify(&IngestError::CatalogUnavailable), FailureClass::InternalFault);
    assert_eq!(classify(&IngestError::CorruptTable), FailureClass::InternalFault);
    assert_eq!(classify(&IngestError::HistoryFull), FailureClass::InternalFault);
}
