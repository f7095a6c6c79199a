//! Verified core of a snapshot-based table-ingestion service.
//!
//! Raw JSON payloads are decoded against a fixed table schema, encoded into a
//! self-describing columnar data file, and registered in a versioned table by
//! an optimistic, compare-and-swap commit protocol: a new manifest, a new
//! snapshot, and a new table-metadata document are written to an append-only
//! object store, and the catalog pointer is advanced atomically so that
//! readers always observe either the old table state or the new one.

pub mod catalog;
pub mod codec;
pub mod commit;
pub mod datafile;
pub mod decode;
pub mod ingest;
pub mod json;
pub mod manifest;
pub mod metadata;
pub mod schema;
pub mod store;
pub mod text;
pub mod value;
