use vstd::prelude::*;
use crate::schema::{ColumnDef, ColumnDefV, ColumnType, Schema, schema_has_column};
use crate::value::{CellV, CellValue, Row, cell_fits_column, row_fits_schema, rows_fit_schema,
    rows_view};
use crate::json::{FieldV, JsonField, JsonPayload, JsonRecord, JsonScalar, PayloadV, ScalarV,
    parse_payload, parsed_payload, records_view};

verus! {

/// The JSON type that was actually found where a column value was expected,
/// for error reporting.
#[derive(Clone, Copy, PartialEq, Eq, Structural, Debug)]
pub enum FoundKind {
    Null,
    Boolean,
    Number,
    Text,
    Nested,
}

/// Why a payload was rejected.  Decoding never touches storage, so a decode
/// failure leaves the table untouched.
#[derive(Debug)]
pub enum DecodeError {
    /// A required column had no field in the record.
    MissingField(String),
    /// A field's JSON type cannot be coerced to its column's logical type.
    TypeMismatch { column: String, expected: ColumnType, found: FoundKind },
    /// The payload is not one JSON object nor an array of JSON objects.
    MalformedPayload,
}

/// Model of a decode error.
pub enum DecodeErrorV {
    MissingField(Seq<char>),
    TypeMismatch { column: Seq<char>, expected: ColumnType, found: FoundKind },
    MalformedPayload,
}

impl View for DecodeError {
    type V = DecodeErrorV;

    open spec fn view(&self) -> DecodeErrorV {
        match self {
            DecodeError::MissingField(n) => DecodeErrorV::MissingField(n@),
            DecodeError::TypeMismatch { column, expected, found } => DecodeErrorV::TypeMismatch {
                column: column@,
                expected: *expected,
                found: *found,
            },
            DecodeError::MalformedPayload => DecodeErrorV::MalformedPayload,
        }
    }
}

/// The JSON type of a scalar, as reported in `TypeMismatch`.
pub open spec fn kind_of(s: ScalarV) -> FoundKind {
    match s {
        ScalarV::Null => FoundKind::Null,
        ScalarV::Boolean(_) => FoundKind::Boolean,
        ScalarV::Integer(_) => FoundKind::Number,
        ScalarV::NonIntegral => FoundKind::Number,
        ScalarV::Text(_) => FoundKind::Text,
        ScalarV::Nested => FoundKind::Nested,
    }
}

/// The first field of the record carrying the given name, if any.
pub open spec fn lookup_field(fields: Seq<FieldV>, name: Seq<char>) -> Option<ScalarV>
    decreases fields.len(),
{
    if fields.len() == 0 {
        None
    } else if fields[0].name == name {
        Some(fields[0].value)
    } else {
        lookup_field(fields.skip(1), name)
    }
}

/// Strict coercion of one JSON scalar to one column's logical type.  A JSON
/// string fits only a text column; a JSON number fits an integer column only
/// when it has an exact integer value in the column's range; a JSON boolean
/// fits only a boolean column; an explicit null is accepted only for an
/// optional column.  Everything else is a type mismatch.
pub open spec fn coerce(s: ScalarV, col: ColumnDefV) -> Result<CellV, DecodeErrorV> {
    let mismatch = DecodeErrorV::TypeMismatch {
        column: col.name,
        expected: col.column_type,
        found: kind_of(s),
    };
    match s {
        ScalarV::Null => if col.required {
            Err(mismatch)
        } else {
            Ok(CellV::Null)
        },
        ScalarV::Text(t) => if col.column_type == ColumnType::Text {
            Ok(CellV::Text(t))
        } else {
            Err(mismatch)
        },
        ScalarV::Integer(x) => if col.column_type == ColumnType::Int64 {
            Ok(CellV::Int64(x))
        } else if col.column_type == ColumnType::Int32 && i32::MIN <= x <= i32::MAX {
            Ok(CellV::Int32(x as i32))
        } else {
            Err(mismatch)
        },
        ScalarV::Boolean(b) => if col.column_type == ColumnType::Boolean {
            Ok(CellV::Boolean(b))
        } else {
            Err(mismatch)
        },
        ScalarV::NonIntegral => Err(mismatch),
        ScalarV::Nested => Err(mismatch),
    }
}

/// The cell that one column receives from a record: a missing optional field
/// becomes null, a missing required field is an error, and a present field is
/// coerced.
pub open spec fn decode_cell_s(col: ColumnDefV, fields: Seq<FieldV>) -> Result<
    CellV,
    DecodeErrorV,
> {
    match lookup_field(fields, col.name) {
        None => if col.required {
            Err(DecodeErrorV::MissingField(col.name))
        } else {
            Ok(CellV::Null)
        },
        Some(s) => coerce(s, col),
    }
}

/// One record decoded against a schema, column by column in schema order; the
/// first failing column's error is reported.
pub open spec fn decode_record_s(schema: Seq<ColumnDefV>, fields: Seq<FieldV>) -> Result<
    Seq<CellV>,
    DecodeErrorV,
>
    decreases schema.len(),
{
    if schema.len() == 0 {
        Ok(Seq::empty())
    } else {
        match decode_cell_s(schema[0], fields) {
            Err(e) => Err(e),
            Ok(c) => match decode_record_s(schema.skip(1), fields) {
                Err(e) => Err(e),
                Ok(rest) => Ok(seq![c] + rest),
            },
        }
    }
}

/// How many fields of the record name no schema column.  Such fields are
/// ignored, but counted for observability.
pub open spec fn unmapped_in_record(schema: Seq<ColumnDefV>, fields: Seq<FieldV>) -> nat
    decreases fields.len(),
{
    if fields.len() == 0 {
        0
    } else {
        (if schema_has_column(schema, fields[0].name) {
            0nat
        } else {
            1nat
        }) + unmapped_in_record(schema, fields.skip(1))
    }
}

/// The records of a payload, decoded in order; the first failing record's
/// error is reported.
pub open spec fn decode_batch_s(schema: Seq<ColumnDefV>, records: Seq<Seq<FieldV>>) -> Result<
    Seq<Seq<CellV>>,
    DecodeErrorV,
>
    decreases records.len(),
{
    if records.len() == 0 {
        Ok(Seq::empty())
    } else {
        match decode_record_s(schema, records[0]) {
            Err(e) => Err(e),
            Ok(row) => match decode_batch_s(schema, records.skip(1)) {
                Err(e) => Err(e),
                Ok(rest) => Ok(seq![row] + rest),
            },
        }
    }
}

/// What decoding a payload yields: one row for a single record, one row per
/// record for an array, and `MalformedPayload` for anything else.
pub open spec fn decode_payload_s(schema: Seq<ColumnDefV>, p: PayloadV) -> Result<
    Seq<Seq<CellV>>,
    DecodeErrorV,
> {
    match p {
        PayloadV::Single(fields) => match decode_record_s(schema, fields) {
            Err(e) => Err(e),
            Ok(row) => Ok(seq![row]),
        },
        PayloadV::Batch(records) => decode_batch_s(schema, records),
        PayloadV::Malformed => Err(DecodeErrorV::MalformedPayload),
    }
}

/// Unmapped fields over a whole batch of records.
pub open spec fn unmapped_in_batch(schema: Seq<ColumnDefV>, records: Seq<Seq<FieldV>>) -> nat
    decreases records.len(),
{
    if records.len() == 0 {
        0
    } else {
        unmapped_in_record(schema, records[0]) + unmapped_in_batch(schema, records.skip(1))
    }
}

/// Unmapped fields over a payload.
pub open spec fn unmapped_in_payload(schema: Seq<ColumnDefV>, p: PayloadV) -> nat {
    match p {
        PayloadV::Single(fields) => unmapped_in_record(schema, fields),
        PayloadV::Batch(records) => unmapped_in_batch(schema, records),
        PayloadV::Malformed => 0,
    }
}

/// A count clipped to what a 64-bit counter can hold.
pub open spec fn sat64(n: nat) -> u64 {
    if n >= u64::MAX {
        u64::MAX
    } else {
        n as u64
    }
}

/// Every cell that `decode_record_s` accepts is admissible for its column.
pub proof fn lemma_decoded_record_fits(schema: Seq<ColumnDefV>, fields: Seq<FieldV>)
    ensures
        decode_record_s(schema, fields) matches Ok(row) ==> row_fits_schema(row, schema),
    decreases schema.len(),
{
    if schema.len() > 0 {
        lemma_decoded_record_fits(schema.skip(1), fields);
        if decode_record_s(schema, fields) is Ok {
            let row = decode_record_s(schema, fields)->Ok_0;
            let c = decode_cell_s(schema[0], fields)->Ok_0;
            let rest = decode_record_s(schema.skip(1), fields)->Ok_0;
            assert(row == seq![c] + rest);
            assert(cell_fits_column(c, schema[0]));
            assert forall|j: int| 0 <= j < row.len() implies cell_fits_column(
                #[trigger] row[j],
                schema[j],
            ) by {
                if j > 0 {
                    assert(row[j] == rest[j - 1]);
                    assert(schema[j] == schema.skip(1)[j - 1]);
                }
            }
        }
    }
}

/// Every row that `decode_batch_s` accepts is admissible for the schema.
pub proof fn lemma_decoded_batch_fits(schema: Seq<ColumnDefV>, records: Seq<Seq<FieldV>>)
    ensures
        decode_batch_s(schema, records) matches Ok(rows) ==> rows_fit_schema(rows, schema),
    decreases records.len(),
{
    if records.len() > 0 {
        lemma_decoded_record_fits(schema, records[0]);
        lemma_decoded_batch_fits(schema, records.skip(1));
        if decode_batch_s(schema, records) is Ok {
            let rows = decode_batch_s(schema, records)->Ok_0;
            let rest = decode_batch_s(schema, records.skip(1))->Ok_0;
            assert forall|i: int| 0 <= i < rows.len() implies row_fits_schema(
                #[trigger] rows[i],
                schema,
            ) by {
                if i > 0 {
                    assert(rows[i] == rest[i - 1]);
                }
            }
        }
    }
}

/// Every row that `decode_payload_s` accepts is admissible for the schema.
pub proof fn lemma_decoded_payload_fits(schema: Seq<ColumnDefV>, p: PayloadV)
    ensures
        decode_payload_s(schema, p) matches Ok(rows) ==> rows_fit_schema(rows, schema),
{
    match p {
        PayloadV::Single(fields) => {
            lemma_decoded_record_fits(schema, fields);
        },
        PayloadV::Batch(records) => {
            lemma_decoded_batch_fits(schema, records);
        },
        PayloadV::Malformed => {},
    }
}

/// Once the first `j` columns decode without error, the record's error is the
/// first failing column's error.
proof fn lemma_record_first_err(
    schema: Seq<ColumnDefV>,
    fields: Seq<FieldV>,
    j: int,
    e: DecodeErrorV,
)
    requires
        0 <= j < schema.len(),
        forall|i: int| 0 <= i < j ==> #[trigger] decode_cell_s(schema[i], fields) is Ok,
        decode_cell_s(schema[j], fields) == Err::<CellV, DecodeErrorV>(e),
    ensures
        decode_record_s(schema, fields) == Err::<Seq<CellV>, DecodeErrorV>(e),
    decreases j,
{
    if j > 0 {
        assert(decode_cell_s(schema[0], fields) is Ok);
        let tail = schema.skip(1);
        assert forall|i: int| 0 <= i < j - 1 implies #[trigger] decode_cell_s(
            tail[i],
            fields,
        ) is Ok by {
            assert(tail[i] == schema[i + 1]);
        }
        assert(tail[j - 1] == schema[j]);
        lemma_record_first_err(tail, fields, j - 1, e);
    }
}

/// When every column decodes without error, the record decodes to exactly
/// those cells, in schema order.
proof fn lemma_record_all_ok(schema: Seq<ColumnDefV>, fields: Seq<FieldV>)
    requires
        forall|i: int| 0 <= i < schema.len() ==> #[trigger] decode_cell_s(schema[i], fields) is Ok,
    ensures
        decode_record_s(schema, fields) matches Ok(row) && row.len() == schema.len() && forall|
            i: int,
        |
            0 <= i < schema.len() ==> decode_cell_s(schema[i], fields) == Ok::<
                CellV,
                DecodeErrorV,
            >(#[trigger] row[i]),
    decreases schema.len(),
{
    if schema.len() > 0 {
        let tail = schema.skip(1);
        assert forall|i: int| 0 <= i < tail.len() implies #[trigger] decode_cell_s(
            tail[i],
            fields,
        ) is Ok by {
            assert(tail[i] == schema[i + 1]);
        }
        lemma_record_all_ok(tail, fields);
        let c = decode_cell_s(schema[0], fields)->Ok_0;
        let rest = decode_record_s(tail, fields)->Ok_0;
        let row = decode_record_s(schema, fields)->Ok_0;
        assert(row == seq![c] + rest);
        assert forall|i: int| 0 <= i < schema.len() implies decode_cell_s(schema[i], fields)
            == Ok::<CellV, DecodeErrorV>(#[trigger] row[i]) by {
            if i > 0 {
                assert(row[i] == rest[i - 1]);
                assert(tail[i - 1] == schema[i]);
            }
        }
    }
}

/// Once the first `j` records decode without error, the batch's error is the
/// first failing record's error.
proof fn lemma_batch_first_err(
    schema: Seq<ColumnDefV>,
    records: Seq<Seq<FieldV>>,
    j: int,
    e: DecodeErrorV,
)
    requires
        0 <= j < records.len(),
        forall|i: int| 0 <= i < j ==> #[trigger] decode_record_s(schema, records[i]) is Ok,
        decode_record_s(schema, records[j]) == Err::<Seq<CellV>, DecodeErrorV>(e),
    ensures
        decode_batch_s(schema, records) == Err::<Seq<Seq<CellV>>, DecodeErrorV>(e),
    decreases j,
{
    if j > 0 {
        let tail = records.skip(1);
        assert forall|i: int| 0 <= i < j - 1 implies #[trigger] decode_record_s(
            schema,
            tail[i],
        ) is Ok by {
            assert(tail[i] == records[i + 1]);
        }
        assert(tail[j - 1] == records[j]);
        lemma_batch_first_err(schema, tail, j - 1, e);
    }
}

/// When every record decodes without error, the batch decodes to exactly
/// those rows, in order.
proof fn lemma_batch_all_ok(schema: Seq<ColumnDefV>, records: Seq<Seq<FieldV>>)
    requires
        forall|i: int|
            0 <= i < records.len() ==> #[trigger] decode_record_s(schema, records[i]) is Ok,
    ensures
        decode_batch_s(schema, records) matches Ok(rows) && rows.len() == records.len() && forall|
            i: int,
        |
            0 <= i < records.len() ==> decode_record_s(schema, records[i]) == Ok::<
                Seq<CellV>,
                DecodeErrorV,
            >(#[trigger] rows[i]),
    decreases records.len(),
{
    if records.len() > 0 {
        let tail = records.skip(1);
        assert forall|i: int| 0 <= i < tail.len() implies #[trigger] decode_record_s(
            schema,
            tail[i],
        ) is Ok by {
            assert(tail[i] == records[i + 1]);
        }
        lemma_batch_all_ok(schema, tail);
        let first = decode_record_s(schema, records[0])->Ok_0;
        let rest = decode_batch_s(schema, tail)->Ok_0;
        let rows = decode_batch_s(schema, records)->Ok_0;
        assert(rows == seq![first] + rest);
        assert forall|i: int| 0 <= i < records.len() implies decode_record_s(schema, records[i])
            == Ok::<Seq<CellV>, DecodeErrorV>(#[trigger] rows[i]) by {
            if i > 0 {
                assert(rows[i] == rest[i - 1]);
                assert(tail[i - 1] == records[i]);
            }
        }
    }
}

/// Whether some schema column carries the given name.
fn schema_contains(schema: &Schema, name: &String) -> (r: bool)
    ensures
        r == schema_has_column(schema@, name@),
{
    for k in 0..schema.columns.len()
        invariant
            forall|i: int| 0 <= i < k ==> (#[trigger] schema@[i]).name != name@,
    {
        if schema.columns[k].name == *name {
            proof {
                assert(schema@[k as int].name == name@);
            }
            return true;
        }
    }
    false
}

/// The first field of the record carrying the given name.
fn find_field<'a>(fields: &'a Vec<JsonField>, name: &String) -> (r: Option<&'a JsonScalar>)
    ensures
        match r {
            Some(s) => lookup_field(fields@.map_values(|f: JsonField| f@), name@) == Some(s@),
            None => lookup_field(fields@.map_values(|f: JsonField| f@), name@) is None,
        },
{
    let ghost fv = fields@.map_values(|f: JsonField| f@);
    proof {
        assert(fv.skip(0) =~= fv);
    }
    for k in 0..fields.len()
        invariant
            fv == fields@.map_values(|f: JsonField| f@),
            lookup_field(fv, name@) == lookup_field(fv.skip(k as int), name@),
    {
        proof {
            assert(fv.skip(k as int)[0] == fv[k as int]);
            assert(fv.skip(k as int).skip(1) =~= fv.skip(k as int + 1));
        }
        if fields[k].name == *name {
            return Some(&fields[k].value);
        }
    }
    None
}

/// Builds the `TypeMismatch` error for one column and one found JSON type.
fn mismatch_of(col: &ColumnDef, found: FoundKind) -> (e: DecodeError)
    ensures
        e@ == (DecodeErrorV::TypeMismatch {
            column: col@.name,
            expected: col@.column_type,
            found,
        }),
{
    DecodeError::TypeMismatch { column: col.name.clone(), expected: col.column_type, found }
}

/// Coerces one JSON scalar to one column's type; decides `coerce`.
fn coerce_exec(s: &JsonScalar, col: &ColumnDef) -> (r: Result<CellValue, DecodeError>)
    ensures
        match r {
            Ok(c) => coerce(s@, col@) == Ok::<CellV, DecodeErrorV>(c@),
            Err(e) => coerce(s@, col@) == Err::<CellV, DecodeErrorV>(e@),
        },
{
    match s {
        JsonScalar::Null => if col.required {
            Err(mismatch_of(col, FoundKind::Null))
        } else {
            Ok(CellValue::Null)
        },
        JsonScalar::Text(t) => if col.column_type == ColumnType::Text {
            Ok(CellValue::Text(t.clone()))
        } else {
            Err(mismatch_of(col, FoundKind::Text))
        },
        JsonScalar::Integer(x) => if col.column_type == ColumnType::Int64 {
            Ok(CellValue::Int64(*x))
        } else if col.column_type == ColumnType::Int32 && i32::MIN as i64 <= *x && *x
            <= i32::MAX as i64 {
            Ok(CellValue::Int32(*x as i32))
        } else {
            Err(mismatch_of(col, FoundKind::Number))
        },
        JsonScalar::Boolean(b) => if col.column_type == ColumnType::Boolean {
            Ok(CellValue::Boolean(*b))
        } else {
            Err(mismatch_of(col, FoundKind::Boolean))
        },
        JsonScalar::NonIntegral => Err(mismatch_of(col, FoundKind::Number)),
        JsonScalar::Nested => Err(mismatch_of(col, FoundKind::Nested)),
    }
}

/// Decodes one record against the schema; decides `decode_record_s`.
pub fn decode_record(schema: &Schema, record: &JsonRecord) -> (r: Result<Row, DecodeError>)
    ensures
        match r {
            Ok(row) => decode_record_s(schema@, record@) == Ok::<Seq<CellV>, DecodeErrorV>(row@),
            Err(e) => decode_record_s(schema@, record@) == Err::<Seq<CellV>, DecodeErrorV>(e@),
        },
{
    let mut cells: Vec<CellValue> = Vec::new();
    let n = schema.columns.len();
    for j in 0..n
        invariant
            n == schema@.len(),
            cells@.len() == j,
            forall|i: int|
                0 <= i < j ==> #[trigger] decode_cell_s(schema@[i], record@) == Ok::<
                    CellV,
                    DecodeErrorV,
                >(cells@[i]@),
    {
        let col = &schema.columns[j];
        proof {
            assert(col@ == schema@[j as int]);
        }
        match find_field(&record.fields, &col.name) {
            None => {
                if col.required {
                    let e = DecodeError::MissingField(col.name.clone());
                    proof {
                        lemma_record_first_err(schema@, record@, j as int, e@);
                    }
                    return Err(e);
                } else {
                    cells.push(CellValue::Null);
                }
            },
            Some(s) => {
                match coerce_exec(s, col) {
                    Ok(c) => {
                        cells.push(c);
                    },
                    Err(e) => {
                        proof {
                            lemma_record_first_err(schema@, record@, j as int, e@);
                        }
                        return Err(e);
                    },
                }
            },
        }
    }
    proof {
        lemma_record_all_ok(schema@, record@);
    }
    let row = Row { cells };
    proof {
        assert(row@ =~= decode_record_s(schema@, record@)->Ok_0);
    }
    Ok(row)
}

/// Counts the fields of one record that name no schema column, clipped to a
/// 64-bit counter.
fn count_unmapped(schema: &Schema, record: &JsonRecord) -> (c: u64)
    ensures
        c == sat64(unmapped_in_record(schema@, record@)),
{
    let ghost fv = record@;
    let mut c: u64 = 0;
    let ghost counted: nat = 0nat;
    proof {
        assert(fv.skip(0) =~= fv);
    }
    for k in 0..record.fields.len()
        invariant
            fv == record@,
            c == sat64(counted),
            counted + unmapped_in_record(schema@, fv.skip(k as int)) == unmapped_in_record(
                schema@,
                fv,
            ),
    {
        proof {
            assert(fv.skip(k as int)[0] == fv[k as int]);
            assert(fv.skip(k as int).skip(1) =~= fv.skip(k as int + 1));
        }
        if !schema_contains(schema, &record.fields[k].name) {
            if c < u64::MAX {
                c = c + 1;
            }
            proof {
                counted = counted + 1;
            }
        }
    }
    c
}

/// The outcome of decoding one payload: the decoded rows, in input order, and
/// the number of JSON fields that named no schema column (ignored, counted
/// for observability; the count is clipped to a 64-bit counter).
#[derive(Debug)]
pub struct DecodedBatch {
    pub rows: Vec<Row>,
    pub unmapped_fields: u64,
}

/// Decodes a parsed payload against the schema; decides `decode_payload_s`.
/// Decoding is pure: it never touches storage.
pub fn decode_payload(schema: &Schema, payload: &JsonPayload) -> (r: Result<
    DecodedBatch,
    DecodeError,
>)
    ensures
        match r {
            Ok(batch) => decode_payload_s(schema@, payload@) == Ok::<Seq<Seq<CellV>>, DecodeErrorV>(
                rows_view(batch.rows@),
            ) && batch.unmapped_fields == sat64(unmapped_in_payload(schema@, payload@)),
            Err(e) => decode_payload_s(schema@, payload@) == Err::<Seq<Seq<CellV>>, DecodeErrorV>(
                e@,
            ),
        },
{
    match payload {
        JsonPayload::Malformed => Err(DecodeError::MalformedPayload),
        JsonPayload::Single(record) => {
            let row = decode_record(schema, record)?;
            let unmapped_fields = count_unmapped(schema, record);
            let mut rows: Vec<Row> = Vec::new();
            rows.push(row);
            proof {
                assert(rows_view(rows@) =~= seq![rows@[0]@]);
            }
            Ok(DecodedBatch { rows, unmapped_fields })
        },
        JsonPayload::Batch(records) => {
            let ghost rv = records_view(records@);
            let mut rows: Vec<Row> = Vec::new();
            let mut unmapped_fields: u64 = 0;
            let ghost counted: nat = 0nat;
            proof {
                assert(rv.skip(0) =~= rv);
            }
            for k in 0..records.len()
                invariant
                    rv == records_view(records@),
                    payload@ == PayloadV::Batch(rv),
                    rows@.len() == k,
                    forall|i: int|
                        0 <= i < k ==> #[trigger] decode_record_s(schema@, rv[i]) == Ok::<
                            Seq<CellV>,
                            DecodeErrorV,
                        >(rows@[i]@),
                    unmapped_fields == sat64(counted),
                    counted + unmapped_in_batch(schema@, rv.skip(k as int)) == unmapped_in_batch(
                        schema@,
                        rv,
                    ),
            {
                proof {
                    assert(rv.skip(k as int)[0] == rv[k as int]);
                    assert(rv.skip(k as int).skip(1) =~= rv.skip(k as int + 1));
                }
                proof {
                    assert(rv[k as int] == records@[k as int]@);
                }
                match decode_record(schema, &records[k]) {
                    Ok(row) => {
                        rows.push(row);
                    },
                    Err(e) => {
                        proof {
                            lemma_batch_first_err(schema@, rv, k as int, e@);
                        }
                        return Err(e);
                    },
                }
                let u = count_unmapped(schema, &records[k]);
                if u > u64::MAX - unmapped_fields {
                    unmapped_fields = u64::MAX;
                } else {
                    unmapped_fields = unmapped_fields + u;
                }
                proof {
                    counted = counted + unmapped_in_record(schema@, rv[k as int]);
                }
            }
            proof {
                lemma_batch_all_ok(schema@, rv);
                assert(rows_view(rows@) =~= decode_batch_s(schema@, rv)->Ok_0);
            }
            Ok(DecodedBatch { rows, unmapped_fields })
        },
    }
}

/// Parses raw payload bytes and decodes them against the schema.  The result
/// is exactly what `decode_payload_s` yields for the parsed payload.
pub fn decode_bytes(schema: &Schema, bytes: &[u8]) -> (r: Result<DecodedBatch, DecodeError>)
    ensures
        match r {
            Ok(batch) => decode_payload_s(schema@, parsed_payload(bytes@)) == Ok::<
                Seq<Seq<CellV>>,
                DecodeErrorV,
            >(rows_view(batch.rows@)) && batch.unmapped_fields == sat64(
                unmapped_in_payload(schema@, parsed_payload(bytes@)),
            ),
            Err(e) => decode_payload_s(schema@, parsed_payload(bytes@)) == Err::<
                Seq<Seq<CellV>>,
                DecodeErrorV,
            >(e@),
        },
{
    let payload = parse_payload(bytes);
    decode_payload(schema, &payload)
}

} // verus!
