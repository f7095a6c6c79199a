use lakehouse_ingest::decode::{decode_bytes, DecodeError, FoundKind};
use lakehouse_ingest::schema::{ColumnDef, ColumnType, Schema};
use lakehouse_ingest::value::CellValue;

fn sample_schema() -> Schema {
    Schema {
        columns: vec![
            ColumnDef {
                name: String::from("id"),
                column_type: ColumnType::Text,
                required: true,
            },
            ColumnDef {
                name: String::from("score"),
                column_type: ColumnType::Int32,
                required: false,
            },
        ],
    }
}

#[test]
fn decodes_single_object() {
    let schema = sample_schema();
    let batch = decode_bytes(&schema, br#"{"id":"a","score":5}"#).unwrap();
    assert_eq!(batch.rows.len(), 1);
    assert_eq!(batch.rows[0].cells[0], CellValue::Text(String::from("a")));
    assert_eq!(batch.rows[0].cells[1], CellValue::Int32(5));
    assert_eq!(batch.unmapped_fields, 0);
}

#[test]
fn decodes_array_with_missing_optional() {
    let schema = sample_schema();
    let batch = decode_bytes(&schema, br#"[{"id":"a","score":5},{"id":"b"}]"#).unwrap();
    assert_eq!(batch.rows.len(), 2);
    assert_eq!(batch.rows[1].cells[0], CellValue::Text(String::from("b")));
    assert_eq!(batch.rows[1].cells[1], CellValue::Null);
}

#[test]
fn decodes_explicit_null_for_optional() {
    let schema = sample_schema();
    let batch = decode_bytes(&schema, br#"{"id":"a","score":null}"#).unwrap();
    assert_eq!(batch.rows[0].cells[1], CellValue::Null);
}

#[test]
fn rejects_missing_required_field() {
    let schema = sample_schema();
    let err = decode_bytes(&schema, br#"{"score":5}"#).unwrap_err();
    match err {
        DecodeError::MissingField(name) => assert_eq!(name, String::from("id")),
        other => panic!("unexpected error: {:?}", other),
    }
}

#[test]
fn rejects_string_in_integer_column() {
    let schema = sample_schema();
    let err = decode_bytes(&schema, br#"{"id":"a","score":"high"}"#).unwrap_err();
    match err {
        DecodeError::TypeMismatch { column, expected, found } => {
            assert_eq!(column, String::from("score"));
            assert_eq!(expected, ColumnType::Int32);
            assert_eq!(found, FoundKind::Text);
        },
        other => panic!("unexpected error: {:?}", other),
    }
}

#[test]
fn rejects_number_in_text_column() {
    let schema = sample_schema();
    let err = decode_bytes(&schema, br#"{"id":7}"#).unwrap_err();
    match err {
        DecodeError::TypeMismatch { column, expected, found } => {
            assert_eq!(column, String::from("id"));
            assert_eq!(expected, ColumnType::Text);
            assert_eq!(found, FoundKind::Number);
        },
        other => panic!("unexpected error: {:?}", other),
    }
}

#[test]
fn rejects_fractional_number_in_integer_column() {
    let schema = sample_schema();
    let err = decode_bytes(&schema, br#"{"id":"a","score":5.5}"#).unwrap_err();
    assert!(matches!(err, DecodeError::TypeMismatch { .. }));
}

#[test]
fn rejects_integer_out_of_int32_range() {
    let schema = sample_schema();
    let err = decode_bytes(&schema, br#"{"id":"a","score":2147483648}"#).unwrap_err();
    assert!(matches!(err, DecodeError::TypeMismatch { .. }));
    let ok = decode_bytes(&schema, br#"{"id":"a","score":2147483647}"#).unwrap();
    assert_eq!(ok.rows[0].cells[1], CellValue::Int32(2147483647));
    let low = decode_bytes(&schema, br#"{"id":"a","score":-2147483648}"#).unwrap();
    assert_eq!(low.rows[0].cells[1], CellValue::Int32(-2147483648));
}

#[test]
fn rejects_null_for_required_column() {
    let schema = sample_schema();
    let err = decode_bytes(&schema, br#"{"id":null}"#).unwrap_err();
    match err {
        DecodeError::TypeMismatch { column, found, .. } => {
            assert_eq!(column, String::from("id"));
            assert_eq!(found, FoundKind::Null);
        },
        other => panic!("unexpected error: {:?}", other),
    }
}

#[test]
fn rejects_nested_value_in_column() {
    let schema = sample_schema();
    let err = decode_bytes(&schema, br#"{"id":["a"]}"#).unwrap_err();
    match err {
        DecodeError::TypeMismatch { found, .. } => assert_eq!(found, FoundKind::Nested),
        other => panic!("unexpected error: {:?}", other),
    }
}

#[test]
fn rejects_malformed_payloads() {
    let schema = sample_schema();
    assert!(matches!(
        decode_bytes(&schema, b"not json").unwrap_err(),
        DecodeError::MalformedPayload
    ));
    assert!(matches!(decode_bytes(&schema, b"5").unwrap_err(), DecodeError::MalformedPayload));
    assert!(matches!(decode_bytes(&schema, b"[5]").unwrap_err(), DecodeError::MalformedPayload));
    assert!(matches!(decode_bytes(&schema, b"").unwrap_err(), DecodeError::MalformedPayload));
}

#[test]
fn ignores_and_counts_unknown_fields() {
    let schema = sample_schema();
    let batch = decode_bytes(
        &schema,
        br#"[{"id":"a","extra":1,"more":true},{"id":"b","other":"x"}]"#,
    )
    .unwrap();
    assert_eq!(batch.rows.len(), 2);
    assert_eq!(batch.unmapped_fields, 3);
}

#[test]
fn decodes_int64_and_boolean_columns() {
    let schema = Schema {
        columns: vec![
            ColumnDef {
                name: String::from("n"),
                column_type: ColumnType::Int64,
                required: true,
            },
            ColumnDef {
                name: String::from("flag"),
                column_type: ColumnType::Boolean,
                required: false,
            },
        ],
    };
    let batch = decode_bytes(&schema, br#"{"n":-9223372036854775808,"flag":true}"#).unwrap();
    assert_eq!(batch.rows[0].cells[0], CellValue::Int64(i64::MIN));
    assert_eq!(batch.rows[0].cells[1], CellValue::Boolean(true));
    let err = decode_bytes(&schema, br#"{"n":true}"#).unwrap_err();
    assert!(matches!(err, DecodeError::TypeMismatch { .. }));
}

#[test]
fn first_failing_record_wins() {
    let schema = sample_schema();
    let err = decode_bytes(&schema, br#"[{"id":"ok"},{"score":1},{"id":3}]"#).unwrap_err();
    assert!(matches!(err, DecodeError::MissingField(_)));
}
