use lakehouse_ingest::datafile::{decode_data_file, encode_data_file};
use lakehouse_ingest::schema::{ColumnDef, ColumnType, Schema};
use lakehouse_ingest::text::u64_to_string;
use lakehouse_ingest::value::{CellValue, Row};

fn wide_schema() -> Schema {
    Schema {
        columns: vec![
            ColumnDef {
                name: String::from("name"),
                column_type: ColumnType::Text,
                required: true,
            },
            ColumnDef {
                name: String::from("small"),
                column_type: ColumnType::Int32,
                required: false,
            },
            ColumnDef {
                name: String::from("large"),
                column_type: ColumnType::Int64,
                required: false,
            },
            ColumnDef {
                name: String::from("flag"),
                column_type: ColumnType::Boolean,
                required: false,
            },
        ],
    }
}

fn wide_rows() -> Vec<Row> {
    vec![
        Row {
            cells: vec![
                CellValue::Text(String::from("alpha")),
                CellValue::Int32(-7),
                CellValue::Int64(i64::MAX),
                CellValue::Boolean(true),
            ],
        },
        Row {
            cells: vec![
                CellValue::Text(String::new()),
                CellValue::Null,
                CellValue::Int64(i64::MIN),
                CellValue::Boolean(false),
            ],
        },
        Row {
            cells: vec![
                CellValue::Text(String::from("z\u{00e9}\u{2603}")),
                CellValue::Int32(i32::MIN),
                CellValue::Null,
                CellValue::Null,
            ],
        },
    ]
}

#[test]
fn file_round_trip_all_types() {
    let schema = wide_schema();
    let rows = wide_rows();
    let (file, bytes) = encode_data_file(&schema, &rows, String::from("p"));
    assert_eq!(file.row_count, 3);
    assert_eq!(file.byte_size as usize, bytes.len());
    let decoded = decode_data_file(&bytes).expect("decoding an encoded file must succeed");
    assert_eq!(decoded.rows, rows);
    assert_eq!(decoded.schema, schema);
    assert_eq!(decoded.stats, file.column_stats);
}

#[test]
fn file_round_trip_empty_batch() {
    let schema = wide_schema();
    let rows: Vec<Row> = Vec::new();
    let (file, bytes) = encode_data_file(&schema, &rows, String::from("p"));
    assert_eq!(file.row_count, 0);
    let decoded = decode_data_file(&bytes).unwrap();
    assert_eq!(decoded.rows.len(), 0);
    assert_eq!(decoded.schema, schema);
}

#[test]
fn decode_rejects_tampered_image() {
    let schema = wide_schema();
    let rows = wide_rows();
    let (_, bytes) = encode_data_file(&schema, &rows, String::from("p"));
    let mut truncated = bytes.clone();
    truncated.pop();
    assert!(decode_data_file(&truncated).is_none());
    let mut wrong_version = bytes.clone();
    wrong_version[0] = 9;
    assert!(decode_data_file(&wrong_version).is_none());
    let mut trailing = bytes.clone();
    trailing.push(0);
    assert!(decode_data_file(&trailing).is_none());
    assert!(decode_data_file(&Vec::new()).is_none());
}

#[test]
fn statistics_over_integers_and_nulls() {
    let schema = Schema {
        columns: vec![
            ColumnDef {
                name: String::from("v"),
                column_type: ColumnType::Int32,
                required: false,
            },
        ],
    };
    let rows = vec![
        Row { cells: vec![CellValue::Int32(4)] },
        Row { cells: vec![CellValue::Null] },
        Row { cells: vec![CellValue::Int32(-2)] },
        Row { cells: vec![CellValue::Int32(9)] },
        Row { cells: vec![CellValue::Null] },
    ];
    let (file, _) = encode_data_file(&schema, &rows, String::from("p"));
    let st = &file.column_stats[0];
    assert_eq!(st.null_count, 2);
    assert_eq!(st.min, Some(CellValue::Int32(-2)));
    assert_eq!(st.max, Some(CellValue::Int32(9)));
}

#[test]
fn statistics_over_text_are_lexicographic() {
    let schema = Schema {
        columns: vec![
            ColumnDef {
                name: String::from("w"),
                column_type: ColumnType::Text,
                required: true,
            },
        ],
    };
    let rows = vec![
        Row { cells: vec![CellValue::Text(String::from("pear"))] },
        Row { cells: vec![CellValue::Text(String::from("apple"))] },
        Row { cells: vec![CellValue::Text(String::from("quince"))] },
        Row { cells: vec![CellValue::Text(String::from("ap"))] },
    ];
    let (file, _) = encode_data_file(&schema, &rows, String::from("p"));
    let st = &file.column_stats[0];
    assert_eq!(st.null_count, 0);
    assert_eq!(st.min, Some(CellValue::Text(String::from("ap"))));
    assert_eq!(st.max, Some(CellValue::Text(String::from("quince"))));
}

#[test]
fn statistics_of_all_null_column_are_absent() {
    let schema = Schema {
        columns: vec![
            ColumnDef {
                name: String::from("v"),
                column_type: ColumnType::Int64,
                required: false,
            },
        ],
    };
    let rows = vec![Row { cells: vec![CellValue::Null] }, Row { cells: vec![CellValue::Null] }];
    let (file, _) = encode_data_file(&schema, &rows, String::from("p"));
    let st = &file.column_stats[0];
    assert_eq!(st.null_count, 2);
    assert_eq!(st.min, None);
    assert_eq!(st.max, None);
}

#[test]
fn decimal_numerals() {
    assert_eq!(u64_to_string(0), String::from("0"));
    assert_eq!(u64_to_string(7), String::from("7"));
    assert_eq!(u64_to_string(907), String::from("907"));
    assert_eq!(u64_to_string(u64::MAX), String::from("18446744073709551615"));
}
