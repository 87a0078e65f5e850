use chocobase::catalog::record::{
    decode_index_record, decode_table_record, encode_index_record, encode_table_record,
    record_kind, KIND_INDEX, KIND_TABLE,
};
use chocobase::types::schema::{Column, ColumnType, IndexSchema, TableSchema};

#[test]
fn table_record_roundtrip() {
    let schema = TableSchema {
        name: "users".into(),
        columns: vec![
            Column {
                name: "id".into(),
                ty: ColumnType::Integer,
                not_null: true,
                is_primary_key: true,
            },
            Column {
                name: "email".into(),
                ty: ColumnType::Text,
                not_null: false,
                is_primary_key: false,
            },
        ],
        root_page: 7,
        rls_enabled: true,
    };
    let encoded = encode_table_record(&schema);
    assert_eq!(record_kind(&encoded), KIND_TABLE);
    let decoded = decode_table_record(&encoded);
    assert_eq!(decoded.name, "users");
    assert_eq!(decoded.root_page, 7);
    assert_eq!(decoded.columns.len(), 2);
    assert_eq!(decoded.columns[0].name, "id");
    assert!(decoded.columns[0].is_primary_key);
    assert_eq!(decoded.columns[1].ty, ColumnType::Text);
    assert!(decoded.rls_enabled);
}

#[test]
fn index_record_roundtrip() {
    let schema = IndexSchema {
        name: "idx_email".into(),
        table: "users".into(),
        column: "email".into(),
        root_page: 12,
    };
    let encoded = encode_index_record(&schema);
    assert_eq!(record_kind(&encoded), KIND_INDEX);
    let decoded = decode_index_record(&encoded);
    assert_eq!(decoded.name, "idx_email");
    assert_eq!(decoded.table, "users");
    assert_eq!(decoded.column, "email");
    assert_eq!(decoded.root_page, 12);
}

#[test]
fn table_record_bytes_follow_the_layout() {
    let schema = TableSchema {
        name: "t".into(),
        columns: vec![Column {
            name: "a".into(),
            ty: ColumnType::Json,
            not_null: false,
            is_primary_key: true,
        }],
        root_page: 0x0102,
        rls_enabled: false,
    };
    let encoded = encode_table_record(&schema);
    assert_eq!(encoded, vec![1, 1, 0, b't', 2, 1, 0, 0, 1, 0, 1, 0, b'a', 4, 0, 1, 0]);
}

#[test]
fn table_record_without_rls_byte_decodes_as_disabled() {
    let bytes = vec![1, 1, 0, b't', 2, 1, 0, 0, 0, 0];
    let decoded = decode_table_record(&bytes);
    assert_eq!(decoded.name, "t");
    assert!(decoded.columns.is_empty());
    assert!(!decoded.rls_enabled);
}

#[test]
fn non_ascii_names_roundtrip() {
    let schema = IndexSchema {
        name: "idx_é".into(),
        table: "tábla".into(),
        column: "ñ".into(),
        root_page: 3,
    };
    let decoded = decode_index_record(&encode_index_record(&schema));
    assert_eq!(decoded, schema);
}
