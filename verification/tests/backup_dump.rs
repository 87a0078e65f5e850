use chocobase::backup::{dump_start, dump_table, is_dumped};
use chocobase::types::schema::{Column, ColumnType, IndexSchema, TableSchema};
use chocobase::types::value::Value;

#[test]
fn a_table_dumps_as_ddl_indexes_and_inserts() {
    let s = TableSchema {
        name: "t".into(),
        columns: vec![
            Column { name: "id".into(), ty: ColumnType::Integer, not_null: true, is_primary_key: true },
            Column { name: "name".into(), ty: ColumnType::Text, not_null: true, is_primary_key: false },
            Column { name: "ok".into(), ty: ColumnType::Boolean, not_null: false, is_primary_key: false },
        ],
        root_page: 2,
        rls_enabled: false,
    };
    let idx = vec![
        IndexSchema { name: "pk_t".into(), table: "t".into(), column: "id".into(), root_page: 3 },
        IndexSchema { name: "idx_name".into(), table: "t".into(), column: "name".into(), root_page: 4 },
    ];
    let rows = vec![
        vec![Value::Integer(1), Value::Text("it's".into()), Value::Boolean(true)],
        vec![Value::Integer(-2), Value::Text("b".into()), Value::Null],
    ];
    let cols = vec!["id".to_string(), "name".to_string(), "ok".to_string()];
    let text = dump_table(&s, &idx, &Some((cols, rows)));
    assert_eq!(
        text,
        "-- Table: t\nCREATE TABLE t (id INTEGER PRIMARY KEY, name TEXT NOT NULL, ok BOOLEAN);\nCREATE INDEX idx_name ON t (name);\nINSERT INTO t (id, name, ok) VALUES (1, 'it''s', TRUE);\nINSERT INTO t (id, name, ok) VALUES (-2, 'b', NULL);\n\n"
    );
    assert_eq!(dump_table(&s, &vec![], &None), "-- Table: t\nCREATE TABLE t (id INTEGER PRIMARY KEY, name TEXT NOT NULL, ok BOOLEAN);\n\n");
    assert_eq!(dump_start(), "-- ChocoBase Database Dump\n-- Format: SQL DDL + DML\n\n");
    assert!(is_dumped("t"));
    assert!(!is_dumped("_storage_buckets"));
}

#[test]
fn a_restore_drops_tables_before_recreating_them() {
    let dump = "-- ChocoBase Database Dump\n-- Table: t\nCREATE TABLE t (id INTEGER PRIMARY KEY);\nINSERT INTO t (id) VALUES (1);\n\n-- only a comment;\n";
    let steps = chocobase::backup::restore_plan(dump);
    assert_eq!(steps.len(), 2);
    assert_eq!(steps[0].drop_table.as_deref(), Some("t"));
    assert_eq!(steps[0].statement, "CREATE TABLE t (id INTEGER PRIMARY KEY)");
    assert_eq!(steps[1].drop_table, None);
    assert_eq!(steps[1].statement, "INSERT INTO t (id) VALUES (1)");
    let quoted = chocobase::backup::restore_plan("create table \"Items\" (id INTEGER PRIMARY KEY)");
    assert_eq!(quoted[0].drop_table.as_deref(), Some("Items"));
}
