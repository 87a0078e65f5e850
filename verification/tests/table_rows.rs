use chocobase::error::{ExecError, PlanError};
use chocobase::exec::table::{full_row, TableRows};
use chocobase::types::schema::{Column, ColumnType, TableSchema};
use chocobase::types::value::Value;

fn schema() -> TableSchema {
    TableSchema {
        name: "t".into(),
        columns: vec![
            Column { name: "id".into(), ty: ColumnType::Integer, not_null: true, is_primary_key: true },
            Column { name: "name".into(), ty: ColumnType::Text, not_null: true, is_primary_key: false },
        ],
        root_page: 0,
        rls_enabled: false,
    }
}

fn row(id: i64, name: &str) -> Vec<Value> {
    vec![Value::Integer(id), Value::Text(name.into())]
}

#[test]
fn not_null_violation_is_rejected() {
    let s = schema();
    let mut t = TableRows::new(&s);
    let err = t.insert_row(&s, &[Value::Integer(1), Value::Null]).unwrap_err();
    assert!(matches!(err, ExecError::NotNullViolation(_)));
    assert!(t.scan().is_empty());
}

#[test]
fn duplicate_primary_key_is_rejected() {
    let s = schema();
    let mut t = TableRows::new(&s);
    t.insert_row(&s, &row(1, "a")).unwrap();
    let err = t.insert_row(&s, &row(1, "b")).unwrap_err();
    assert!(matches!(err, ExecError::DuplicatePrimaryKey));
    assert_eq!(t.scan(), vec![row(1, "a")]);
}

#[test]
fn interior_nul_in_text_is_rejected() {
    let s = schema();
    let mut t = TableRows::new(&s);
    let err = t.insert_row(&s, &[Value::Integer(1), Value::Text("a\0b".into())]).unwrap_err();
    assert!(matches!(err, ExecError::InvalidValue(_)));
}

#[test]
fn rows_come_back_in_key_order() {
    let s = schema();
    let mut t = TableRows::new(&s);
    for (id, name) in [(3, "c"), (1, "a"), (2, "b"), (10, "j")] {
        t.insert_row(&s, &row(id, name)).unwrap();
    }
    assert_eq!(t.scan(), vec![row(1, "a"), row(2, "b"), row(3, "c"), row(10, "j")]);
}

#[test]
fn deleting_a_row_removes_only_its_key() {
    let s = schema();
    let mut t = TableRows::new(&s);
    t.insert_row(&s, &row(1, "a")).unwrap();
    t.insert_row(&s, &row(2, "b")).unwrap();
    assert!(t.delete_row(&row(1, "a")));
    assert_eq!(t.scan(), vec![row(2, "b")]);
    assert!(!t.delete_row(&row(7, "x")));
    assert_eq!(t.scan(), vec![row(2, "b")]);
}

#[test]
fn select_reads_stored_rows_in_key_order() {
    let s = schema();
    let mut t = TableRows::new(&s);
    for (id, name) in [(2, "b"), (1, "a"), (3, "c")] {
        t.insert_row(&s, &row(id, name)).unwrap();
    }
    let ctx = chocobase::auth::session::ExecutionContext::anonymous();
    let names = t.select(&s, &None, &vec![1], &None, Some(2), &ctx).unwrap();
    assert_eq!(names, vec![vec![Value::Text("a".into())], vec![Value::Text("b".into())]]);
    let by_name_desc = t.select(&s, &None, &vec![0], &Some(("name".to_string(), true)), None, &ctx).unwrap();
    assert_eq!(by_name_desc, vec![vec![Value::Integer(3)], vec![Value::Integer(2)], vec![Value::Integer(1)]]);
}

#[test]
fn insert_rows_are_built_from_the_column_list() {
    let s = schema();
    let r = full_row(&s, &Some(vec!["name".to_string()]), &vec![Value::Text("z".into())]).unwrap();
    assert_eq!(r, vec![Value::Null, Value::Text("z".into())]);
    let r = full_row(&s, &Some(vec!["id".to_string(), "id".to_string()]), &vec![Value::Integer(1), Value::Integer(2)]).unwrap();
    assert_eq!(r, vec![Value::Integer(2), Value::Null]);
    assert_eq!(full_row(&s, &None, &row(5, "e")).unwrap(), row(5, "e"));
}

#[test]
fn insert_rows_with_wrong_counts_or_names_are_refused() {
    let s = schema();
    assert!(matches!(full_row(&s, &None, &vec![Value::Integer(1)]), Err(PlanError::ColumnCountMismatch { expected: 2, found: 1 })));
    assert!(matches!(
        full_row(&s, &Some(vec!["id".to_string()]), &row(1, "a")),
        Err(PlanError::ColumnCountMismatch { expected: 1, found: 2 })
    ));
    assert!(matches!(
        full_row(&s, &Some(vec!["nope".to_string(), "zip".to_string()]), &row(1, "a")),
        Err(PlanError::NoSuchColumn(ref n)) if n == "nope"
    ));
}

#[test]
fn an_insert_statement_stores_all_rows_or_none() {
    let s = schema();
    let mut t = TableRows::new(&s);
    let n = t.insert_statement(&s, &None, &vec![row(2, "b"), row(1, "a")]).unwrap();
    assert_eq!(n, 2);
    assert_eq!(t.scan(), vec![row(1, "a"), row(2, "b")]);
    let err = t.insert_statement(&s, &None, &vec![row(3, "c"), row(1, "again")]).unwrap_err();
    assert!(matches!(err, ExecError::DuplicatePrimaryKey));
    assert_eq!(t.scan(), vec![row(1, "a"), row(2, "b")]);
    let err = t.insert_statement(&s, &Some(vec!["id".to_string()]), &vec![vec![Value::Integer(9)]]).unwrap_err();
    assert!(matches!(err, ExecError::NotNullViolation(ref c) if c == "name"));
    let err = t.insert_statement(&s, &Some(vec!["idx".to_string()]), &vec![vec![Value::Integer(9)]]).unwrap_err();
    assert!(matches!(err, ExecError::Plan(PlanError::NoSuchColumn(ref c)) if c == "idx"));
    assert_eq!(t.scan().len(), 2);
}

#[test]
fn seeking_a_key_finds_its_row() {
    let s = schema();
    let mut t = TableRows::new(&s);
    t.insert_row(&s, &row(4, "d")).unwrap();
    t.insert_row(&s, &row(2, "b")).unwrap();
    assert_eq!(t.seek(&Value::Integer(2)), Some(row(2, "b")));
    assert_eq!(t.seek(&Value::Integer(3)), None);
    assert_eq!(t.seek(&Value::Text("2".into())), None);
}
