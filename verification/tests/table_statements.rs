use chocobase::auth::session::ExecutionContext;
use chocobase::engine::ExecResult;
use chocobase::exec::table::TableRows;
use chocobase::sql::ast::{BinOp, Expr};
use chocobase::types::schema::{Column, ColumnType, TableSchema};
use chocobase::types::value::Value;

fn col(name: &str, ty: ColumnType, pk: bool) -> Column {
    Column { name: name.into(), ty, not_null: pk, is_primary_key: pk }
}

fn table(columns: Vec<Column>) -> TableSchema {
    TableSchema { name: "t".into(), columns, root_page: 0, rls_enabled: false }
}

fn names(list: &[&str]) -> Option<Vec<String>> {
    Some(list.iter().map(|s| s.to_string()).collect())
}

fn cmp(op: BinOp, column: &str, n: i64) -> Option<Expr> {
    Some(Expr::BinaryOp { op, left: Box::new(Expr::Column(column.into())), right: Box::new(Expr::IntLiteral(n)) })
}

#[test]
fn insert_then_reinsert_same_pk_errors() {
    let s = table(vec![col("id", ColumnType::Integer, true), col("name", ColumnType::Text, false)]);
    let mut t = TableRows::new(&s);
    assert_eq!(t.insert_statement(&s, &names(&["id", "name"]), &vec![vec![Value::Integer(1), Value::Text("a".into())]]).unwrap(), 1);
    assert!(t.insert_statement(&s, &names(&["id", "name"]), &vec![vec![Value::Integer(1), Value::Text("b".into())]]).is_err());
}

#[test]
fn insert_many_rows_forces_table_split_and_still_works() {
    let s = table(vec![col("id", ColumnType::Integer, true)]);
    let mut t = TableRows::new(&s);
    for i in 0..500 {
        assert_eq!(t.insert_statement(&s, &names(&["id"]), &vec![vec![Value::Integer(i)]]).unwrap(), 1);
    }
    assert_eq!(t.scan().len(), 500);
}

#[test]
fn select_with_where_and_projection() {
    let s = table(vec![col("id", ColumnType::Integer, true), col("name", ColumnType::Text, false)]);
    let mut t = TableRows::new(&s);
    let rows = vec![
        vec![Value::Integer(1), Value::Text("a".into())],
        vec![Value::Integer(2), Value::Text("b".into())],
        vec![Value::Integer(3), Value::Text("c".into())],
    ];
    t.insert_statement(&s, &names(&["id", "name"]), &rows).unwrap();
    let out = t.execute_select(&s, &cmp(BinOp::Gt, "id", 1), &vec![1], &None, None, &ExecutionContext::anonymous()).unwrap();
    assert_eq!(
        out,
        ExecResult::Rows { columns: vec!["name".to_string()], rows: vec![vec![Value::Text("b".into())], vec![Value::Text("c".into())]] }
    );
}

#[test]
fn select_with_order_by_and_limit() {
    let s = table(vec![col("id", ColumnType::Integer, true), col("score", ColumnType::Integer, false)]);
    let mut t = TableRows::new(&s);
    let rows = vec![
        vec![Value::Integer(1), Value::Integer(30)],
        vec![Value::Integer(2), Value::Integer(10)],
        vec![Value::Integer(3), Value::Integer(20)],
    ];
    t.insert_statement(&s, &names(&["id", "score"]), &rows).unwrap();
    let out = t
        .select(&s, &None, &vec![0], &Some(("score".to_string(), false)), Some(2), &ExecutionContext::anonymous())
        .unwrap();
    assert_eq!(out, vec![vec![Value::Integer(2)], vec![Value::Integer(3)]]);
}

#[test]
fn delete_removes_matching_rows_only() {
    let s = table(vec![col("id", ColumnType::Integer, true)]);
    let mut t = TableRows::new(&s);
    let rows = vec![vec![Value::Integer(1)], vec![Value::Integer(2)], vec![Value::Integer(3)]];
    t.insert_statement(&s, &names(&["id"]), &rows).unwrap();
    assert_eq!(t.delete_where(&s, &cmp(BinOp::Eq, "id", 2), &ExecutionContext::anonymous()).unwrap(), 1);
    let remaining = t.select(&s, &None, &vec![0], &None, None, &ExecutionContext::anonymous()).unwrap();
    assert_eq!(remaining, vec![vec![Value::Integer(1)], vec![Value::Integer(3)]]);
}

#[test]
fn a_failing_delete_condition_removes_nothing() {
    let s = table(vec![col("id", ColumnType::Integer, true)]);
    let mut t = TableRows::new(&s);
    t.insert_statement(&s, &None, &vec![vec![Value::Integer(1)]]).unwrap();
    assert!(t.delete_where(&s, &cmp(BinOp::Eq, "nope", 2), &ExecutionContext::anonymous()).is_err());
    assert_eq!(t.scan().len(), 1);
    assert_eq!(t.delete_where(&s, &None, &ExecutionContext::anonymous()).unwrap(), 1);
    assert!(t.scan().is_empty());
}

#[test]
fn an_insert_reports_missing_values_before_bad_text() {
    let s = table(vec![col("tag", ColumnType::Text, false), col("id", ColumnType::Integer, true)]);
    let mut t = TableRows::new(&s);
    let err = t.insert_statement(&s, &None, &vec![vec![Value::Text("a\0b".into()), Value::Null]]).unwrap_err();
    assert!(matches!(err, chocobase::error::ExecError::NotNullViolation(ref c) if c == "id"));
}

#[test]
fn update_changes_matching_rows_only() {
    let s = table(vec![col("id", ColumnType::Integer, true), col("name", ColumnType::Text, false)]);
    let mut t = TableRows::new(&s);
    let rows = vec![vec![Value::Integer(1), Value::Text("a".into())], vec![Value::Integer(2), Value::Text("b".into())]];
    t.insert_statement(&s, &names(&["id", "name"]), &rows).unwrap();
    let n = t
        .update_where(&s, &vec![("name".to_string(), Expr::StringLiteral("z".into()))], &cmp(BinOp::Eq, "id", 1), &ExecutionContext::anonymous())
        .unwrap();
    assert_eq!(n, 1);
    let one = t.select(&s, &cmp(BinOp::Eq, "id", 1), &vec![0, 1], &None, None, &ExecutionContext::anonymous()).unwrap();
    assert_eq!(one, vec![vec![Value::Integer(1), Value::Text("z".into())]]);
    let two = t.select(&s, &cmp(BinOp::Eq, "id", 2), &vec![1], &None, None, &ExecutionContext::anonymous()).unwrap();
    assert_eq!(two, vec![vec![Value::Text("b".into())]]);
}

#[test]
fn an_update_of_the_key_or_an_unknown_column_is_refused() {
    let s = table(vec![col("id", ColumnType::Integer, true), col("name", ColumnType::Text, false)]);
    let mut t = TableRows::new(&s);
    t.insert_statement(&s, &None, &vec![vec![Value::Integer(1), Value::Text("a".into())]]).unwrap();
    let ctx = ExecutionContext::anonymous();
    assert!(matches!(
        t.update_where(&s, &vec![("id".to_string(), Expr::IntLiteral(9))], &None, &ctx),
        Err(chocobase::error::DbError::Plan(chocobase::error::PlanError::CannotUpdatePrimaryKey))
    ));
    assert!(matches!(
        t.update_where(&s, &vec![("zip".to_string(), Expr::IntLiteral(9))], &None, &ctx),
        Err(chocobase::error::DbError::Plan(chocobase::error::PlanError::NoSuchColumn(ref c))) if c == "zip"
    ));
    assert!(t.update_where(&s, &vec![("name".to_string(), Expr::Column("nope".into()))], &None, &ctx).is_err());
    assert_eq!(t.scan(), vec![vec![Value::Integer(1), Value::Text("a".into())]]);
}
