use chocobase::auth::session::ExecutionContext;
use chocobase::error::{ExecError, PlanError};
use chocobase::plan::select::run_select;
use chocobase::sql::ast::{BinOp, Expr};
use chocobase::types::schema::{Column, ColumnType, TableSchema};
use chocobase::types::value::Value;

fn table() -> TableSchema {
    let col = |name: &str, ty: ColumnType| Column { name: name.into(), ty, not_null: false, is_primary_key: false };
    let mut columns = vec![col("id", ColumnType::Integer), col("name", ColumnType::Text), col("age", ColumnType::Integer)];
    columns[0].is_primary_key = true;
    TableSchema { name: "people".into(), columns, root_page: 0, rls_enabled: false }
}

fn rows() -> Vec<Vec<Value>> {
    vec![
        vec![Value::Integer(1), Value::Text("ann".into()), Value::Integer(30)],
        vec![Value::Integer(2), Value::Text("bob".into()), Value::Integer(25)],
        vec![Value::Integer(3), Value::Text("cy".into()), Value::Integer(35)],
        vec![Value::Integer(4), Value::Text("di".into()), Value::Integer(25)],
    ]
}

fn age_over(n: i64) -> Option<Expr> {
    Some(Expr::BinaryOp { op: BinOp::Gt, left: Box::new(Expr::Column("age".into())), right: Box::new(Expr::IntLiteral(n)) })
}

#[test]
fn select_filters_and_projects_in_key_order() {
    let ctx = ExecutionContext::anonymous();
    let out = run_select(&rows(), &table(), &age_over(26), &vec![1], &None, None, &ctx).unwrap();
    assert_eq!(out, vec![vec![Value::Text("ann".into())], vec![Value::Text("cy".into())]]);
}

#[test]
fn select_orders_stably_and_limits() {
    let ctx = ExecutionContext::anonymous();
    let asc = run_select(&rows(), &table(), &None, &vec![0], &Some(("age".to_string(), false)), Some(3), &ctx).unwrap();
    assert_eq!(asc, vec![vec![Value::Integer(2)], vec![Value::Integer(4)], vec![Value::Integer(1)]]);
    let desc = run_select(&rows(), &table(), &None, &vec![0, 2], &Some(("age".to_string(), true)), None, &ctx).unwrap();
    assert_eq!(desc[0], vec![Value::Integer(3), Value::Integer(35)]);
    assert_eq!(desc.len(), 4);
}

#[test]
fn select_limit_without_order_stops_early() {
    let ctx = ExecutionContext::anonymous();
    let out = run_select(&rows(), &table(), &None, &vec![0], &None, Some(2), &ctx).unwrap();
    assert_eq!(out, vec![vec![Value::Integer(1)], vec![Value::Integer(2)]]);
    let none = run_select(&rows(), &table(), &None, &vec![0], &None, Some(0), &ctx).unwrap();
    assert!(none.is_empty());
}

#[test]
fn select_refuses_an_unknown_order_column() {
    let ctx = ExecutionContext::anonymous();
    let r = run_select(&rows(), &table(), &None, &vec![0], &Some(("height".to_string(), false)), None, &ctx);
    assert!(matches!(r, Err(ExecError::Plan(PlanError::NoSuchColumn(ref c))) if c == "height"));
}

#[test]
fn select_reports_a_failing_condition() {
    let ctx = ExecutionContext::anonymous();
    let bad = Some(Expr::BinaryOp { op: BinOp::Eq, left: Box::new(Expr::Column("nope".into())), right: Box::new(Expr::IntLiteral(1)) });
    let r = run_select(&rows(), &table(), &bad, &vec![0], &None, None, &ctx);
    assert!(matches!(r, Err(ExecError::InvalidValue(_))));
}
