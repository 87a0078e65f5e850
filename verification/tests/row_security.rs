use chocobase::auth::session::ExecutionContext;
use chocobase::error::{DbError, ExecError};
use chocobase::plan::rls::{rls_filter, rls_insert_check, PolicyCmd, PolicySchema};
use chocobase::sql::ast::{BinOp, Expr};
use chocobase::types::schema::{Column, ColumnType, TableSchema};
use chocobase::types::value::Value;

fn owner_is_caller() -> Expr {
    Expr::BinaryOp { op: BinOp::Eq, left: Box::new(Expr::Column("owner".into())), right: Box::new(Expr::AuthUid) }
}

fn policy(cmd: PolicyCmd, using_expr: Option<Expr>, with_check: Option<Expr>) -> PolicySchema {
    PolicySchema { name: "p".into(), table: "t".into(), cmd, using_expr, with_check }
}

fn deny() -> Expr {
    Expr::BinaryOp { op: BinOp::Eq, left: Box::new(Expr::IntLiteral(1)), right: Box::new(Expr::IntLiteral(0)) }
}

fn table() -> TableSchema {
    let col = |n: &str, pk: bool| Column { name: n.into(), ty: ColumnType::Integer, not_null: pk, is_primary_key: pk };
    TableSchema { name: "t".into(), columns: vec![col("id", true), col("owner", false)], root_page: 0, rls_enabled: true }
}

#[test]
fn row_security_filters_are_combined_or_deny_by_default() {
    let w = || Expr::BinaryOp { op: BinOp::Gt, left: Box::new(Expr::Column("id".into())), right: Box::new(Expr::IntLiteral(1)) };
    assert_eq!(rls_filter(false, false, vec![], PolicyCmd::Select, Some(w())), Some(w()));
    assert_eq!(rls_filter(true, true, vec![], PolicyCmd::Select, None), None);
    assert_eq!(rls_filter(true, false, vec![policy(PolicyCmd::Insert, None, None)], PolicyCmd::Select, None), Some(deny()));
    let got = rls_filter(true, false, vec![policy(PolicyCmd::All, Some(owner_is_caller()), None)], PolicyCmd::Select, Some(w()));
    assert_eq!(got, Some(Expr::BinaryOp { op: BinOp::And, left: Box::new(w()), right: Box::new(owner_is_caller()) }));
    let two = vec![policy(PolicyCmd::Select, Some(Expr::BoolLiteral(false)), None), policy(PolicyCmd::Select, Some(owner_is_caller()), None)];
    assert_eq!(
        rls_filter(true, false, two, PolicyCmd::Select, None),
        Some(Expr::BinaryOp { op: BinOp::Or, left: Box::new(Expr::BoolLiteral(false)), right: Box::new(owner_is_caller()) })
    );
}

#[test]
fn new_rows_are_checked_against_insert_policies() {
    let s = table();
    let me = ExecutionContext { user_id: Some(5), role: Some("authenticated".into()), is_admin: false };
    let ps = vec![policy(PolicyCmd::Insert, Some(owner_is_caller()), None)];
    assert!(rls_insert_check(true, false, &ps, &s, &[Value::Integer(1), Value::Integer(5)], &me).is_ok());
    match rls_insert_check(true, false, &ps, &s, &[Value::Integer(1), Value::Integer(6)], &me) {
        Err(DbError::Exec(ExecError::InvalidValue(m))) => assert_eq!(m, "row violates row-level security policy"),
        other => panic!("unexpected {other:?}"),
    }
    match rls_insert_check(true, false, &vec![policy(PolicyCmd::Select, None, None)], &s, &[Value::Integer(1), Value::Integer(5)], &me) {
        Err(DbError::Exec(ExecError::InvalidValue(m))) => assert_eq!(m, "RLS check failed: no insert policy on table"),
        other => panic!("unexpected {other:?}"),
    }
    assert!(rls_insert_check(true, true, &vec![], &s, &[Value::Integer(1), Value::Integer(6)], &me).is_ok());
}
