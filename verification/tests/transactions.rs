use chocobase::auth::session::ExecutionContext;
use chocobase::catalog::ddl::ColumnDef;
use chocobase::engine::ExecResult;
use chocobase::error::{DbError, PlanError};
use chocobase::exec::database::MemDatabase;
use chocobase::sql::ast::{BinOp, Expr};
use chocobase::types::schema::ColumnType;
use chocobase::types::value::Value;

fn def(name: &str, ty: ColumnType, pk: bool) -> ColumnDef {
    ColumnDef { name: name.into(), ty, not_null: false, primary_key: pk }
}

fn id_val() -> Vec<ColumnDef> {
    vec![def("id", ColumnType::Integer, true), def("val", ColumnType::Text, false)]
}

fn names(list: &[&str]) -> Option<Vec<String>> {
    Some(list.iter().map(|s| s.to_string()).collect())
}

fn id_is(n: i64) -> Option<Expr> {
    Some(Expr::BinaryOp { op: BinOp::Eq, left: Box::new(Expr::Column("id".into())), right: Box::new(Expr::IntLiteral(n)) })
}

fn rows_of(r: Result<ExecResult, DbError>) -> Vec<Vec<Value>> {
    match r.unwrap() {
        ExecResult::Rows { rows, .. } => rows,
        other => panic!("unexpected result: {other:?}"),
    }
}

#[test]
fn transaction_commit_persists_changes() {
    let ctx = ExecutionContext::anonymous();
    let mut db = MemDatabase::new();
    db.create_table("t", &id_val()).unwrap();
    db.begin().unwrap();
    db.insert("t", &names(&["id", "val"]), &vec![vec![Value::Integer(1), Value::Text("committed".into())]]).unwrap();
    db.commit().unwrap();
    let rows = rows_of(db.select("t", &id_is(1), &vec![1], &None, None, &ctx));
    assert_eq!(rows, vec![vec![Value::Text("committed".into())]]);
}

#[test]
fn transaction_rollback_discards_mutations() {
    let ctx = ExecutionContext::anonymous();
    let mut db = MemDatabase::new();
    db.create_table("t", &id_val()).unwrap();
    db.insert("t", &names(&["id", "val"]), &vec![vec![Value::Integer(1), Value::Text("initial".into())]]).unwrap();

    db.begin().unwrap();
    let n = db.update("t", &vec![("val".to_string(), Expr::StringLiteral("modified".into()))], &id_is(1), &ctx).unwrap();
    assert_eq!(n, 1);
    db.insert("t", &names(&["id", "val"]), &vec![vec![Value::Integer(2), Value::Text("new".into())]]).unwrap();
    db.rollback().unwrap();

    let rows = rows_of(db.select("t", &id_is(1), &vec![1], &None, None, &ctx));
    assert_eq!(rows, vec![vec![Value::Text("initial".into())]]);
    let rows2 = rows_of(db.select("t", &id_is(2), &vec![0, 1], &None, None, &ctx));
    assert!(rows2.is_empty());
}

#[test]
fn transaction_rollback_reverts_ddl_and_catalog() {
    let mut db = MemDatabase::new();
    db.create_table("t1", &vec![def("id", ColumnType::Integer, true)]).unwrap();

    db.begin().unwrap();
    db.create_table("t2", &vec![def("id", ColumnType::Integer, true)]).unwrap();
    db.drop_table("t1").unwrap();
    assert_eq!(db.list_tables(), vec!["t2".to_string()]);
    db.rollback().unwrap();

    assert_eq!(db.list_tables(), vec!["t1".to_string()]);
}

#[test]
fn nested_begin_and_naked_commit_error() {
    let mut db = MemDatabase::new();
    assert!(matches!(db.commit().unwrap_err(), DbError::Plan(PlanError::NoTransactionInProgress)));
    assert!(matches!(db.rollback().unwrap_err(), DbError::Plan(PlanError::NoTransactionInProgress)));

    db.begin().unwrap();
    assert!(matches!(db.begin().unwrap_err(), DbError::Plan(PlanError::NestedTransactionNotSupported)));
    db.rollback().unwrap();
}

#[test]
fn unknown_tables_and_duplicate_creates_are_refused() {
    let ctx = ExecutionContext::anonymous();
    let mut db = MemDatabase::new();
    assert!(matches!(db.drop_table("nope"), Err(DbError::Plan(PlanError::NoSuchTable(ref t))) if t == "nope"));
    assert!(matches!(db.select("nope", &None, &vec![], &None, None, &ctx), Err(DbError::Plan(PlanError::NoSuchTable(_)))));
    db.create_table("t", &id_val()).unwrap();
    assert!(matches!(db.create_table("t", &id_val()), Err(DbError::Plan(PlanError::TableAlreadyExists(_)))));
    assert!(matches!(db.create_table("u", &vec![def("a", ColumnType::Integer, false)]), Err(DbError::Plan(PlanError::InvalidSchema(_)))));
    assert_eq!(db.list_tables(), vec!["t".to_string()]);
}
