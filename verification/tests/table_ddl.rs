use chocobase::catalog::ddl::{index_column, plan_create_table, ColumnDef};
use chocobase::catalog::Catalog;
use chocobase::error::{DbError, PlanError};
use chocobase::types::schema::{ColumnType, IndexSchema};

fn def(name: &str, ty: ColumnType, not_null: bool, pk: bool) -> ColumnDef {
    ColumnDef { name: name.into(), ty, not_null, primary_key: pk }
}

#[test]
fn create_table_then_drop_table() {
    let mut cat = Catalog::bootstrap().unwrap();
    let s = plan_create_table("users", &vec![def("id", ColumnType::Integer, false, true), def("name", ColumnType::Text, false, false)], 2).unwrap();
    assert!(s.columns[0].not_null);
    assert!(!s.columns[1].not_null);
    cat.create_table(&s).unwrap();
    cat.drop_table("users").unwrap();
    assert!(cat.get_table("users").unwrap().is_none());
}

#[test]
fn create_table_without_primary_key_errors() {
    let err = plan_create_table("t", &vec![def("a", ColumnType::Integer, false, false)], 2).unwrap_err();
    assert!(matches!(err, PlanError::InvalidSchema(ref m) if m == "table t must declare exactly one PRIMARY KEY column"));
    let two = vec![def("a", ColumnType::Integer, false, true), def("b", ColumnType::Integer, false, true)];
    assert!(matches!(plan_create_table("t", &two, 2), Err(PlanError::InvalidSchema(_))));
}

#[test]
fn create_duplicate_table_errors() {
    let mut cat = Catalog::bootstrap().unwrap();
    let s = plan_create_table("t", &vec![def("id", ColumnType::Integer, false, true)], 2).unwrap();
    cat.create_table(&s).unwrap();
    let err = cat.create_table(&s).unwrap_err();
    assert!(matches!(err, DbError::Plan(PlanError::TableAlreadyExists(_))));
}

#[test]
fn create_index_on_existing_rows_then_drop_it() {
    let mut cat = Catalog::bootstrap().unwrap();
    let s = plan_create_table("t", &vec![def("id", ColumnType::Integer, false, true), def("name", ColumnType::Text, true, false)], 2).unwrap();
    cat.create_table(&s).unwrap();
    assert_eq!(index_column(&s, "name").unwrap(), 1);
    let idx = IndexSchema { name: "idx_name".into(), table: "t".into(), column: "name".into(), root_page: 3 };
    cat.create_index(&idx).unwrap();
    cat.drop_index("idx_name").unwrap();
    assert!(cat.get_index("idx_name").unwrap().is_none());
}

#[test]
fn create_index_on_nullable_column_errors() {
    let s = plan_create_table("t", &vec![def("id", ColumnType::Integer, false, true), def("name", ColumnType::Text, false, false)], 2).unwrap();
    let err = index_column(&s, "name").unwrap_err();
    assert!(matches!(err, PlanError::InvalidSchema(ref m) if m == "indexed column name must be NOT NULL"));
    assert!(matches!(index_column(&s, "zip"), Err(PlanError::NoSuchColumn(_))));
}
