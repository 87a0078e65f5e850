use chocobase::catalog::Catalog;
use chocobase::error::{DbError, PlanError};
use chocobase::storage::pager::Pager;
use chocobase::types::schema::{Column, ColumnType, IndexSchema, TableSchema};

fn sample_schema(name: &str) -> TableSchema {
    TableSchema {
        name: name.into(),
        columns: vec![Column { name: "id".into(), ty: ColumnType::Integer, not_null: true, is_primary_key: true }],
        root_page: 0,
        rls_enabled: false,
    }
}

#[test]
fn create_and_get_table_roundtrips() {
    let mut pager = Pager::new();
    let mut catalog = Catalog::bootstrap().unwrap();
    let table_root = pager.allocate_page().unwrap();
    let mut schema = sample_schema("users");
    schema.root_page = table_root;
    catalog.create_table(&schema).unwrap();
    let fetched = catalog.get_table("users").unwrap().unwrap();
    assert_eq!(fetched.name, "users");
    assert_eq!(fetched.root_page, table_root);
    assert!(catalog.get_table("missing").unwrap().is_none());
}

#[test]
fn catalog_create_duplicate_table_errors() {
    let mut pager = Pager::new();
    let mut catalog = Catalog::bootstrap().unwrap();
    let mut schema = sample_schema("users");
    schema.root_page = pager.allocate_page().unwrap();
    catalog.create_table(&schema).unwrap();
    let err = catalog.create_table(&schema).unwrap_err();
    assert!(matches!(err, DbError::Plan(PlanError::TableAlreadyExists(_))));
}

#[test]
fn drop_table_removes_it_and_frees_pages() {
    let mut pager = Pager::new();
    let mut catalog = Catalog::bootstrap().unwrap();
    let mut schema = sample_schema("users");
    schema.root_page = pager.allocate_page().unwrap();
    catalog.create_table(&schema).unwrap();
    catalog.drop_table("users").unwrap();
    assert!(catalog.get_table("users").unwrap().is_none());
}

#[test]
fn list_tables_returns_created_names() {
    let mut pager = Pager::new();
    let mut catalog = Catalog::bootstrap().unwrap();
    for name in ["a", "b", "c"] {
        let mut schema = sample_schema(name);
        schema.root_page = pager.allocate_page().unwrap();
        catalog.create_table(&schema).unwrap();
    }
    let mut names = catalog.list_tables().unwrap();
    names.sort();
    assert_eq!(names, vec!["a", "b", "c"]);
}

#[test]
fn create_index_get_and_drop() {
    let mut pager = Pager::new();
    let mut catalog = Catalog::bootstrap().unwrap();
    let idx_root = pager.allocate_page().unwrap();
    let idx = IndexSchema { name: "idx_id".into(), table: "users".into(), column: "id".into(), root_page: idx_root };
    catalog.create_index(&idx).unwrap();
    let fetched = catalog.get_index("idx_id").unwrap().unwrap();
    assert_eq!(fetched.table, "users");
    let for_table = catalog.list_indexes_for_table("users").unwrap();
    assert_eq!(for_table.len(), 1);
    catalog.drop_index("idx_id").unwrap();
    assert!(catalog.get_index("idx_id").unwrap().is_none());
}

#[test]
fn update_table_root_persists_new_root() {
    let mut pager = Pager::new();
    let mut catalog = Catalog::bootstrap().unwrap();
    let mut schema = sample_schema("users");
    schema.root_page = pager.allocate_page().unwrap();
    catalog.create_table(&schema).unwrap();
    let new_root = pager.allocate_page().unwrap();
    catalog.update_table_root("users", new_root).unwrap();
    let fetched = catalog.get_table("users").unwrap().unwrap();
    assert_eq!(fetched.root_page, new_root);
}

#[test]
fn dropping_a_table_drops_its_indexes_and_renames_keep_contents() {
    let mut catalog = Catalog::bootstrap().unwrap();
    catalog.create_table(&sample_schema("users")).unwrap();
    catalog.create_table(&sample_schema("posts")).unwrap();
    let ix = |n: &str, t: &str| IndexSchema { name: n.into(), table: t.into(), column: "id".into(), root_page: 3 };
    catalog.create_index(&ix("u1", "users")).unwrap();
    catalog.create_index(&ix("p1", "posts")).unwrap();
    catalog.create_index(&ix("u2", "users")).unwrap();
    assert!(matches!(catalog.create_index(&ix("u2", "posts")), Err(DbError::Plan(PlanError::IndexAlreadyExists(n))) if n == "u2"));
    let mut names: Vec<String> = catalog.list_indexes_for_table("users").unwrap().into_iter().map(|x| x.name).collect();
    names.sort();
    assert_eq!(names, vec!["u1", "u2"]);
    catalog.drop_table("users").unwrap();
    assert!(catalog.get_index("u1").unwrap().is_none());
    assert!(catalog.get_index("p1").unwrap().is_some());
    assert!(matches!(catalog.drop_table("users"), Err(DbError::Plan(PlanError::NoSuchTable(n))) if n == "users"));
    assert!(matches!(catalog.rename_table("posts", "posts"), Err(DbError::Plan(PlanError::TableAlreadyExists(_)))));
    assert!(matches!(catalog.rename_table("nope", "other"), Err(DbError::Plan(PlanError::NoSuchTable(n))) if n == "nope"));
    catalog.set_table_rls("posts", true).unwrap();
    catalog.rename_table("posts", "articles").unwrap();
    let a = catalog.get_table("articles").unwrap().unwrap();
    assert_eq!((a.name.as_str(), a.rls_enabled), ("articles", true));
    assert!(catalog.get_table("posts").unwrap().is_none());
    assert!(matches!(catalog.update_index_root("zz", 1), Err(DbError::Plan(PlanError::NoSuchIndex(_)))));
}
