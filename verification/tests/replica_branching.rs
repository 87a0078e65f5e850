use chocobase::http::branches::{branch_route, BranchRoute};
use chocobase::branching::{db_file_path, BranchManager};
use chocobase::error::{DbError, PlanError};
use chocobase::replica::{
    delete_statement, insert_statement, is_read_only, update_statement, ReplicaManager,
};
use chocobase::types::value::Value;

fn cols(names: &[&str]) -> Vec<String> {
    names.iter().map(|s| s.to_string()).collect()
}

#[test]
fn branch_names_are_sanitized_and_filed_under_the_directory() {
    let mut m = BranchManager::new("/data/branches");
    let b = m.create_branch("feature/x!", 10, 2048).unwrap();
    assert_eq!(b.name, "featurex");
    assert_eq!(b.path, "/data/branches/featurex.db");
    assert_eq!(b.created_at_ms, 10);
    assert_eq!(b.size_bytes, 2048);
    assert_eq!(m.list_branches().len(), 1);
}

#[test]
fn branch_name_errors() {
    let mut m = BranchManager::new("dir/");
    match m.create_branch("!!!", 0, 0) {
        Err(DbError::Plan(PlanError::InvalidExpression(msg))) => {
            assert_eq!(msg, "branch name cannot be empty")
        }
        other => panic!("unexpected {other:?}"),
    }
    m.create_branch("dev", 0, 0).unwrap();
    match m.create_branch("d-e-v?", 0, 0) {
        Ok(b) => assert_eq!(b.path, "dir/d-e-v.db"),
        other => panic!("unexpected {other:?}"),
    }
    match m.create_branch("dev", 0, 0) {
        Err(DbError::Plan(PlanError::TableAlreadyExists(msg))) => {
            assert_eq!(msg, "branch 'dev' already exists")
        }
        other => panic!("unexpected {other:?}"),
    }
}

#[test]
fn branch_delete_and_get() {
    let mut m = BranchManager::new("");
    m.create_branch("a", 1, 1).unwrap();
    m.create_branch("b", 2, 2).unwrap();
    assert_eq!(m.get_branch("a").unwrap().path, "a.db");
    let gone = m.delete_branch("a").unwrap();
    assert_eq!(gone.name, "a");
    assert!(m.delete_branch("a").is_none());
    assert!(m.get_branch("a").is_none());
    let names: Vec<String> = m.list_branches().into_iter().map(|b| b.name).collect();
    assert_eq!(names, vec!["b".to_string()]);
}

#[test]
fn file_paths_join_like_directories() {
    assert_eq!(db_file_path("base", &['x']), "base/x.db");
    assert_eq!(db_file_path("base/", &['x']), "base/x.db");
    assert_eq!(db_file_path("", &['x']), "x.db");
}

#[test]
fn replica_creation_and_errors() {
    let mut m = ReplicaManager::new("/r");
    let r = m.create_replica("eu west 1", 99).unwrap();
    assert_eq!(r.id, "euwest1");
    assert_eq!(r.path, "/r/euwest1.db");
    assert_eq!(r.status, "online");
    assert_eq!(r.queries_served, 0);
    assert_eq!(r.created_at_ms, 99);
    match m.create_replica("euwest1", 1) {
        Err(DbError::Plan(PlanError::TableAlreadyExists(msg))) => {
            assert_eq!(msg, "replica 'euwest1' already exists")
        }
        other => panic!("unexpected {other:?}"),
    }
    match m.create_replica("   ", 1) {
        Err(DbError::Plan(PlanError::InvalidExpression(msg))) => {
            assert_eq!(msg, "replica id cannot be empty")
        }
        other => panic!("unexpected {other:?}"),
    }
}

#[test]
fn reads_rotate_over_replicas_and_writes_go_to_primary() {
    let mut m = ReplicaManager::new("/r");
    assert_eq!(m.route_query("SELECT * FROM t"), None);
    m.create_replica("a", 0).unwrap();
    m.create_replica("b", 0).unwrap();
    assert_eq!(m.route_query("SELECT * FROM t"), Some("a".to_string()));
    assert_eq!(m.route_query("  select 1  "), Some("b".to_string()));
    assert_eq!(m.route_query("explain select 1"), Some("a".to_string()));
    assert_eq!(m.route_query("INSERT INTO t VALUES (1)"), None);
    let served: Vec<usize> = m.list_replicas().iter().map(|r| r.queries_served).collect();
    assert_eq!(served, vec![2, 1]);
}

#[test]
fn read_only_statements() {
    assert!(is_read_only("SELECT * FROM users"));
    assert!(is_read_only("  select 1 "));
    assert!(is_read_only("SELECT 1 AS ONE"));
    assert!(is_read_only("Explain SELECT 2"));
    assert!(!is_read_only("SELECT"));
    assert!(!is_read_only("UPDATE t SET a = 1"));
}

#[test]
fn promotion_and_failover() {
    let mut m = ReplicaManager::new("/r");
    m.create_replica("a", 0).unwrap();
    m.create_replica("b", 0).unwrap();
    match m.promote_to_primary("zzz") {
        Err(DbError::Plan(PlanError::NoSuchTable(msg))) => {
            assert_eq!(msg, "standby replica 'zzz' not found for promotion")
        }
        other => panic!("unexpected {other:?}"),
    }
    assert_eq!(m.promote_to_primary("b").unwrap().id, "b");
    assert_eq!(m.auto_failover().unwrap().id, "a");
    assert!(m.auto_failover().is_none());
    assert!(m.delete_replica("a").is_none());
}

#[test]
fn replayed_statements() {
    let c = cols(&["id", "name", "ok"]);
    let row = vec![Value::Integer(7), Value::Text("O'Neil".to_string()), Value::Boolean(true)];
    assert_eq!(
        insert_statement("people", &c, &row).unwrap(),
        "INSERT INTO people (id, name, ok) VALUES (7, 'O''Neil', TRUE)"
    );
    assert_eq!(delete_statement("people", &c, &row).unwrap(), "DELETE FROM people WHERE id = 7");
    assert_eq!(
        update_statement("people", &c, &row).unwrap(),
        "UPDATE people SET name = 'O''Neil', ok = TRUE WHERE id = 7"
    );
    assert!(insert_statement("people", &c, &row[..2]).is_none());
    assert!(update_statement("people", &cols(&["id"]), &[Value::Integer(1)]).is_none());
    assert!(delete_statement("people", &c, &[]).is_none());
    let keyed = vec![Value::Text("k".to_string()), Value::Null, Value::Json("{\"a\":1}".to_string())];
    assert_eq!(delete_statement("t", &c, &keyed).unwrap(), "DELETE FROM t WHERE id = 'k'");
    assert_eq!(
        update_statement("t", &c, &keyed).unwrap(),
        "UPDATE t SET name = NULL, ok = '{\"a\":1}' WHERE id = 'k'"
    );
    assert_eq!(delete_statement("t", &[], &[Value::Boolean(false)]).unwrap(), "DELETE FROM t WHERE id = 0");
}

#[test]
fn branch_requests_are_routed() {
    assert_eq!(branch_route(false, "GET", "/v1/branches", ""), BranchRoute::Unauthorized);
    assert_eq!(branch_route(true, "GET", "/v1/branches", ""), BranchRoute::List);
    assert_eq!(branch_route(true, "GET", "/v1/branches/dev/diff", ""), BranchRoute::Diff("dev".to_string()));
    assert_eq!(branch_route(true, "GET", "/admin/branches/x/diff", ""), BranchRoute::Diff("x".to_string()));
    assert_eq!(branch_route(true, "POST", "/v1/branches/dev/sql", ""), BranchRoute::Sql("dev".to_string()));
    assert_eq!(branch_route(true, "POST", "/admin/branches/dev/merge", ""), BranchRoute::Merge("dev".to_string()));
    assert_eq!(branch_route(true, "POST", "/v1/branches", ""), BranchRoute::Create);
    assert_eq!(branch_route(true, "DELETE", "/v1/branches/old", ""), BranchRoute::Delete("old".to_string()));
    assert_eq!(branch_route(true, "DELETE", "/admin/branches", "name=q"), BranchRoute::Delete("q".to_string()));
    assert_eq!(branch_route(true, "DELETE", "/admin/branches", "zz"), BranchRoute::Delete("zz".to_string()));
    assert_eq!(branch_route(true, "DELETE", "/admin/branches", ""), BranchRoute::MissingName);
    assert_eq!(branch_route(true, "DELETE", "/v1/branches/", "name=q"), BranchRoute::MissingName);
    assert_eq!(branch_route(true, "PATCH", "/v1/branches", ""), BranchRoute::MethodNotAllowed);
}
