use chocobase::http::crud::{
    delete_sql, insert_row_sql, json_to_sql_literal, page_range, patch_sql, response_prefs,
    select_sql, should_upsert, upsert_sql, JsonScalar, ResponsePrefs,
};
use chocobase::text::parse_usize;

fn pairs(v: &[(&str, &str)]) -> Vec<(String, String)> {
    v.iter().map(|(a, b)| (a.to_string(), b.to_string())).collect()
}

fn obj(v: Vec<(&str, JsonScalar)>) -> Vec<(String, JsonScalar)> {
    v.into_iter().map(|(k, x)| (k.to_string(), x)).collect()
}

#[test]
fn select_statements() {
    assert_eq!(select_sql("users", &[]), "SELECT * FROM users");
    let p = pairs(&[("select", "id,name"), ("age", "gte.18"), ("order", "name.DESC")]);
    assert_eq!(select_sql("users", &p), "SELECT id, name FROM users WHERE age >= 18 ORDER BY name DESC");
    let p = pairs(&[("select", "author:users(id)"), ("order", "id")]);
    assert_eq!(select_sql("posts", &p), "SELECT * FROM posts ORDER BY id ASC");
    let p = pairs(&[("order", "id.up"), ("a", "eq.1"), ("b", "eq.x")]);
    assert_eq!(select_sql("t", &p), "SELECT * FROM t WHERE a = 1 AND b = 'x' ORDER BY id ASC");
}

#[test]
fn delete_and_patch_statements() {
    assert_eq!(delete_sql("t", &pairs(&[("id", "eq.3")])), "DELETE FROM t WHERE id = 3 RETURNING *");
    assert_eq!(delete_sql("t", &[]), "DELETE FROM t RETURNING *");
    let f = obj(vec![("name", JsonScalar::Str("O'k".to_string())), ("n", JsonScalar::Number("2.5".to_string()))]);
    assert_eq!(
        patch_sql("t", &f, &pairs(&[("id", "eq.1")])).unwrap(),
        "UPDATE t SET name = 'O''k', n = 2.5 WHERE id = 1 RETURNING *"
    );
    assert!(patch_sql("t", &vec![], &[]).is_none());
}

#[test]
fn insert_statements_follow_the_table_columns() {
    let cols = vec!["id".to_string(), "name".to_string(), "tags".to_string()];
    let f = obj(vec![
        ("tags", JsonScalar::Composite("[\"a\"]".to_string())),
        ("extra", JsonScalar::Bool(true)),
        ("id", JsonScalar::Number("7".to_string())),
    ]);
    assert_eq!(
        insert_row_sql("t", &cols, &f).unwrap(),
        "INSERT INTO t (id, tags) VALUES (7, '[\"a\"]') RETURNING *"
    );
    assert!(insert_row_sql("t", &cols, &obj(vec![("zzz", JsonScalar::Null)])).is_none());
}

#[test]
fn upserts() {
    let p = pairs(&[("resolution", "merge-duplicates")]);
    assert!(should_upsert("POST", &p, "boom"));
    assert!(should_upsert("PUT", &[], "boom"));
    assert!(should_upsert("POST", &pairs(&[("on_conflict", "id")]), "boom"));
    assert!(should_upsert("POST", &[], "Duplicate PRIMARY KEY value"));
    assert!(should_upsert("POST", &[], "row Already Exists"));
    assert!(!should_upsert("POST", &[], "syntax error"));
    let cols = vec!["id".to_string(), "name".to_string()];
    let f = obj(vec![
        ("id", JsonScalar::Number("1".to_string())),
        ("name", JsonScalar::Str("x".to_string())),
        ("bogus", JsonScalar::Null),
    ]);
    assert_eq!(upsert_sql("t", &cols, "id", &f).unwrap(), "UPDATE t SET name = 'x' WHERE id = 1 RETURNING *");
    assert!(upsert_sql("t", &cols, "id", &obj(vec![("id", JsonScalar::Number("1".to_string()))])).is_none());
    assert!(upsert_sql("t", &cols, "id", &obj(vec![("name", JsonScalar::Null)])).is_none());
}

#[test]
fn literals_of_json_values() {
    assert_eq!(json_to_sql_literal(&JsonScalar::Null), "NULL");
    assert_eq!(json_to_sql_literal(&JsonScalar::Bool(false)), "FALSE");
    assert_eq!(json_to_sql_literal(&JsonScalar::Str("a'b".to_string())), "'a''b'");
}

#[test]
fn pages_and_ranges() {
    assert_eq!(page_range(0, 0, None), (0, "*/0".to_string()));
    assert_eq!(page_range(10, 0, Some(3)), (3, "0-2/10".to_string()));
    assert_eq!(page_range(10, 8, Some(5)), (2, "8-9/10".to_string()));
    assert_eq!(page_range(10, 20, None), (0, "20-9/10".to_string()));
    assert_eq!(parse_usize("+42"), Some(42));
    assert_eq!(parse_usize("-1"), None);
    assert_eq!(parse_usize(""), None);
}

#[test]
fn response_preferences() {
    assert_eq!(
        response_prefs(Some("Return=Minimal, count=exact"), None, &[]),
        ResponsePrefs { minimal: true, count: true, single_object: false }
    );
    assert_eq!(
        response_prefs(None, Some("application/vnd.pgrst.object+json"), &pairs(&[("count", "")])),
        ResponsePrefs { minimal: false, count: true, single_object: true }
    );
}
