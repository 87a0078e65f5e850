use chocobase::audit::{audit_entries, audit_insert_sql, audit_query_sql, next_audit_id};
use chocobase::types::value::Value;

#[test]
fn insert_statement_quotes_and_nulls() {
    let sql = audit_insert_sql(7, Some(3), "login", "user's table", Some("10.0.0.1"), "{\"a\":\"b'c\"}", 1700000000);
    assert_eq!(sql, "INSERT INTO _audit_logs (id, user_id, action, target, ip_address, metadata, created_at) VALUES (7, 3, 'login', 'user''s table', '10.0.0.1', '{\"a\":\"b''c\"}', 1700000000)");
    let anon = audit_insert_sql(1, None, "a", "t", None, "null", 0);
    assert_eq!(anon, "INSERT INTO _audit_logs (id, user_id, action, target, ip_address, metadata, created_at) VALUES (1, NULL, 'a', 't', NULL, 'null', 0)");
}

#[test]
fn next_id_follows_the_newest() {
    assert_eq!(next_audit_id(&vec![]), 1);
    assert_eq!(next_audit_id(&vec![vec![Value::Integer(41)], vec![Value::Integer(3)]]), 42);
    assert_eq!(next_audit_id(&vec![vec![Value::Text("x".into())]]), 1);
}

#[test]
fn query_filters_by_action_and_user() {
    let base = "SELECT id, user_id, action, target, ip_address, metadata, created_at FROM _audit_logs ";
    assert_eq!(audit_query_sql(None, None), format!("{base} ORDER BY id DESC"));
    assert_eq!(audit_query_sql(Some("it's"), None), format!("{base}WHERE action = 'it''s' ORDER BY id DESC"));
    assert_eq!(audit_query_sql(None, Some(5)), format!("{base}WHERE user_id = 5 ORDER BY id DESC"));
    assert_eq!(audit_query_sql(Some("x"), Some(-2)), format!("{base}WHERE action = 'x' AND user_id = -2 ORDER BY id DESC"));
}

#[test]
fn rows_become_entries_up_to_the_limit() {
    let row = |id: Value, uid: Value, meta: Value, at: Value| {
        vec![id, uid, Value::Text("act".into()), Value::Null, Value::Text("1.2.3.4".into()), meta, at]
    };
    let rows = vec![
        row(Value::Integer(3), Value::Integer(9), Value::Json("{}".into()), Value::Integer(50)),
        row(Value::Null, Value::Null, Value::Null, Value::Null),
        row(Value::Integer(1), Value::Text("no".into()), Value::Integer(4), Value::Text("late".into())),
        row(Value::Integer(0), Value::Null, Value::Null, Value::Null),
    ];
    let es = audit_entries(&rows, 3);
    assert_eq!(es.len(), 2);
    assert_eq!((es[0].id, es[0].user_id, es[0].action.as_str(), es[0].target.as_str()), (3, Some(9), "act", ""));
    assert_eq!((es[0].ip_address.as_deref(), es[0].metadata.as_deref(), es[0].created_at), (Some("1.2.3.4"), Some("{}"), 50));
    assert_eq!((es[1].id, es[1].user_id, es[1].metadata.as_deref(), es[1].created_at), (1, None, None, 0));
    assert_eq!(audit_entries(&rows, 10).len(), 3);
    assert_eq!(audit_entries(&rows, 0).len(), 0);
}
