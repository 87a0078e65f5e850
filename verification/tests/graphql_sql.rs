use chocobase::graphql::{graphql_plan, graphql_to_sql};

fn ok(q: &str) -> (String, String) {
    graphql_to_sql(q).unwrap()
}

fn err(q: &str) -> String {
    graphql_to_sql(q).unwrap_err()
}

#[test]
fn queries_become_selects() {
    assert_eq!(ok("{ users { id name } }"), ("users".to_string(), "SELECT id, name FROM users".to_string()));
    assert_eq!(
        ok("query Q { posts(limit: 5, offset: 2) { id,\n title } }"),
        ("posts".to_string(), "SELECT id, title FROM posts LIMIT 5".to_string())
    );
    assert_eq!(
        ok("{ t(limit: 1, limit: 9) { a } }"),
        ("t".to_string(), "SELECT a FROM t LIMIT 9".to_string())
    );
}

#[test]
fn malformed_queries_are_reported() {
    assert_eq!(err("users { id }"), "invalid GraphQL syntax: expected '{ ... }'");
    assert_eq!(err("{ users }"), "expected field selection block '{ ... }'");
    assert_eq!(err("{ users { id }"), "unclosed field selection block '}'");
    assert_eq!(err("{ users(limit: 1 { id } }"), "unclosed argument list ')'");
    assert_eq!(err("{ users { , } }"), "must select at least one field");
    assert_eq!(graphql_plan("   ").unwrap_err().message, "query cannot be empty");
    assert_eq!(graphql_plan("{ a { b } }").unwrap().1, "SELECT b FROM a");
}
