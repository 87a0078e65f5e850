use chocobase::http::csv::{json_rows_to_csv, JsonCell};
use chocobase::http::rest::{
    build_where_clauses, escape_sql_string, get_cors_header, parse_query_params,
    parse_select_embedding, sanitize_identifier, EmbeddedRelation,
};

fn pairs(v: &[(&str, &str)]) -> Vec<(String, String)> {
    v.iter().map(|(a, b)| (a.to_string(), b.to_string())).collect()
}

#[test]
fn query_params_split_on_ampersand_and_first_equals() {
    let p = parse_query_params("a=1&b=x=y&&c&a=2");
    assert_eq!(p, pairs(&[("a", "2"), ("b", "x=y")]));
    assert!(parse_query_params("").is_empty());
}

#[test]
fn where_clauses_skip_reserved_and_expand_or() {
    let p = pairs(&[
        ("select", "*"),
        ("age", "gt.30"),
        ("or", "(name.eq.bob,age.lt.5,junk)"),
        ("limit", "10"),
        ("order", "id"),
    ]);
    assert_eq!(
        build_where_clauses(&p),
        vec!["age > 30".to_string(), "(name = 'bob' OR age < 5)".to_string()]
    );
    assert!(build_where_clauses(&pairs(&[("or", "(nodot)")])).is_empty());
}

#[test]
fn select_lists_with_embedded_tables() {
    let (cols, rels) = parse_select_embedding("id, name, author:users(id,name), posts()");
    assert_eq!(cols, vec!["id".to_string(), "name".to_string()]);
    assert_eq!(
        rels,
        vec![
            EmbeddedRelation {
                alias: "author".to_string(),
                target_table: "users".to_string(),
                columns: "id,name".to_string()
            },
            EmbeddedRelation {
                alias: "posts".to_string(),
                target_table: "posts".to_string(),
                columns: "*".to_string()
            },
        ]
    );
    let (cols, rels) = parse_select_embedding(" , ");
    assert_eq!(cols, vec!["*".to_string()]);
    assert!(rels.is_empty());
}

#[test]
fn identifiers_are_checked() {
    assert_eq!(sanitize_identifier("users_2").unwrap(), "users_2");
    assert_eq!(
        sanitize_identifier("").unwrap_err(),
        "identifier length must be between 1 and 64 characters"
    );
    assert_eq!(
        sanitize_identifier(&"a".repeat(65)).unwrap_err(),
        "identifier length must be between 1 and 64 characters"
    );
    assert_eq!(
        sanitize_identifier("drop table;").unwrap_err(),
        "identifier must contain only alphanumeric characters and underscores"
    );
    assert_eq!(escape_sql_string("it's"), "it''s");
}

#[test]
fn cors_headers() {
    let allow = "Access-Control-Allow-Origin: https://a.io\r\nAccess-Control-Allow-Credentials: true\r\nAccess-Control-Expose-Headers: Content-Range, Range-Unit, Preference-Applied, Content-Length, ETag, X-Total-Count\r\n";
    assert_eq!(get_cors_header(None, "*"), (String::new(), true));
    assert_eq!(get_cors_header(Some("https://a.io"), "*"), (allow.to_string(), true));
    assert_eq!(get_cors_header(Some("https://a.io"), "https://b.io, https://a.io"), (allow.to_string(), true));
    assert_eq!(get_cors_header(Some("https://c.io"), "https://b.io,https://a.io"), (String::new(), false));
}

#[test]
fn csv_of_json_rows() {
    let row1 = Some(vec![
        ("id".to_string(), JsonCell::Other("1".to_string())),
        ("name".to_string(), JsonCell::Str("a,b".to_string())),
    ]);
    let row2 = Some(vec![
        ("name".to_string(), JsonCell::Str("say \"hi\"".to_string())),
        ("id".to_string(), JsonCell::Null),
    ]);
    let row3 = Some(vec![("other".to_string(), JsonCell::Str("x".to_string()))]);
    let csv = json_rows_to_csv(&vec![row1, None, row2, row3]);
    assert_eq!(csv, "id,name\n1,\"a,b\"\n,\"say \"\"hi\"\"\"\n,\n");
    assert_eq!(json_rows_to_csv(&vec![]), "");
    assert_eq!(json_rows_to_csv(&vec![None]), "");
}
