use chocobase::http::filter::{format_filter_key, format_sql_val, parse_single_filter};
use chocobase::text::parse_i64;

fn f(k: &str, v: &str) -> String {
    parse_single_filter(k, v).unwrap()
}

#[test]
fn comparison_filters_and_negation() {
    assert_eq!(f("age", "gt.30"), "age > 30");
    assert_eq!(f("age", "not.gt.30"), "age <= 30");
    assert_eq!(f("name", "eq.bob"), "name = 'bob'");
    assert_eq!(f("name", "not.eq.bob"), "name != 'bob'");
    assert_eq!(f("flag", "neq.TRUE"), "flag != TRUE");
    assert_eq!(f("x", "lte.-5"), "x <= -5");
    assert_eq!(f("x", "gte.o'k"), "x >= 'o''k'");
    assert_eq!(f("x", "plain"), "x = 'plain'");
    assert_eq!(f("x", "weird.op"), "x = 'weird.op'");
}

#[test]
fn pattern_and_null_filters() {
    assert_eq!(f("n", "like.a%"), "n LIKE 'a%'");
    assert_eq!(f("n", "not.ilike.it's"), "n NOT ILIKE 'it''s'");
    assert_eq!(f("n", "ilike.ab%"), "n ILIKE 'ab%'");
    assert_eq!(f("body", "fts.rust"), "FTS_MATCH(body, 'rust')");
    assert_eq!(f("d", "is.NULL"), "d IS NULL");
    assert_eq!(f("d", "not.is.null"), "d IS NOT NULL");
    assert_eq!(f("d", "is.not_null"), "d IS NOT NULL");
    assert_eq!(f("d", "is.true"), "d = TRUE");
    assert_eq!(f("d", "not.is.false"), "d = TRUE");
    assert_eq!(f("d", "is.whatever"), "d IS NULL");
}

#[test]
fn array_and_list_filters() {
    assert_eq!(f("tags", "cs.{a,b}"), "(tags LIKE '%a%' AND tags LIKE '%b%')");
    assert_eq!(f("tags", "not.cs.{a,b}"), "(tags NOT LIKE '%a%' OR tags NOT LIKE '%b%')");
    assert_eq!(f("tags", "cs.{}"), "tags LIKE '%{}%'");
    assert_eq!(f("tags", "ov.[\"x\", 'y']"), "(tags LIKE '%x%' OR tags LIKE '%y%')");
    assert_eq!(f("tags", "not.ov.{x}"), "NOT (tags LIKE '%x%')");
    assert_eq!(f("tags", "cd.{z}"), "tags LIKE '%{z}%'");
    assert_eq!(f("id", "in.(1, 2,x)"), "id IN (1, 2, 'x')");
    assert_eq!(f("id", "not.in.(3)"), "id NOT IN (3)");
}

#[test]
fn json_path_keys_are_quoted() {
    let k = |s: &str| format_filter_key(&s.chars().collect::<Vec<_>>()).into_iter().collect::<String>();
    assert_eq!(k("data->>'name'"), "data->>'name'");
    assert_eq!(k("data->\"age\""), "data->'age'");
    assert_eq!(k("plain"), "plain");
    assert_eq!(f("meta->>kind", "eq.a"), "meta->>'kind' = 'a'");
}

#[test]
fn sql_values_and_integer_parsing() {
    assert_eq!(format_sql_val("42"), "42");
    assert_eq!(format_sql_val("+7"), "7");
    assert_eq!(format_sql_val("-0"), "0");
    assert_eq!(format_sql_val("FaLsE"), "FALSE");
    assert_eq!(format_sql_val("9223372036854775808"), "'9223372036854775808'");
    assert_eq!(format_sql_val("-9223372036854775808"), "-9223372036854775808");
    let p = |s: &str| parse_i64(&s.chars().collect::<Vec<_>>());
    assert_eq!(p("-"), None);
    assert_eq!(p("12a"), None);
    assert_eq!(p("0042"), Some(42));
    assert_eq!(p("99999999999999999999999"), None);
}
