use chocobase::engine::ExecResult;
use chocobase::repl::{format_result, format_value};
use chocobase::types::value::Value;

#[test]
fn formats_scalar_values() {
    assert_eq!(format_value(&Value::Integer(5)), "5");
    assert_eq!(format_value(&Value::Text("hi".into())), "hi");
    assert_eq!(format_value(&Value::Boolean(true)), "true");
    assert_eq!(format_value(&Value::Null), "NULL");
}

#[test]
fn formats_ok_result() {
    assert_eq!(format_result(&ExecResult::Success), "OK");
}

#[test]
fn formats_modified_result() {
    assert_eq!(format_result(&ExecResult::Modified(3)), "3 row(s) modified");
}

#[test]
fn formats_rows_result_with_header_and_count() {
    let result = ExecResult::Rows {
        columns: vec!["id".into(), "name".into()],
        rows: vec![
            vec![Value::Integer(1), Value::Text("a".into())],
            vec![Value::Integer(2), Value::Null],
        ],
    };
    let text = format_result(&result);
    assert!(text.contains("id | name"));
    assert!(text.contains("1 | a"));
    assert!(text.contains("2 | NULL"));
    assert!(text.contains("(2 row(s))"));
}

#[test]
fn formats_negative_integers_and_json() {
    assert_eq!(format_value(&Value::Integer(-42)), "-42");
    assert_eq!(format_value(&Value::Integer(i64::MIN)), "-9223372036854775808");
    assert_eq!(format_value(&Value::Json("{\"a\":1}".into())), "{\"a\":1}");
    assert_eq!(format_value(&Value::Boolean(false)), "false");
}

#[test]
fn formats_empty_rows_result_exactly() {
    let result = ExecResult::Rows {
        columns: vec!["x".into()],
        rows: vec![],
    };
    assert_eq!(format_result(&result), "x\n(0 row(s))");
    let one = ExecResult::Rows {
        columns: vec!["a".into(), "b".into()],
        rows: vec![vec![Value::Integer(1), Value::Boolean(true)]],
    };
    assert_eq!(format_result(&one), "a | b\n1 | true\n(1 row(s))");
}
