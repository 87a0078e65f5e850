use chocobase::auth::session::ExecutionContext;
use chocobase::functions::{in_process_answer, PayloadField, WorkerValue};

fn field(key: &str, json: &str, int_value: Option<i64>) -> PayloadField {
    PayloadField { key: key.into(), json: json.into(), int_value }
}

fn get<'a>(answer: &'a [(String, WorkerValue)], key: &str) -> Option<&'a WorkerValue> {
    answer.iter().find(|(k, _)| k == key).map(|(_, v)| v)
}

#[test]
fn in_process_answer_echoes_doubles_and_copies_members() {
    let ctx = ExecutionContext { user_id: Some(7), role: Some("authenticated".into()), is_admin: false };
    let fields = vec![field("calc", "21", Some(21)), field("echo", "\"hi\"", None), field("input", "1", Some(1)), field("x", "true", None)];
    let answer = in_process_answer("hello", "default", "{\"calc\":21,\"echo\":\"hi\",\"input\":1,\"x\":true}", &fields, &ctx);
    let keys: Vec<&str> = answer.iter().map(|(k, _)| k.as_str()).collect();
    assert_eq!(keys, vec!["function", "runtime", "status", "input", "caller", "echo", "result", "out_calc", "out_x"]);
    assert_eq!(get(&answer, "function"), Some(&WorkerValue::Str("hello".into())));
    assert_eq!(get(&answer, "status"), Some(&WorkerValue::Str("executed".into())));
    assert_eq!(get(&answer, "echo"), Some(&WorkerValue::Raw("\"hi\"".into())));
    assert_eq!(get(&answer, "result"), Some(&WorkerValue::Int(42)));
    assert_eq!(get(&answer, "caller"), Some(&WorkerValue::Caller(Some(7), Some("authenticated".into()))));
    assert_eq!(get(&answer, "out_x"), Some(&WorkerValue::Raw("true".into())));
}

#[test]
fn in_process_answer_for_a_non_object_payload() {
    let answer = in_process_answer("f", "wasm", "[1,2]", &vec![], &ExecutionContext::anonymous());
    assert_eq!(answer.len(), 5);
    assert_eq!(get(&answer, "input"), Some(&WorkerValue::Raw("[1,2]".into())));
    assert_eq!(get(&answer, "caller"), Some(&WorkerValue::Caller(None, None)));
}

#[test]
fn a_member_named_like_an_earlier_copy_is_not_copied_again() {
    let fields = vec![field("a", "1", Some(1)), field("out_a", "2", Some(2))];
    let answer = in_process_answer("f", "default", "{}", &fields, &ExecutionContext::anonymous());
    let keys: Vec<&str> = answer.iter().map(|(k, _)| k.as_str()).collect();
    assert_eq!(keys, vec!["function", "runtime", "status", "input", "caller", "out_a"]);
}
