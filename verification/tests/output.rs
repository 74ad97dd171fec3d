use starlists::output::{
    columns, escape_sexp, exit_code, failure_json, failure_sexp, kv_table, sexp_pair, success_json, value_to_sexp,
    AppError, JsonValue,
};

#[test]
fn kv_table_pads_keys_to_the_widest() {
    let out = kv_table(&[("a", "1".to_string()), ("bbb", "2".to_string())]);
    assert_eq!(out, "a    1\nbbb  2\n");
    assert_eq!(kv_table(&[]), "");
}

#[test]
fn columns_pad_each_column() {
    let out = columns(&["A", "BB"], &[vec!["x".to_string(), "yyy".to_string()], vec!["zz".to_string()]]);
    assert_eq!(out, "A   BB \nx   yyy\nzz\n");
    assert_eq!(columns(&["A", "BB"], &[]), "A  BB\n");
}

#[test]
fn columns_measure_bytes_and_pad_characters() {
    let out = columns(&["N"], &[vec!["é".to_string()], vec!["ab".to_string()]]);
    assert_eq!(out, "N \né \nab\n");
}

#[test]
fn sexp_of_values() {
    let v = JsonValue::Object(vec![
        ("a".to_string(), JsonValue::Number("1".to_string())),
        (
            "b".to_string(),
            JsonValue::Array(vec![JsonValue::Str("x\"y\\".to_string()), JsonValue::Null, JsonValue::Bool(true), JsonValue::Bool(false)]),
        ),
    ]);
    assert_eq!(value_to_sexp(&v), "((a . 1) (b . (\"x\\\"y\\\\\" nil t nil)))");
    assert_eq!(value_to_sexp(&JsonValue::Array(vec![])), "()");
    assert_eq!(escape_sexp("a\\b\"c"), "a\\\\b\\\"c");
    assert_eq!(sexp_pair("ok", &JsonValue::Bool(false)), "(ok . nil)");
}

#[test]
fn exit_codes_follow_the_error_code() {
    assert_eq!(exit_code("auth_missing"), 2);
    assert_eq!(exit_code("auth_scope"), 2);
    assert_eq!(exit_code("not_found"), 3);
    assert_eq!(exit_code("conflict"), 4);
    assert_eq!(exit_code("invalid"), 1);
    assert_eq!(exit_code("error"), 1);
}

#[test]
fn failures_as_sexp() {
    assert_eq!(failure_sexp("not_found", "no \"x\"", None), "((ok . nil) (code . \"not_found\") (message . \"no \\\"x\\\"\"))");
    assert_eq!(
        failure_sexp("conflict", "m", Some("h")),
        "((ok . nil) (code . \"conflict\") (message . \"m\") (hint . \"h\"))"
    );
}

#[test]
fn errors_carry_hints() {
    let e = AppError::new("conflict", "busy".to_string()).hint("wait".to_string());
    assert_eq!((e.code, e.message.as_str(), e.hint.as_deref()), ("conflict", "busy", Some("wait")));
}

#[test]
fn failure_body_names_code_message_and_hint() {
    let v = failure_json("conflict", "taken", Some("pass --replace"));
    assert_eq!(
        value_to_sexp(&v),
        "((ok . nil) (error . ((code . \"conflict\") (message . \"taken\") (hint . \"pass --replace\"))))"
    );
    let v = failure_json("error", "boom", None);
    assert_eq!(value_to_sexp(&v), "((ok . nil) (error . ((code . \"error\") (message . \"boom\"))))");
}

#[test]
fn success_body_wraps_the_data() {
    let v = success_json(JsonValue::Array(vec![JsonValue::Bool(true)]));
    assert_eq!(value_to_sexp(&v), "((ok . t) (data . (t)))");
}
