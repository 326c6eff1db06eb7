use r_jq::{fn_has, fn_keys, fn_length, fn_recurse, HasType, Value};

fn conv(v: &serde_json::Value) -> Value {
    match v {
        serde_json::Value::Null => Value::Null,
        serde_json::Value::Bool(b) => Value::Bool(*b),
        serde_json::Value::Number(n) => Value::Number(n.clone()),
        serde_json::Value::String(s) => Value::String(s.clone()),
        serde_json::Value::Array(a) => Value::Array(a.iter().map(conv).collect()),
        serde_json::Value::Object(o) => {
            Value::Object(o.iter().map(|(k, v)| (k.clone(), conv(v))).collect())
        }
    }
}

fn j(text: &str) -> Value {
    conv(&serde_json::from_str(text).expect("Failed to parse json"))
}

fn num(n: i64) -> Value {
    Value::Number(serde_json::Number::from(n))
}

#[test]
fn fn_length_multi() {
    let arrays = vec![
        j(r#"["array_1", "array_2"]"#),
        j(r#"{"a":"a", "b":"b", "c":"c"}"#),
        j("null"),
        j("1"),
        j(r#""12345""#),
    ];
    let result = fn_length(&arrays).expect("fail");
    assert_eq!(result, [num(2), num(3), num(0), num(1), num(5)]);
}

#[test]
fn fn_length_array() {
    let arrays = vec![j(r#"["array_1", "array_2"]"#)];
    let result = fn_length(&arrays).expect("fail");
    assert_eq!(result, [num(2)]);
}

#[test]
fn fn_length_object() {
    let arrays = vec![j(r#"{"a":"a", "b":"b", "c":"c"}"#)];
    let result = fn_length(&arrays).expect("fail");
    assert_eq!(result, [num(3)]);
}

#[test]
fn fn_length_null() {
    let arrays = vec![j("null")];
    let result = fn_length(&arrays).expect("fail");
    assert_eq!(result, [num(0)]);
}

#[test]
fn fn_length_bool() {
    let arrays = vec![j("false")];
    let result = fn_length(&arrays);
    assert!(result.is_err());
}

#[test]
fn fn_length_real() {
    let arrays = vec![j("12.5")];
    let result = fn_length(&arrays).expect("fail");
    assert_eq!(result, [Value::Number(serde_json::Number::from_f64(12.5).unwrap())]);
}

#[test]
fn fn_length_integer() {
    let arrays = vec![j("1")];
    let result = fn_length(&arrays).expect("fail");
    assert_eq!(result, [num(1)]);
}

#[test]
fn fn_length_string() {
    let arrays = vec![j(r#""12345""#)];
    let result = fn_length(&arrays).expect("fail");
    assert_eq!(result, [num(5)]);
}

#[test]
fn fn_length_counts_characters() {
    let arrays = vec![j(r#""héllo""#)];
    let result = fn_length(&arrays).expect("fail");
    assert_eq!(result, [num(5)]);
}

#[test]
fn test_object_has() {
    let objects = vec![j(r#"{"elem1":"element 1"}"#), j(r#"{"elem_1":"element 1"}"#)];
    let key = HasType::from("elem1");
    let result = fn_has(&objects, &key).expect("Failed to query");
    assert_eq!(result, vec![Value::Bool(true), Value::Bool(false)]);
}

#[test]
fn test_array_has() {
    let arrays = vec![j(r#"["array_1", "array_2"]"#), j(r#"["array_1"]"#)];
    let key = HasType::from(1);
    let result = fn_has(&arrays, &key).expect("Failed to query");
    assert_eq!(result, vec![Value::Bool(true), Value::Bool(false)]);
}

#[test]
fn has_swallows_errors() {
    let inputs = vec![j("true"), j(r#"{"a":null}"#)];
    let result = fn_has(&inputs, &HasType::from("a")).expect("never fails");
    assert_eq!(result, vec![Value::Bool(false), Value::Bool(false)]);
}

#[test]
fn test_keys() {
    let value = j(r#"{"abc": 1, "abcd": 2, "Foo": 3}"#);
    let result = fn_keys(&vec![value], true).expect("failed");
    assert_eq!(result, &[j(r#"["Foo", "abc", "abcd"]"#)]);
}

#[test]
fn test_keys_unsorted() {
    let value = j(r#"{"abc": 1, "abcd": 2, "Foo": 3}"#);
    let result = fn_keys(&vec![value], false).expect("failed");
    assert_eq!(result, &[j(r#"["abc", "abcd", "Foo"]"#)]);
}

#[test]
fn test_keys_with_array() {
    let value = j("[42, 3, 5]");
    let result = fn_keys(&vec![value], true).expect("failed");
    assert_eq!(result, &[j("[0, 1, 2]")]);
}

#[test]
fn keys_of_a_string_is_an_error() {
    assert!(fn_keys(&vec![j(r#""abc""#)], true).is_err());
}

#[test]
fn test_fn_recurse() {
    let values = vec![j(r#"[[{"a":1}]]"#)];
    let result = fn_recurse(&values).expect("Failed");
    assert_eq!(
        result,
        &[j(r#"[[{"a":1}]]"#), j(r#"[{"a":1}]"#), j(r#"{"a":1}"#), j("1")]
    );
}

#[test]
fn recurse_object_values_in_order() {
    let values = vec![j(r#"{"x":[true],"y":null}"#)];
    let result = fn_recurse(&values).expect("Failed");
    assert_eq!(
        result,
        &[j(r#"{"x":[true],"y":null}"#), j("[true]"), j("true"), j("null")]
    );
}
