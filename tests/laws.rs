use r_jq::{jq_from_value, Value};

fn conv(v: &serde_json::Value) -> Value {
    match v {
        serde_json::Value::Null => Value::Null,
        serde_json::Value::Bool(b) => Value::Bool(*b),
        serde_json::Value::Number(n) => Value::Number(n.clone()),
        serde_json::Value::String(s) => Value::String(s.clone()),
        serde_json::Value::Array(a) => Value::Array(a.iter().map(conv).collect()),
        serde_json::Value::Object(o) => {
            Value::Object(o.iter().map(|(k, v)| (k.clone(), conv(v))).collect())
        }
    }
}

fn j(text: &str) -> Value {
    conv(&serde_json::from_str(text).expect("Failed to parse json"))
}

#[test]
fn identity_law_on_several_documents() {
    for doc in ["null", "true", "1.5", r#""s""#, "[1,[2]]", r#"{"a":{"b":[]}}"#] {
        let v = j(doc);
        assert_eq!(jq_from_value(&v, ".").unwrap(), vec![j(doc)]);
        assert_eq!(jq_from_value(&v, "").unwrap(), vec![j(doc)]);
    }
}

#[test]
fn composition_law_example() {
    let doc = j(r#"{"a":{"b":{"c":7}}}"#);
    let piped = jq_from_value(&doc, ".a | .b | .c").unwrap();
    let direct = jq_from_value(&doc, ".a.b.c").unwrap();
    assert_eq!(piped, direct);
}

#[test]
fn comma_law_example() {
    let doc = j(r#"{"a":1,"b":[2,3]}"#);
    let mut expected = jq_from_value(&doc, ".a").unwrap();
    expected.extend(jq_from_value(&doc, ".b[]").unwrap());
    assert_eq!(jq_from_value(&doc, ".a, .b[]").unwrap(), expected);
}

#[test]
fn same_reading_same_result_example() {
    let doc = j(r#"{"a":[1,{"b":2}]}"#);
    let compact = jq_from_value(&doc, ".a[1].b").unwrap();
    let spaced = jq_from_value(&doc, " . a [ 1 ] . b ").unwrap();
    assert_eq!(compact, spaced);
    assert_eq!(compact, vec![j("2")]);
}
