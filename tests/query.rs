use r_jq::{
    jq_from_value, parse, query, query_array_index, query_block, query_filter, query_object_ident,
    query_object_index, Action, Block, IndexType, JQError, RangeType, Token, Value,
};

fn conv(v: &serde_json::Value) -> Value {
    match v {
        serde_json::Value::Null => Value::Null,
        serde_json::Value::Bool(b) => Value::Bool(*b),
        serde_json::Value::Number(n) => Value::Number(n.clone()),
        serde_json::Value::String(s) => Value::String(s.clone()),
        serde_json::Value::Array(a) => Value::Array(a.iter().map(conv).collect()),
        serde_json::Value::Object(o) => {
            Value::Object(o.iter().map(|(k, v)| (k.clone(), conv(v))).collect())
        }
    }
}

fn j(text: &str) -> Value {
    conv(&serde_json::from_str(text).expect("Failed to parse json"))
}

fn num(n: i64) -> Value {
    Value::Number(serde_json::Number::from(n))
}

const BASIC: &str = r#"{
    "object_1": {"elem_1": "Object 1 Element 1", "elem_2": "Object 1 Element 2"},
    "object_2": {"elem_1": "Object 2 Element 1"},
    "array_1": ["a", "b", "c"],
    "number_1": 42,
    "bool_1": true,
    "null_1": null
}"#;

fn entries(v: &Value) -> &Vec<(String, Value)> {
    match v {
        Value::Object(o) => o,
        _ => panic!("not an object"),
    }
}

fn elements(v: &Value) -> &Vec<Value> {
    match v {
        Value::Array(a) => a,
        _ => panic!("not an array"),
    }
}

fn run(doc: &str, q: &str) -> Result<Vec<Value>, JQError> {
    jq_from_value(&j(doc), q)
}

#[test]
fn test_identity() {
    let input = j(BASIC);
    let result = jq_from_value(&input, ".").expect("Failed JQ");
    assert_eq!(&result, &[input]);
}

#[test]
fn lib_test_empty_query() {
    let input = j(BASIC);
    let result = jq_from_value(&input, "").expect("Failed JQ");
    assert_eq!(&result, &[input]);
}

#[test]
fn test_array_filter() {
    let input = j(r#"[[1,2], "string", {"a":2}, null]"#);
    let blocks = parse(r#".[] | length"#).expect("failed to parse query");
    let result = query(&[input], blocks).expect("failed");
    assert_eq!(result, [num(2), num(6), num(1), num(0)]);
}

#[test]
fn query_test_empty_query() {
    let input = j(BASIC);
    let filter = vec![];
    let action = Action::Filter(filter);
    let block = Block { actions: Some(vec![action]), collect: false };
    let blocks = vec![block];
    let result = query(&[input.deep_clone()], blocks).expect("Failed query");
    assert_eq!(&result, &[input]);
}

#[test]
fn test_query() {
    let input = j(BASIC);
    let filter = vec![
        Token::Ident("object_1".to_string(), false),
        Token::Ident("elem_1".to_string(), false),
    ];
    let block = Block { actions: Some(vec![Action::Filter(filter)]), collect: false };
    let result = query(&[input], vec![block]).expect("Failed query");
    assert_eq!(&result, &[j(r#""Object 1 Element 1""#)]);
}

#[test]
fn test_query_2_blocks() {
    let input = j(BASIC);
    let blocks = vec![
        Block {
            actions: Some(vec![Action::Filter(vec![Token::Ident("object_1".to_string(), false)])]),
            collect: false,
        },
        Block {
            actions: Some(vec![Action::Filter(vec![Token::Ident("elem_1".to_string(), false)])]),
            collect: false,
        },
    ];
    let result = query(&[input], blocks).expect("Failed query");
    assert_eq!(&result, &[j(r#""Object 1 Element 1""#)]);
}

#[test]
fn test_collect_block() {
    let json = j("[1, 2, 3]");
    let filter = vec![Token::Identity, Token::Range(RangeType::new())];
    let block = Block { actions: Some(vec![Action::Filter(filter)]), collect: true };
    let result = query_block(&vec![json], &block).expect("Failed query");
    assert_eq!(result, vec![j("[1, 2, 3]")]);
}

#[test]
fn test_bock() {
    let input = j(BASIC);
    let filter = vec![
        Token::Ident("object_1".to_string(), false),
        Token::Ident("elem_1".to_string(), false),
    ];
    let block = Block { actions: Some(vec![Action::Filter(filter)]), collect: false };
    let result = query_block(&vec![input], &block).expect("Failed query");
    assert_eq!(&result, &[j(r#""Object 1 Element 1""#)]);
}

#[test]
fn test_filter_identity() {
    let input = j(BASIC);
    let filter = vec![Token::Identity];
    let result = query_filter(&[input.deep_clone()], &filter).expect("Failed query");
    assert_eq!(&result, &vec![input]);
}

#[test]
fn test_filter_object_with_identity() {
    let input = j(BASIC);
    let filter = vec![
        Token::Identity,
        Token::Ident("object_1".to_string(), false),
        Token::Ident("elem_1".to_string(), false),
    ];
    let result = query_filter(&[input], &filter).expect("Failed query");
    assert_eq!(&result, &[j(r#""Object 1 Element 1""#)]);
}

#[test]
fn test_filter_object() {
    let input = j(BASIC);
    let filter = vec![
        Token::Ident("object_1".to_string(), false),
        Token::Ident("elem_1".to_string(), false),
    ];
    let result = query_filter(&[input], &filter).expect("Failed query");
    assert_eq!(&result, &[j(r#""Object 1 Element 1""#)]);
}

#[test]
fn test_filter_array_with_identity() {
    let input = j(r#"[{"name":"JSON", "good":true}, {"name":"XML", "good":false}]"#);
    let filter = vec![Token::Identity, Token::Index(IndexType::from((0, false)))];
    let result = query_filter(&[input], &filter).expect("Failed query");
    assert_eq!(&result, &[j(r#"{"name": "JSON", "good": true}"#)]);
}

#[test]
fn test_filter_array() {
    let input = j(r#"[{"name":"JSON", "good":true}, {"name":"XML", "good":false}]"#);
    let filter = vec![Token::Index(IndexType::from((0, false)))];
    let result = query_filter(&[input], &filter).expect("Failed query");
    assert_eq!(&result, &[j(r#"{"name": "JSON", "good": true}"#)]);
}

#[test]
fn test_query_object_by_ident() {
    let value = j(r#"{"elem1":"element 1"}"#);
    let result = query_object_ident(entries(&value), &"elem1".to_string()).expect("Failed to query");
    assert_eq!(result, vec![j(r#""element 1""#)]);
}

#[test]
fn test_query_nested_object_by_ident() {
    let value = j(r#"{"object_1":{"elem1":"element 1"}}"#);
    let result = query_object_ident(entries(&value), &"object_1".to_string()).expect("query failed");
    assert_eq!(result, vec![j(r#"{"elem1":"element 1"}"#)]);
}

#[test]
fn test_object_by_index() {
    let value = j(r#"{"object_1":{"elem1":"element 1"}}"#);
    let index = IndexType::from(("object_1", false));
    let result = query_object_index(entries(&value), &index).expect("query failed");
    assert_eq!(result, vec![j(r#"{"elem1":"element 1"}"#)]);
}

#[test]
fn test_by_by_index_oob_silent() {
    let value = j(r#"["0", "1", "2"]"#);
    let index = IndexType::from((3, true));
    let result = query_array_index(elements(&value), &index).expect("Failed");
    assert_eq!(&result, &[Value::Null]);
}

#[test]
fn test_object_by_empty_index() {
    let object = j(r#"{"a":"elem a", "b":"elem b"}"#);
    let result = query_filter(&[object], &vec![Token::Range(RangeType::new())]).expect("query failed");
    assert_eq!(result, vec![j(r#""elem a""#), j(r#""elem b""#)]);
}

#[test]
fn test_array_by_index() {
    let value = j(r#"["0", "1", "2"]"#);
    let index = IndexType::from((0, false));
    let result = query_array_index(elements(&value), &index).expect("query failed");
    assert_eq!(result, vec![j(r#""0""#)]);
}

#[test]
fn test_array_negative_index() {
    let value = j(r#"["0", "1", "2"]"#);
    let index = IndexType::from((-2, false));
    let result = query_array_index(elements(&value), &index).expect("query failed");
    assert_eq!(result, vec![j(r#""1""#)]);
}

#[test]
fn test_array_by_index_oob() {
    let value = j(r#"["0", "1", "2"]"#);
    let index = IndexType::from((3, false));
    let result = query_array_index(elements(&value), &index).expect("Failed");
    assert_eq!(&result, &[Value::Null]);
}

#[test]
fn test_array_by_index_oob_silent() {
    let value = j(r#"["0", "1", "2"]"#);
    let index = IndexType::from((3, true));
    let result = query_array_index(elements(&value), &index).expect("Failed");
    assert_eq!(&result, &[Value::Null]);
}

#[test]
fn test_array_by_empty_range() {
    let array = j(r#"["0", "1", "2"]"#);
    let result = query_filter(&[array], &vec![Token::Range(RangeType::new())]).expect("query failed");
    assert_eq!(result, vec![j(r#""0""#), j(r#""1""#), j(r#""2""#)]);
}

#[test]
fn negative_index_query() {
    assert_eq!(run(r#"["0","1","2"]"#, ".[-2]").unwrap(), vec![j(r#""1""#)]);
}

#[test]
fn slice_queries() {
    let doc = r#"["a","b","c","d","e"]"#;
    assert_eq!(run(doc, ".[2:4]").unwrap(), vec![j(r#""c""#), j(r#""d""#)]);
    assert_eq!(run(doc, ".[:3]").unwrap(), vec![j(r#""a""#), j(r#""b""#), j(r#""c""#)]);
    assert_eq!(run(doc, ".[-2:]").unwrap(), vec![j(r#""d""#), j(r#""e""#)]);
}

#[test]
fn out_of_range_index_is_null() {
    assert_eq!(run(r#"["0","1","2"]"#, ".[3]").unwrap(), vec![Value::Null]);
    assert_eq!(run(r#"["0","1","2"]"#, ".[3]?").unwrap(), vec![Value::Null]);
}

#[test]
fn object_iteration_in_key_order() {
    assert_eq!(run(r#"{"a":1,"b":1}"#, ".[]").unwrap(), vec![num(1), num(1)]);
}

#[test]
fn keys_queries() {
    let doc = r#"{"abc":1,"abcd":2,"Foo":3}"#;
    assert_eq!(run(doc, "keys").unwrap(), vec![j(r#"["Foo","abc","abcd"]"#)]);
    assert_eq!(run(doc, "keys_unsorted").unwrap(), vec![j(r#"["abc","abcd","Foo"]"#)]);
}

#[test]
fn has_queries() {
    assert_eq!(run(r#"{"elem1":"x"}"#, r#"has("elem1")"#).unwrap(), vec![Value::Bool(true)]);
    assert_eq!(run(r#"{"elem_1":"x"}"#, r#"has("elem1")"#).unwrap(), vec![Value::Bool(false)]);
}

#[test]
fn recurse_query() {
    assert_eq!(
        run(r#"[[{"a":1}]]"#, "recurse").unwrap(),
        vec![j(r#"[[{"a":1}]]"#), j(r#"[{"a":1}]"#), j(r#"{"a":1}"#), num(1)]
    );
    assert_eq!(run(r#"[[{"a":1}]]"#, "..").unwrap().len(), 4);
}

#[test]
fn pipeline_query() {
    assert_eq!(
        run(r#"{"object_1":{"elem_1":"X"}}"#, ".object_1 | .elem_1").unwrap(),
        vec![j(r#""X""#)]
    );
}

#[test]
fn comma_query() {
    assert_eq!(run(r#"{"a":1,"b":2}"#, ".a, .b").unwrap(), vec![num(1), num(2)]);
}

#[test]
fn collect_query() {
    assert_eq!(run("[1,2,3]", "[.[] ]").unwrap(), vec![j("[1,2,3]")]);
}

#[test]
fn type_mismatch_query() {
    assert!(matches!(run("null", r#""abc" * 2"#), Err(JQError::EquationError(_, _))));
}

#[test]
fn path_errors() {
    assert!(matches!(run("[1]", ".a"), Err(JQError::IdentMismatch(_))));
    assert_eq!(run("[1]", ".a?").unwrap(), vec![]);
    assert_eq!(run(r#"{"a":1}"#, ".b").unwrap(), vec![Value::Null]);
    assert!(matches!(run(r#"{"a":1}"#, r#".["b"]"#), Err(JQError::ObjectQuery(_))));
    assert_eq!(run(r#"{"a":1}"#, r#".["b"]?"#).unwrap(), vec![]);
    assert_eq!(run(r#"{"a":1}"#, ".[1:2]"), Err(JQError::UnsupportedRange));
    assert_eq!(run("true", "length"), Err(JQError::FnLength));
    assert_eq!(run("1", "keys"), Err(JQError::UnsupportedValue));
    assert_eq!(run("1", ".a |"), Err(JQError::ParseError));
}

#[test]
fn string_steps() {
    assert_eq!(run(r#""hello""#, ".[1]").unwrap(), vec![j(r#""e""#)]);
    assert_eq!(run(r#""hello""#, ".[-1]").unwrap(), vec![j(r#""o""#)]);
    assert_eq!(run(r#""hello""#, ".[1:3]").unwrap(), vec![j(r#""el""#)]);
    assert_eq!(run(r#""hello""#, ".[9]"), Err(JQError::ArrayQuery(9)));
    assert_eq!(run(r#""hello""#, ".[9]?").unwrap(), vec![]);
}

#[test]
fn multiple_positions() {
    assert_eq!(run("[10,20,30]", ".[0,2]").unwrap(), vec![num(10), num(30)]);
}

#[test]
fn index_shape_mismatch() {
    assert_eq!(run("[1]", r#".["a"]"#), Err(JQError::BadIndexType));
    assert_eq!(run(r#"{"a":1}"#, ".[0]"), Err(JQError::BadIndexType));
    assert_eq!(run("7", ".[0]").unwrap(), vec![num(7)]);
}
