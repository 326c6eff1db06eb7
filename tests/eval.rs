use r_jq::{
    add_value, divide_value, equality_value, fn_evaluate, multiply_value, parse, subtract_value,
    Action, ExpressionType, JQError, Kind, Operator, Value,
};

fn conv(v: &serde_json::Value) -> Value {
    match v {
        serde_json::Value::Null => Value::Null,
        serde_json::Value::Bool(b) => Value::Bool(*b),
        serde_json::Value::Number(n) => Value::Number(n.clone()),
        serde_json::Value::String(s) => Value::String(s.clone()),
        serde_json::Value::Array(a) => Value::Array(a.iter().map(conv).collect()),
        serde_json::Value::Object(o) => {
            Value::Object(o.iter().map(|(k, v)| (k.clone(), conv(v))).collect())
        }
    }
}

fn j(text: &str) -> Value {
    conv(&serde_json::from_str(text).expect("Failed to parse json"))
}

fn float(f: f64) -> Value {
    Value::Number(serde_json::Number::from_f64(f).unwrap())
}

fn parse_expr(qs: &str) -> ExpressionType {
    let mut query = parse(qs).expect("Parse failed");
    let block = query.remove(0);
    let mut actions = block.actions.expect("actions");
    match actions.remove(0) {
        Action::Expression(expr) => expr,
        other => panic!("not an expression: {:?}", other),
    }
}

#[test]
fn test_add() {
    let expr = parse_expr(r#"(.a == 2)"#);
    let inputs = vec![j(r#"{"a": 2}"#)];
    let results = fn_evaluate(&inputs, &expr).expect("evaluates");
    assert_eq!(results, vec![Value::Bool(true)]);
}

#[test]
fn expression_arithmetic() {
    let expr = parse_expr("(.a + 2) * 3");
    let results = fn_evaluate(&vec![j(r#"{"a": 4}"#)], &expr).expect("evaluates");
    assert_eq!(results, vec![float(18.0)]);
}

#[test]
fn expression_type_mismatch() {
    let expr = parse_expr(r#""abc" * 2"#);
    let result = fn_evaluate(&vec![j("null")], &expr);
    assert_eq!(result, Err(JQError::EquationError(Kind::String, Kind::Number)));
}

#[test]
fn expression_path_must_give_one_value() {
    let expr = parse_expr("(.a? + 1)");
    let result = fn_evaluate(&vec![j("[1, 2]")], &expr);
    assert_eq!(result, Err(JQError::NotSingleValue));
}

#[test]
fn add_numbers_strings_objects() {
    assert_eq!(add_value(&j("1"), &j("2")).unwrap(), float(3.0));
    assert_eq!(add_value(&j(r#""ab""#), &j(r#""cd""#)).unwrap(), j(r#""abcd""#));
    assert_eq!(
        add_value(&j(r#"{"a":1,"b":2}"#), &j(r#"{"b":3,"c":4}"#)).unwrap(),
        j(r#"{"a":1,"b":3,"c":4}"#)
    );
    assert_eq!(add_value(&j("null"), &j("[1]")).unwrap(), j("[1]"));
    assert_eq!(
        add_value(&j("true"), &j("null")),
        Err(JQError::EquationError(Kind::Bool, Kind::Null))
    );
    assert_eq!(
        add_value(&j("[1]"), &j("1")),
        Err(JQError::EquationError(Kind::Array, Kind::Number))
    );
}

#[test]
fn subtract_values() {
    assert_eq!(subtract_value(&j("5"), &j("2")).unwrap(), float(3.0));
    assert_eq!(subtract_value(&j("[1,2,3,2]"), &j("[2]")).unwrap(), j("[1,3]"));
    assert_eq!(
        subtract_value(&j("null"), &j("4")),
        Err(JQError::EquationError(Kind::Null, Kind::Number))
    );
    assert_eq!(
        subtract_value(&j(r#""a""#), &j(r#""a""#)),
        Err(JQError::EquationError(Kind::String, Kind::String))
    );
}

#[test]
fn multiply_and_divide() {
    assert_eq!(multiply_value(&j("3"), &j("4")).unwrap(), float(12.0));
    assert_eq!(divide_value(&j("1"), &j("4")).unwrap(), float(0.25));
    assert_eq!(divide_value(&j("1"), &j("0")).unwrap(), Value::Null);
    assert_eq!(
        multiply_value(&j("[1]"), &j("2")),
        Err(JQError::EquationError(Kind::Array, Kind::Number))
    );
    assert_eq!(
        divide_value(&j("{}"), &j("2")),
        Err(JQError::EquationError(Kind::Object, Kind::Number))
    );
}

#[test]
fn comparisons() {
    let t = Value::Bool(true);
    let f = Value::Bool(false);
    assert_eq!(equality_value(&Operator::Lt, &j("1"), &j("2")).unwrap(), t);
    assert_eq!(equality_value(&Operator::Gt, &j(r#""b""#), &j(r#""a""#)).unwrap(), t);
    assert_eq!(equality_value(&Operator::Lte, &j("[1,2]"), &j("[5]")).unwrap(), f);
    assert_eq!(equality_value(&Operator::Gte, &j("null"), &j("false")).unwrap(), f);
    assert_eq!(equality_value(&Operator::Lt, &j("true"), &j("0")).unwrap(), t);
    assert_eq!(equality_value(&Operator::Equal, &j(r#"{"a":1,"b":2}"#), &j(r#"{"b":2,"a":1}"#)).unwrap(), t);
    assert_eq!(equality_value(&Operator::NotEqual, &j("[1]"), &j("[1]")).unwrap(), f);
    assert_eq!(equality_value(&Operator::Equal, &j("1"), &j("1.0")).unwrap(), t);
    assert_eq!(equality_value(&Operator::Equal, &j("[1]"), &j("[1.0]")).unwrap(), t);
    assert_eq!(equality_value(&Operator::Equal, &j("1"), &j("1.5")).unwrap(), f);
    assert_eq!(
        equality_value(&Operator::Lt, &j("{}"), &j("{}")),
        Err(JQError::EquationError(Kind::Object, Kind::Object))
    );
}
