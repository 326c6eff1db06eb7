use r_jq::{
    add_value, equate_value, Action, Block, Function, HasType, IndexType, KeyType, Operator, Range,
    RangeType, Token, Value,
};

fn num(n: i64) -> Value {
    Value::Number(serde_json::Number::from(n))
}

fn text(s: &str) -> Value {
    Value::String(s.to_string())
}

#[test]
fn test_from_function() {
    let length = Function::Length;
    let action = Action::from(length);
    assert_eq!(action, Action::Function(Function::Length));
}

#[test]
fn test_from_token() {
    let filter = vec![Token::Identity, Token::Ident(".something".to_string(), false)];
    let action = Action::from(filter);
    assert_eq!(
        action,
        Action::Filter(vec![Token::Identity, Token::Ident(".something".to_string(), false)])
    )
}

#[test]
fn block_from_action() {
    let action = Action::from(Token::Identity);
    let block = Block::from(action);
    assert_eq!(
        block,
        Block {
            actions: Some(vec![Action::Filter(vec![Token::Identity])]),
            collect: false,
        }
    );
}

#[test]
fn block_from_actions() {
    let action1 = Action::from(Token::Identity);
    let action2 = Action::from(Token::Ident("elem1".to_string(), false));
    let block = Block::from(vec![action1, action2]);
    assert_eq!(
        block,
        Block {
            actions: Some(vec![
                Action::Filter(vec![Token::Identity]),
                Action::Filter(vec![Token::Ident("elem1".to_string(), false)])
            ]),
            collect: false
        }
    );
}

#[test]
fn test_add_array() {
    let left = Value::Array(vec![num(1), num(2), num(3)]);
    let right = Value::Array(vec![num(4), num(5), num(6)]);
    let result = add_value(&left, &right).expect("failed");
    assert_eq!(
        result,
        Value::Array(vec![num(1), num(2), num(3), num(4), num(5), num(6)])
    );
}

#[test]
fn test_strings_equal() {
    let left = text("abc");
    let right = text("abc");
    let result = equate_value(&left, &right, false).expect("failed");
    assert_eq!(&result, &Value::Bool(true));
}

#[test]
fn test_strings_not_equal() {
    let left = text("abc");
    let right = text("def");
    let result = equate_value(&left, &right, true).expect("failed");
    assert_eq!(&result, &Value::Bool(true));
}

#[test]
fn test_different_types_equal() {
    let left = text("abc");
    let right = Value::Number(serde_json::Number::from_f64(4.0).unwrap());
    let result = equate_value(&left, &right, false).expect("failed");
    assert_eq!(&result, &Value::Bool(false));
}

#[test]
fn test_different_types_not_equal() {
    let left = text("abc");
    let right = Value::Number(serde_json::Number::from_f64(4.0).unwrap());
    let result = equate_value(&left, &right, true).expect("failed");
    assert_eq!(&result, &Value::Bool(true));
}

#[test]
fn test_from_str() {
    let plus = Operator::try_from("+").expect("Failed!");
    assert_eq!(plus, Operator::Plus);
}

#[test]
fn test_try_from_ident_has() {
    let has = HasType::from("elem1");
    let result = Token::try_from(&has).expect("Failed");
    assert_eq!(result, Token::Ident("elem1".to_string(), false));
}

#[test]
fn test_try_from_index_has() {
    let has = HasType::from(0);
    let result = Token::try_from(&has).expect("failed");
    assert_eq!(result, Token::Index(IndexType::from((0, false))));
}

#[test]
fn operator_symbols() {
    let cases = [
        ("+", Operator::Plus),
        ("-", Operator::Minus),
        ("*", Operator::Multiply),
        ("/", Operator::Divide),
        ("==", Operator::Equal),
        ("!=", Operator::NotEqual),
        (">", Operator::Gt),
        ("<", Operator::Lt),
        (">=", Operator::Gte),
        ("<=", Operator::Lte),
    ];
    for (symbol, op) in cases {
        assert_eq!(Operator::from_symbol(symbol).expect("symbol"), op);
    }
    assert!(Operator::from_symbol("%").is_err());
    assert!(Operator::from_symbol("").is_err());
}

#[test]
fn token_accessors() {
    let ident = Token::Ident("a".to_string(), true);
    assert!(ident.is_ident());
    assert!(!ident.is_identity());
    let (name, silent) = ident.as_ident().expect("ident");
    assert_eq!(name, "a");
    assert!(silent);
    assert!(ident.as_range().is_err());
    assert!(ident.as_index().is_err());
    let range = Token::Range(RangeType::from_both(1, 2));
    assert!(range.is_range());
    assert_eq!(range.as_range().expect("range"), &RangeType::from_both(1, 2));
    let index = Token::Index(IndexType::from((3, false)));
    assert!(index.is_index());
    assert!(Token::Identity.is_identity());
}

#[test]
fn index_type_parts() {
    let key = IndexType::from(("k", true));
    assert!(key.is_identitfier());
    assert!(!key.is_index());
    assert!(key.is_valid());
    let (k, silent) = key.as_identifier().expect("key");
    assert_eq!(k, "k");
    assert!(silent);
    assert!(key.as_index().is_err());
    let list = IndexType::from((vec![1, -1], false));
    assert!(list.is_index());
    assert_eq!(list.as_index().expect("list").0, &vec![1, -1]);
    assert!(list.as_identifier().is_err());
}

#[test]
fn has_type_parts() {
    let key = HasType::from("k");
    assert!(key.is_ident());
    assert!(!key.is_index());
    assert_eq!(key.as_ident().expect("ident"), "k");
    assert!(key.as_index().is_err());
    let position = HasType::from(2);
    assert!(position.is_index());
    assert_eq!(position.as_index().expect("index"), 2);
    assert!(position.as_ident().is_err());
}

#[test]
fn key_type_parts() {
    let identity = KeyType::new();
    assert!(identity.is_identity());
    assert!(!identity.is_valid());
    let named = KeyType::from_identifier("a".to_string());
    assert!(!named.is_identity());
    assert!(named.is_valid());
    let ranged = KeyType::from_range(Range::from_both(0, 1));
    assert!(ranged.is_valid());
    assert_eq!(KeyType::default(), KeyType::new());
}

#[test]
fn action_accessors() {
    let f = Action::from(Function::Length);
    assert!(f.is_function());
    assert!(!f.is_filter());
    assert_eq!(f.as_function().expect("function"), &Function::Length);
    assert!(f.as_filter().is_err());
    let p = Action::from(Token::Identity);
    assert!(p.is_filter());
    assert_eq!(p.as_filter().expect("filter"), &vec![Token::Identity]);
    assert!(p.as_function().is_err());
}

#[test]
fn range_constructors() {
    assert!(RangeType::new().is_empty());
    assert!(!RangeType::from_start(1).is_empty());
    assert_eq!(Range::new(), Range { start: None, end: None });
    assert_eq!(Range::from_start(2), Range { start: Some(2), end: None });
    assert_eq!(Range::from_end(3), Range { start: None, end: Some(3) });
    assert_eq!(Range::default(), Range::new());
    assert_eq!(RangeType::default(), RangeType::new());
}

#[test]
fn range_as_slice() {
    assert_eq!(RangeType::new().as_slice(5), (0, 5));
    assert_eq!(RangeType::from_both(2, 4).as_slice(5), (2, 4));
    assert_eq!(RangeType::from_end(3).as_slice(5), (0, 3));
    assert_eq!(RangeType::from_start(-2).as_slice(5), (3, 5));
    assert_eq!(RangeType::from_start(9).as_slice(5), (5, 5));
    assert_eq!(RangeType::from_start(-9).as_slice(5), (0, 5));
    assert_eq!(RangeType::from_both(4, 2).as_slice(5), (4, 4));
}

#[test]
fn token_from_function() {
    let has = Token::try_from(Function::Has(HasType::from("k"))).expect("has");
    assert_eq!(has, Token::Ident("k".to_string(), false));
    assert!(matches!(
        Token::try_from(Function::Length),
        Err(r_jq::JQError::GeneralError(_))
    ));
}
