use r_jq::{
    parse, parse_block, parse_filter, parse_function, parse_ident, parse_identifier, parse_index,
    parse_key, parse_number, parse_operator, parse_range, parse_string, Action, Block, Function,
    HasType, IndexType, Operator, RangeType, Token,
};

fn ident(s: &str) -> Token {
    Token::Ident(s.to_string(), false)
}

#[test]
fn test_expresion() {
    let result = parse(r#"(.a + 2)"#);
    assert!(result.is_ok());
}

#[test]
fn test_recurse() {
    let result = parse(r#".[] | .."#).expect("Failed");
    let query = vec![
        Block {
            actions: Some(vec![Action::Filter(vec![Token::Identity, Token::Range(RangeType::new())])]),
            collect: false,
        },
        Block { actions: Some(vec![Action::Function(Function::Recurse)]), collect: false },
    ];
    assert_eq!(result, query);
}

#[test]
fn test_identity_to_array() {
    let query = parse_block(".[]");
    assert_eq!(
        query,
        Ok(Block {
            actions: Some(vec![Action::Filter(vec![Token::Identity, Token::Range(RangeType::new())])]),
            collect: false,
        })
    )
}

#[test]
fn test_blocks() {
    assert_eq!(
        parse(r#" . , .b | ., .b"#),
        Ok(vec![
            Block {
                actions: Some(vec![
                    Action::Filter(vec![Token::Identity]),
                    Action::Filter(vec![ident("b")]),
                ]),
                collect: false,
            },
            Block {
                actions: Some(vec![
                    Action::Filter(vec![Token::Identity]),
                    Action::Filter(vec![ident("b")]),
                ]),
                collect: false
            },
        ])
    );
}

#[test]
fn test_block_filter_and_function() {
    assert_eq!(
        parse_block("., length "),
        Ok(Block {
            actions: Some(vec![Action::Filter(vec![Token::Identity]), Action::Function(Function::Length)]),
            collect: false
        })
    );
}

#[test]
fn test_block_1_function() {
    assert_eq!(
        parse_block(" length "),
        Ok(Block { actions: Some(vec![Action::Function(Function::Length)]), collect: false })
    );
}

#[test]
fn test_block_2_filters() {
    assert_eq!(
        parse_block(". , .b"),
        Ok(Block {
            actions: Some(vec![Action::Filter(vec![Token::Identity]), Action::Filter(vec![ident("b")])]),
            collect: false
        })
    );
}

#[test]
fn test_block_collect() {
    let result = parse("[.[]]").expect("fail");
    let collect = vec![Block {
        actions: Some(vec![Action::Filter(vec![Token::Identity, Token::Range(RangeType::new())])]),
        collect: true,
    }];
    assert_eq!(result, collect);
}

#[test]
fn test_block_1_filter() {
    assert_eq!(
        parse_block(".b"),
        Ok(Block { actions: Some(vec![Action::Filter(vec![ident("b")])]), collect: false })
    );
}

#[test]
fn test_function_has() {
    assert_eq!(
        parse_function(r#" has("some_path")"#),
        Ok(Action::Function(Function::Has(HasType::from("some_path"))))
    );
    assert_eq!(
        parse_function(r#" has(2)"#),
        Ok(Action::Function(Function::Has(HasType::from(2))))
    );
}

#[test]
fn test_function_length() {
    assert_eq!(parse_function(" length "), Ok(Action::Function(Function::Length)));
}

#[test]
fn keys_functions() {
    assert_eq!(parse_function("keys"), Ok(Action::Function(Function::Keys(true))));
    assert_eq!(parse_function("keys_unsorted"), Ok(Action::Function(Function::Keys(false))));
    assert_eq!(parse_function("recurse"), Ok(Action::Function(Function::Recurse)));
}

#[test]
fn test_filter() {
    assert_eq!(parse_filter("."), Ok(Action::Filter(vec![Token::Identity])));
    assert_eq!(parse_filter(".a"), Ok(Action::Filter(vec![ident("a")])));
    assert_eq!(
        parse_filter(".[]"),
        Ok(Action::Filter(vec![Token::Identity, Token::Range(RangeType::new())]))
    );
    assert_eq!(parse_filter(".a.b"), Ok(Action::Filter(vec![ident("a"), ident("b")])));
    assert_eq!(parse_filter(r#"."a".b"#), Ok(Action::Filter(vec![ident("a"), ident("b")])));
    assert_eq!(
        parse_filter(r#".["a"].b"#),
        Ok(Action::Filter(vec![
            Token::Identity,
            Token::Index(IndexType::from(("a", false))),
            ident("b")
        ]))
    );
}

#[test]
fn test_key() {
    assert_eq!(parse_key("."), Ok(Token::Identity));
    assert_eq!(parse_key(".a"), Ok(ident("a")));
    assert_eq!(parse_key(r#"."a""#), Ok(ident("a")));
    assert_eq!(parse_key(r#"["a"]"#), Ok(Token::Index(IndexType::from(("a", false)))));
    assert_eq!(parse_key(r#"[2]"#), Ok(Token::Index(IndexType::from((2, false)))));
    assert_eq!(parse_key("[]"), Ok(Token::Range(RangeType::new())));
    assert_eq!(parse_key(r#"[1:2]"#), Ok(Token::Range(RangeType::from_both(1, 2))));
}

#[test]
fn test_empty_index() {
    assert!(parse_index("[]").is_err());
}

#[test]
fn test_identifier_index() {
    assert_eq!(parse_index(r#"["a"]"#), Ok(Token::Index(IndexType::from(("a", false)))));
    assert_eq!(parse_index(r#"[ "a" ]"#), Ok(Token::Index(IndexType::from(("a", false)))));
}

#[test]
fn test_index_index() {
    assert_eq!(parse_index("[2]"), Ok(Token::Index(IndexType::from((2, false)))));
    assert_eq!(parse_index("[ 2]"), Ok(Token::Index(IndexType::from((2, false)))));
    assert_eq!(parse_index("[2 ]"), Ok(Token::Index(IndexType::from((2, false)))));
}

#[test]
fn test_negative_index() {
    assert_eq!(parse_index("[-2]"), Ok(Token::Index(IndexType::from((-2, false)))));
}

#[test]
fn index_lists_and_silence() {
    assert_eq!(parse_index("[1,-1]?"), Ok(Token::Index(IndexType::from((vec![1, -1], true)))));
}

#[test]
fn test_empty_range() {
    assert!(parse_range("[:]").is_err());
}

#[test]
fn test_range_start_only() {
    assert_eq!(parse_range("[1:]"), Ok(Token::Range(RangeType::from_start(1))));
    assert_eq!(parse_range("[1 :]"), Ok(Token::Range(RangeType::from_start(1))));
    assert_eq!(parse_range("[-1:]"), Ok(Token::Range(RangeType::from_start(-1))));
}

#[test]
fn test_range_end_only() {
    assert_eq!(parse_range("[:1]"), Ok(Token::Range(RangeType::from_end(1))));
    assert_eq!(parse_range("[: 1]"), Ok(Token::Range(RangeType::from_end(1))));
}

#[test]
fn test_range_start_end() {
    assert_eq!(parse_range("[1:2]"), Ok(Token::Range(RangeType::from_both(1, 2))));
    assert_eq!(parse_range("[1 : 2]"), Ok(Token::Range(RangeType::from_both(1, 2))));
    assert_eq!(parse_range("[ 1 : 2 ]"), Ok(Token::Range(RangeType::from_both(1, 2))));
    assert_eq!(parse_range("[ 1 : 2 ]"), Ok(Token::Range(RangeType::from_both(1, 2))));
}

#[test]
fn test_identifier() {
    assert_eq!(parse_identifier(".Ab_1c"), Ok(ident("Ab_1c")));
    assert_eq!(parse_identifier(r#"."Ab 1c""#), Ok(ident("Ab 1c")));
}

#[test]
fn silent_identifier() {
    assert_eq!(parse_identifier(".a?"), Ok(Token::Ident("a".to_string(), true)));
}

#[test]
fn test_ident() {
    assert_eq!(parse_ident("Ab_1c"), Ok(ident("Ab_1c")));
    assert!(parse_ident("1Ab_1c").is_err());
}

#[test]
fn test_string() {
    assert_eq!(parse_string(r#""abc""#), Ok("abc".to_string()));
    assert_eq!(parse_string(r#""a 1_bc""#), Ok("a 1_bc".to_string()));
    assert_eq!(parse_string(r#"" a 1_bc ""#), Ok(" a 1_bc ".to_string()));
    assert!(parse_string(r#""""#).is_err());
}

#[test]
fn test_operators() {
    assert_eq!(parse_operator("+"), Ok(Operator::Plus));
    assert_eq!(parse_operator("=="), Ok(Operator::Equal));
    assert_eq!(parse_operator("!="), Ok(Operator::NotEqual));
    assert_eq!(parse_operator(">="), Ok(Operator::Gte));
    assert_eq!(parse_operator("<="), Ok(Operator::Lte));
}

#[test]
fn test_numbers() {
    let value = |s: &str| parse_number(s).map(|n| n.as_f64().unwrap());
    assert_eq!(value("0"), Ok(0.0));
    assert_eq!(value("123"), Ok(123.0));
    assert_eq!(value("+123"), Ok(123.0));
    assert_eq!(value("-123"), Ok(-123.0));
    assert_eq!(value("01"), Ok(01.0));
    assert_eq!(value("01.01"), Ok(1.01));
    assert_eq!(value("-01.01"), Ok(-1.01));
    assert!(parse_number("+").is_err());
    assert!(parse_number("-").is_err());
    assert!(parse_number("123+").is_err());
    assert!(parse_number("123-").is_err());
}

#[test]
fn empty_and_bad_queries() {
    assert_eq!(parse(""), Ok(vec![]));
    assert!(parse(".a +").is_err());
    assert!(parse("[.a").is_err());
}
