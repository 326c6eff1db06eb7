use crate::operator::Operator;
use crate::token::Token;
use vstd::prelude::*;

verus! {

/// An arithmetic or comparison expression.
#[derive(Debug, PartialEq)]
pub enum ExpressionType {
    /// A number literal.
    Number(serde_json::Number),
    /// A string literal.
    String(String),
    /// A path step, evaluated against the input.
    Ident(Token),
    /// A binary operation.
    Op(Operator, Box<ExpressionType>, Box<ExpressionType>),
}

} // verus!
