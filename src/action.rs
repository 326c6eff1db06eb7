use crate::errors::JQError;
use crate::expression_type::ExpressionType;
use crate::function::Function;
use crate::token::Token;
use vstd::prelude::*;

verus! {

/// A path: a sequence of steps.
pub type Filter = Vec<Token>;

/// One comma-separated stage of a block.
#[derive(Debug, PartialEq)]
pub enum Action {
    Function(Function),
    Filter(Filter),
    Expression(ExpressionType),
}

impl Action {
    /// The function, or `ActionMismatch`.
    pub fn as_function(&self) -> (r: Result<&Function, JQError>)
        ensures
            match self {
                Action::Function(f) => r is Ok && *r->Ok_0 == f,
                _ => r is Err && r->Err_0 is ActionMismatch,
            },
    {
        match self {
            Action::Function(function) => Ok(function),
            _ => Err(JQError::ActionMismatch("Function".to_owned())),
        }
    }

    /// The filter, or `ActionMismatch`.
    pub fn as_filter(&self) -> (r: Result<&Filter, JQError>)
        ensures
            match self {
                Action::Filter(f) => r is Ok && *r->Ok_0 == f,
                _ => r is Err && r->Err_0 is ActionMismatch,
            },
    {
        match self {
            Action::Filter(filter) => Ok(filter),
            _ => Err(JQError::ActionMismatch("Filter".to_owned())),
        }
    }

    pub fn is_function(&self) -> (r: bool)
        ensures
            r == (self is Function),
    {
        matches!(self, Action::Function(_))
    }

    pub fn is_filter(&self) -> (r: bool)
        ensures
            r == (self is Filter),
    {
        matches!(self, Action::Filter(_))
    }
}

impl From<Function> for Action {
    fn from(function: Function) -> (r: Action)
        ensures
            r == Action::Function(function),
    {
        Action::Function(function)
    }
}

impl vstd::std_specs::convert::FromSpecImpl<Function> for Action {
    open spec fn obeys_from_spec() -> bool {
        true
    }

    open spec fn from_spec(function: Function) -> Action {
        Action::Function(function)
    }
}

impl From<Vec<Token>> for Action {
    fn from(tokens: Vec<Token>) -> (r: Action)
        ensures
            r == Action::Filter(tokens),
    {
        Action::Filter(tokens)
    }
}

impl vstd::std_specs::convert::FromSpecImpl<Vec<Token>> for Action {
    open spec fn obeys_from_spec() -> bool {
        true
    }

    open spec fn from_spec(tokens: Vec<Token>) -> Action {
        Action::Filter(tokens)
    }
}

impl From<Token> for Action {
    fn from(token: Token) -> (r: Action)
        ensures
            r is Filter && r->Filter_0@ == seq![token],
    {
        Action::Filter(vec![token])
    }
}

impl vstd::std_specs::convert::FromSpecImpl<Token> for Action {
    open spec fn obeys_from_spec() -> bool {
        false
    }

    open spec fn from_spec(token: Token) -> Action {
        arbitrary()
    }
}

} // verus!
