use crate::errors::JQError;
use crate::function::Function;
use crate::has_type::HasType;
use crate::index_type::IndexType;
use crate::range_type::RangeType;
use vstd::prelude::*;

verus! {

/// One step of a path.
#[derive(Clone, Debug, PartialEq)]
pub enum Token {
    /// `.`: the input itself.
    Identity,
    /// `.name`: an object field; the flag is set by a trailing `?`.
    Ident(String, bool),
    /// `[start:end]` or `[]`.
    Range(RangeType),
    /// `["key"]` or `[0, -1]`.
    Index(IndexType),
}

impl Token {
    /// The field name and silent flag, or `TokenMismatch`.
    pub fn as_ident(&self) -> (r: Result<(&String, bool), JQError>)
        ensures
            match self {
                Token::Ident(s, b) => r is Ok && r->Ok_0.0 == s && r->Ok_0.1 == b,
                _ => r is Err && r->Err_0 is TokenMismatch,
            },
    {
        match self {
            Token::Ident(ident, silent) => Ok((ident, *silent)),
            _ => Err(JQError::TokenMismatch("Ident".to_owned())),
        }
    }

    /// The range, or `TokenMismatch`.
    pub fn as_range(&self) -> (r: Result<&RangeType, JQError>)
        ensures
            match self {
                Token::Range(g) => r is Ok && *r->Ok_0 == g,
                _ => r is Err && r->Err_0 is TokenMismatch,
            },
    {
        match self {
            Token::Range(range) => Ok(range),
            _ => Err(JQError::TokenMismatch("Range".to_owned())),
        }
    }

    /// The index, or `TokenMismatch`.
    pub fn as_index(&self) -> (r: Result<&IndexType, JQError>)
        ensures
            match self {
                Token::Index(i) => r is Ok && *r->Ok_0 == i,
                _ => r is Err && r->Err_0 is TokenMismatch,
            },
    {
        match self {
            Token::Index(index) => Ok(index),
            _ => Err(JQError::TokenMismatch("Key".to_owned())),
        }
    }

    pub fn is_identity(&self) -> (r: bool)
        ensures
            r == (self is Identity),
    {
        matches!(self, Token::Identity)
    }

    pub fn is_ident(&self) -> (r: bool)
        ensures
            r == (self is Ident),
    {
        matches!(self, Token::Ident(..))
    }

    pub fn is_index(&self) -> (r: bool)
        ensures
            r == (self is Index),
    {
        matches!(self, Token::Index(_))
    }

    pub fn is_range(&self) -> (r: bool)
        ensures
            r == (self is Range),
    {
        matches!(self, Token::Range(_))
    }

    /// The path step that `has` resolves: a key becomes a field lookup and a
    /// position becomes a one-position index, neither of them silent.
    pub fn from_has(has: &HasType) -> (r: Token)
        requires
            has.wf(),
        ensures
            has_token(*has, r),
    {
        match has.as_ident() {
            Ok(ident) => Token::Ident(ident.clone(), false),
            Err(_) => {
                let i = match has.as_index() {
                    Ok(i) => i,
                    Err(_) => 0,
                };
                let mut v: Vec<isize> = Vec::new();
                v.push(i);
                Token::Index(IndexType::from_positions(v, false))
            },
        }
    }
}

impl TryFrom<Function> for Token {
    type Error = JQError;

    fn try_from(command: Function) -> (r: Result<Token, JQError>)
        ensures
            match command {
                Function::Has(h) => h.wf() ==> r is Ok && has_token(h, r->Ok_0),
                _ => r is Err && r->Err_0 is GeneralError,
            },
    {
        match command {
            Function::Has(has) => Ok(Token::from(&has)),
            _ => Err(JQError::GeneralError("Token::try_from error".to_owned())),
        }
    }
}

impl vstd::std_specs::convert::TryFromSpecImpl<Function> for Token {
    open spec fn obeys_try_from_spec() -> bool {
        false
    }

    open spec fn try_from_spec(command: Function) -> Result<Token, JQError> {
        arbitrary()
    }
}

/// `t` is the path step that `has(h)` resolves.
pub open spec fn has_token(h: HasType, t: Token) -> bool {
    match h.spec_ident() {
        Some(k) => t is Ident && t->Ident_0@ == k && !t->Ident_1,
        None => t is Index && t->Index_0.spec_identifier() is None
            && t->Index_0.spec_positions() == Some(seq![h.spec_index()->Some_0])
            && !t->Index_0.spec_silent(),
    }
}

impl From<&HasType> for Token {
    /// The path step that `has` resolves (see `from_has`).
    fn from(has: &HasType) -> (r: Token)
        ensures
            has.wf() ==> has_token(*has, r),
    {
        if has.is_ident() {
            match has.as_ident() {
                Ok(ident) => {
                    return Token::Ident(ident.clone(), false);
                },
                Err(_) => {},
            }
        }
        let i = match has.as_index() {
            Ok(i) => i,
            Err(_) => 0,
        };
        let mut v: Vec<isize> = Vec::new();
        v.push(i);
        Token::Index(IndexType::from_positions(v, false))
    }
}

impl vstd::std_specs::convert::FromSpecImpl<&HasType> for Token {
    open spec fn obeys_from_spec() -> bool {
        false
    }

    open spec fn from_spec(has: &HasType) -> Token {
        arbitrary()
    }
}

} // verus!
