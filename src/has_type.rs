use crate::errors::JQError;
use vstd::prelude::*;

verus! {

/// The argument of `has`: an object key or an array position, never both.
#[derive(Clone, Debug, PartialEq)]
pub struct HasType {
    index: Option<isize>,
    ident: Option<String>,
}

impl HasType {
    pub closed spec fn spec_index(&self) -> Option<isize> {
        self.index
    }

    pub closed spec fn spec_ident(&self) -> Option<Seq<char>> {
        match self.ident {
            Some(s) => Some(s@),
            None => None,
        }
    }

    /// Exactly one of the two parts is present.
    pub open spec fn wf(&self) -> bool {
        self.spec_index() is Some != self.spec_ident() is Some
    }

    /// A key argument.
    pub fn from_ident(ident: String) -> (r: Self)
        ensures
            r.spec_ident() == Some(ident@),
            r.spec_index() is None,
    {
        HasType { index: None, ident: Some(ident) }
    }

    /// A position argument.
    pub fn from_index(index: isize) -> (r: Self)
        ensures
            r.spec_ident() is None,
            r.spec_index() == Some(index),
    {
        HasType { index: Some(index), ident: None }
    }

    /// True if the argument is a key.
    pub fn is_ident(&self) -> (r: bool)
        ensures
            r == (self.spec_ident() is Some),
    {
        self.ident.is_some()
    }

    /// True if the argument is a position.
    pub fn is_index(&self) -> (r: bool)
        ensures
            r == (self.spec_index() is Some),
    {
        self.index.is_some()
    }

    /// The position, or `HasTypeError`.
    pub fn as_index(&self) -> (r: Result<isize, JQError>)
        ensures
            match self.spec_index() {
                Some(i) => r == Ok::<isize, JQError>(i),
                None => r is Err && r->Err_0 is HasTypeError,
            },
    {
        match self.index {
            Some(i) => Ok(i),
            None => Err(JQError::HasTypeError("No index".to_owned())),
        }
    }

    /// The key, or `HasTypeError`.
    pub fn as_ident(&self) -> (r: Result<&String, JQError>)
        ensures
            match self.spec_ident() {
                Some(k) => r is Ok && r->Ok_0@ == k,
                None => r is Err && r->Err_0 is HasTypeError,
            },
    {
        match &self.ident {
            Some(s) => Ok(s),
            None => Err(JQError::HasTypeError("No ident".to_owned())),
        }
    }
}

impl From<&str> for HasType {
    fn from(ident: &str) -> HasType {
        HasType { ident: Some(ident.to_owned()), index: None }
    }
}

impl vstd::std_specs::convert::FromSpecImpl<&str> for HasType {
    open spec fn obeys_from_spec() -> bool {
        false
    }

    open spec fn from_spec(ident: &str) -> HasType {
        arbitrary()
    }
}

impl From<isize> for HasType {
    fn from(index: isize) -> HasType {
        HasType { ident: None, index: Some(index) }
    }
}

impl vstd::std_specs::convert::FromSpecImpl<isize> for HasType {
    open spec fn obeys_from_spec() -> bool {
        false
    }

    open spec fn from_spec(index: isize) -> HasType {
        arbitrary()
    }
}

} // verus!
