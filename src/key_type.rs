use crate::range::Range;
use vstd::prelude::*;

verus! {

/// A path key: an identifier, a range, or neither (the identity).
#[derive(Clone, Debug, PartialEq)]
pub struct KeyType {
    pub identifier: Option<String>,
    pub range: Option<Range>,
}

impl KeyType {
    pub fn new() -> (r: Self)
        ensures
            r.identifier is None && r.range is None,
    {
        KeyType { identifier: None, range: None }
    }

    pub fn from_identifier(id: String) -> (r: Self)
        ensures
            r.identifier == Some(id) && r.range is None,
    {
        KeyType { identifier: Some(id), range: None }
    }

    pub fn from_range(range: Range) -> (r: Self)
        ensures
            r.identifier is None && r.range == Some(range),
    {
        KeyType { identifier: None, range: Some(range) }
    }

    /// No identifier is given.
    pub fn is_identity(&self) -> (r: bool)
        ensures
            r == (self.identifier is None),
    {
        self.identifier.is_none()
    }

    /// Exactly one of the identifier and the range is given.
    pub fn is_valid(&self) -> (r: bool)
        ensures
            r == (self.identifier is Some != self.range is Some),
    {
        if self.identifier.is_some() && self.range.is_none() {
            return true;
        }
        if self.range.is_some() && self.identifier.is_none() {
            return true;
        }
        false
    }
}

impl Default for KeyType {
    fn default() -> (r: Self)
        ensures
            r.identifier is None && r.range is None,
    {
        KeyType::new()
    }
}

} // verus!
