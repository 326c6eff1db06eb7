use crate::errors::JQError;
use vstd::prelude::*;

verus! {

/// An index step: either an object key `["key"]`, or a non-empty list of
/// array or string positions `[0, -1]`; `silent` is set by a trailing `?`.
#[derive(Clone, Debug, PartialEq)]
pub struct IndexType {
    identifier: Option<String>,
    index: Option<Vec<isize>>,
    silent: bool,
}

impl IndexType {
    pub closed spec fn spec_identifier(&self) -> Option<Seq<char>> {
        match self.identifier {
            Some(s) => Some(s@),
            None => None,
        }
    }

    pub closed spec fn spec_positions(&self) -> Option<Seq<isize>> {
        match self.index {
            Some(v) => Some(v@),
            None => None,
        }
    }

    /// The key as stored, when the index is an object key.
    pub closed spec fn spec_key(&self) -> String {
        self.identifier->Some_0
    }

    pub closed spec fn spec_silent(&self) -> bool {
        self.silent
    }

    /// Exactly one of the key and the positions is present.
    pub open spec fn wf(&self) -> bool {
        self.spec_identifier() is Some != self.spec_positions() is Some
    }

    /// An object-key index.
    pub fn from_identifier(identifier: String, silent: bool) -> (r: Self)
        ensures
            r.spec_identifier() == Some(identifier@),
            r.spec_key() == identifier,
            r.spec_positions() is None,
            r.spec_silent() == silent,
    {
        IndexType { identifier: Some(identifier), index: None, silent }
    }

    /// A list of positions.
    pub fn from_positions(positions: Vec<isize>, silent: bool) -> (r: Self)
        ensures
            r.spec_identifier() is None,
            r.spec_positions() == Some(positions@),
            r.spec_silent() == silent,
    {
        IndexType { identifier: None, index: Some(positions), silent }
    }

    /// True if the index is an object key.
    pub fn is_identitfier(&self) -> (r: bool)
        ensures
            r == (self.spec_identifier() is Some),
    {
        self.identifier.is_some()
    }

    /// True if the index is a list of positions.
    pub fn is_index(&self) -> (r: bool)
        ensures
            r == (self.spec_positions() is Some),
    {
        self.index.is_some()
    }

    /// True if exactly one of the key and the positions is present.
    pub fn is_valid(&self) -> (r: bool)
        ensures
            r == self.wf(),
    {
        if self.identifier.is_some() && self.index.is_none() {
            return true;
        }
        if self.index.is_some() && self.identifier.is_none() {
            return true;
        }
        false
    }

    /// The key and the silent flag, or `BadIndexType`.
    pub fn as_identifier(&self) -> (r: Result<(&String, bool), JQError>)
        ensures
            match self.spec_identifier() {
                Some(k) => r is Ok && r->Ok_0.0@ == k && *r->Ok_0.0 == self.spec_key() && r->Ok_0.1
                    == self.spec_silent(),
                None => r == Err::<(&String, bool), JQError>(JQError::BadIndexType),
            },
    {
        match &self.identifier {
            Some(s) => Ok((s, self.silent)),
            None => Err(JQError::BadIndexType),
        }
    }

    /// The positions and the silent flag, or `BadIndexType`.
    pub fn as_index(&self) -> (r: Result<(&Vec<isize>, bool), JQError>)
        ensures
            match self.spec_positions() {
                Some(p) => r is Ok && r->Ok_0.0@ == p && r->Ok_0.1 == self.spec_silent(),
                None => r == Err::<(&Vec<isize>, bool), JQError>(JQError::BadIndexType),
            },
    {
        match &self.index {
            Some(v) => Ok((v, self.silent)),
            None => Err(JQError::BadIndexType),
        }
    }
}

impl From<(&str, bool)> for IndexType {
    fn from(id: (&str, bool)) -> IndexType {
        IndexType { identifier: Some(id.0.to_owned()), index: None, silent: id.1 }
    }
}

impl vstd::std_specs::convert::FromSpecImpl<(&str, bool)> for IndexType {
    open spec fn obeys_from_spec() -> bool {
        false
    }

    open spec fn from_spec(id: (&str, bool)) -> IndexType {
        arbitrary()
    }
}

impl From<(isize, bool)> for IndexType {
    fn from(index: (isize, bool)) -> IndexType {
        IndexType { identifier: None, index: Some(vec![index.0]), silent: index.1 }
    }
}

impl vstd::std_specs::convert::FromSpecImpl<(isize, bool)> for IndexType {
    open spec fn obeys_from_spec() -> bool {
        false
    }

    open spec fn from_spec(index: (isize, bool)) -> IndexType {
        arbitrary()
    }
}

impl From<(Vec<isize>, bool)> for IndexType {
    fn from(indexes: (Vec<isize>, bool)) -> IndexType {
        IndexType { identifier: None, index: Some(indexes.0), silent: indexes.1 }
    }
}

impl vstd::std_specs::convert::FromSpecImpl<(Vec<isize>, bool)> for IndexType {
    open spec fn obeys_from_spec() -> bool {
        false
    }

    open spec fn from_spec(indexes: (Vec<isize>, bool)) -> IndexType {
        arbitrary()
    }
}

} // verus!
