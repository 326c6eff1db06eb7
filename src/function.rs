use crate::has_type::HasType;
use vstd::prelude::*;

verus! {

/// The built-in functions.
#[derive(Clone, Debug, PartialEq)]
pub enum Function {
    /// `length`
    Length,
    /// `has("key")` or `has(position)`
    Has(HasType),
    /// `recurse` or `..`
    Recurse,
    /// `keys` (sorted, flag set) or `keys_unsorted`
    Keys(bool),
}

} // verus!
