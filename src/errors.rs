use crate::value::Kind;
use vstd::prelude::*;

verus! {

/// Everything that can go wrong while parsing or evaluating a query.
#[derive(Debug, PartialEq)]
pub enum JQError {
    /// A catch-all for boundary conditions.
    GeneralError(String),
    /// The query string does not match the grammar.
    ParseError,
    /// An action of another variant was expected.
    ActionMismatch(String),
    /// A token of another variant was expected.
    TokenMismatch(String),
    NotAnObject,
    NotAnArray,
    /// The function does not apply to a value of this kind.
    UnsupportedValue,
    /// A range was applied where only the whole range is legal.
    UnsupportedRange,
    RangeOutOfBounds(isize, isize, isize),
    UnsupportedObjectIndex,
    /// An index of the wrong shape (a key where positions were expected, or
    /// positions where a key was expected).
    BadIndexType,
    MalformedIndexType,
    /// A key that the object does not hold.
    ObjectQuery(String),
    /// A string position out of range, after negative positions were
    /// counted from the end.
    ArrayQuery(isize),
    /// A field lookup on a value that is not an object.
    IdentMismatch(Kind),
    /// `length` applied to a boolean.
    FnLength,
    /// An operator applied to operands of kinds that it does not combine.
    EquationError(Kind, Kind),
    /// An expression path that did not yield exactly one value.
    NotSingleValue,
    /// The argument of `has` holds neither or both of its parts.
    HasTypeError(String),
}

} // verus!
