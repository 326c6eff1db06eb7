use crate::errors::JQError;
use crate::range_type::{slice_bounds, RangeType};
use crate::value::{slice_values, views, Value};
use vstd::prelude::*;

verus! {

/// Slice bounds with public fields; `[start:end]` where either may be absent.
#[derive(Clone, Copy, Debug, PartialEq, Eq, Structural)]
pub struct Range {
    pub start: Option<isize>,
    pub end: Option<isize>,
}

impl Range {
    pub fn new() -> (r: Self)
        ensures
            r.start is None && r.end is None,
    {
        Range { start: None, end: None }
    }

    pub fn from_start(start: isize) -> (r: Self)
        ensures
            r.start == Some(start) && r.end is None,
    {
        Range { start: Some(start), end: None }
    }

    pub fn from_end(end: isize) -> (r: Self)
        ensures
            r.start is None && r.end == Some(end),
    {
        Range { start: None, end: Some(end) }
    }

    pub fn from_both(start: isize, end: isize) -> (r: Self)
        ensures
            r.start == Some(start) && r.end == Some(end),
    {
        Range { start: Some(start), end: Some(end) }
    }
}

impl From<Option<Range>> for Range {
    /// The range itself, or the whole range when absent.
    fn from(r: Option<Range>) -> (out: Range)
        ensures
            out == match r {
                Some(range) => range,
                None => Range { start: None, end: None },
            },
    {
        match r {
            Some(range) => range,
            None => Range { start: None, end: None },
        }
    }
}

impl vstd::std_specs::convert::FromSpecImpl<Option<Range>> for Range {
    open spec fn obeys_from_spec() -> bool {
        true
    }

    open spec fn from_spec(r: Option<Range>) -> Range {
        match r {
            Some(range) => range,
            None => Range { start: None, end: None },
        }
    }
}

impl Default for Range {
    fn default() -> (r: Self)
        ensures
            r.start is None && r.end is None,
    {
        Range::new()
    }
}

/// The elements of `array` that the jq-style range selects: bounds resolved
/// as `slice_bounds` states, so that a start past the end gives nothing.
pub fn from_range(array: &Vec<Value>, range: &Range) -> (r: Result<Vec<Value>, JQError>)
    ensures
        r is Ok,
        views(r->Ok_0@) == views(array@).subrange(
            slice_bounds(range.start, range.end, array.len() as int).0,
            slice_bounds(range.start, range.end, array.len() as int).1,
        ),
{
    let (start, end) = RangeType { start: range.start, end: range.end }.as_slice(array.len());
    Ok(slice_values(array, start, end))
}

} // verus!
