use crate::errors::JQError;
use crate::value::{slice_values, views, Value};
use vstd::prelude::*;

verus! {

/// The bounds of a slice `[start:end]`; either may be absent, and both
/// absent is the whole range `[]`.
#[derive(Clone, Copy, Debug, PartialEq, Eq, Structural)]
pub struct RangeType {
    pub start: Option<isize>,
    pub end: Option<isize>,
}

/// Resolves slice bounds against a length: an absent start is 0, an absent
/// end is the length, negative bounds count from the end, and both bounds
/// are then clamped to `[0, len]` with the end never before the start.
pub open spec fn slice_bounds(start: Option<isize>, end: Option<isize>, len: int) -> (int, int) {
    let s0: int = match start {
        Some(s) => s as int,
        None => 0,
    };
    let e0: int = match end {
        Some(e) => e as int,
        None => len,
    };
    let s1 = if s0 < 0 { s0 + len } else { s0 };
    let e1 = if e0 < 0 { e0 + len } else { e0 };
    let s2 = if s1 < 0 { 0 } else if s1 > len { len } else { s1 };
    let e2 = if e1 > len { len } else { e1 };
    let e3 = if e2 < s2 { s2 } else { e2 };
    (s2, e3)
}

impl RangeType {
    /// The whole range `[]`.
    pub fn new() -> (r: Self)
        ensures
            r.start is None && r.end is None,
    {
        RangeType { start: None, end: None }
    }

    /// `[start:]`
    pub fn from_start(start: isize) -> (r: Self)
        ensures
            r.start == Some(start) && r.end is None,
    {
        RangeType { start: Some(start), end: None }
    }

    /// `[:end]`
    pub fn from_end(end: isize) -> (r: Self)
        ensures
            r.start is None && r.end == Some(end),
    {
        RangeType { start: None, end: Some(end) }
    }

    /// `[start:end]`
    pub fn from_both(start: isize, end: isize) -> (r: Self)
        ensures
            r.start == Some(start) && r.end == Some(end),
    {
        RangeType { start: Some(start), end: Some(end) }
    }

    /// True if both bounds are absent.
    pub fn is_empty(&self) -> (r: bool)
        ensures
            r == (self.start is None && self.end is None),
    {
        self.start.is_none() && self.end.is_none()
    }

    /// The bounds resolved against `len`, as `slice_bounds` states.
    pub fn as_slice(&self, len: usize) -> (r: (usize, usize))
        ensures
            r.0 as int == slice_bounds(self.start, self.end, len as int).0,
            r.1 as int == slice_bounds(self.start, self.end, len as int).1,
            r.0 <= r.1 <= len,
    {
        let ilen = len as i128;
        let mut start: i128 = match self.start {
            Some(s) => s as i128,
            None => 0,
        };
        let mut end: i128 = match self.end {
            Some(e) => e as i128,
            None => ilen,
        };
        if start < 0 {
            start = start + ilen;
        }
        if end < 0 {
            end = end + ilen;
        }
        if start < 0 {
            start = 0;
        } else if start > ilen {
            start = ilen;
        }
        if end > ilen {
            end = ilen;
        }
        if end < start {
            end = start;
        }
        (start as usize, end as usize)
    }
}

impl From<Option<RangeType>> for RangeType {
    /// The range itself, or the whole range when absent.
    fn from(r: Option<RangeType>) -> (out: RangeType)
        ensures
            out == match r {
                Some(range) => range,
                None => RangeType { start: None, end: None },
            },
    {
        match r {
            Some(range) => range,
            None => RangeType { start: None, end: None },
        }
    }
}

impl vstd::std_specs::convert::FromSpecImpl<Option<RangeType>> for RangeType {
    open spec fn obeys_from_spec() -> bool {
        true
    }

    open spec fn from_spec(r: Option<RangeType>) -> RangeType {
        match r {
            Some(range) => range,
            None => RangeType { start: None, end: None },
        }
    }
}

impl Default for RangeType {
    fn default() -> (r: Self)
        ensures
            r.start is None && r.end is None,
    {
        RangeType::new()
    }
}

/// The elements of `array` that the jq-style range selects: bounds resolved
/// as `slice_bounds` states, so that a start past the end gives nothing.
pub fn from_range(array: &Vec<Value>, range: &RangeType) -> (r: Result<Vec<Value>, JQError>)
    ensures
        r is Ok,
        views(r->Ok_0@) == views(array@).subrange(
            slice_bounds(range.start, range.end, array.len() as int).0,
            slice_bounds(range.start, range.end, array.len() as int).1,
        ),
{
    let (start, end) = RangeType { start: range.start, end: range.end }.as_slice(array.len());
    Ok(slice_values(array, start, end))
}

} // verus!
