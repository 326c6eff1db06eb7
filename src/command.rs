use vstd::prelude::*;

verus! {

/// A command of the older command set: `length` or `has`.
#[derive(Debug, PartialEq)]
pub enum Command {
    Length,
    Has { index: Option<isize>, ident: Option<String> },
}

} // verus!
