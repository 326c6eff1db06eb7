use crate::action::Action;
use vstd::prelude::*;

verus! {

/// One pipe-separated stage of a query: comma-separated actions whose
/// results are concatenated, and wrapped into one array if `collect` is set.
#[derive(Debug, PartialEq)]
pub struct Block {
    pub actions: Option<Vec<Action>>,
    pub collect: bool,
}

impl From<Action> for Block {
    fn from(action: Action) -> (r: Block)
        ensures
            r.actions is Some && r.actions->Some_0@ == seq![action] && !r.collect,
    {
        Block { actions: Some(vec![action]), collect: false }
    }
}

impl vstd::std_specs::convert::FromSpecImpl<Action> for Block {
    open spec fn obeys_from_spec() -> bool {
        false
    }

    open spec fn from_spec(action: Action) -> Block {
        arbitrary()
    }
}

impl From<Vec<Action>> for Block {
    fn from(actions: Vec<Action>) -> (r: Block)
        ensures
            r == (Block { actions: Some(actions), collect: false }),
    {
        Block { actions: Some(actions), collect: false }
    }
}

impl vstd::std_specs::convert::FromSpecImpl<Vec<Action>> for Block {
    open spec fn obeys_from_spec() -> bool {
        true
    }

    open spec fn from_spec(actions: Vec<Action>) -> Block {
        Block { actions: Some(actions), collect: false }
    }
}

} // verus!
