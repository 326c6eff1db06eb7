use crate::action::{Action, Filter};
use crate::block::Block;
use crate::errors::JQError;
use crate::evaluate::{eval_step, fn_evaluate};
use crate::function::Function;
use crate::has::{fn_has, has_step};
use crate::keys::{fn_keys, keys_step};
use crate::length::{fn_length, length_step};
use crate::query::{
    filter_spec, lemma_lift_done, lemma_lift_start, lemma_lift_step, lemma_prepend_assoc, lift,
    prepend, query_token, rview, token_spec,
};
use crate::recurse::{fn_recurse, recurse_step};
use crate::token::Token;
use crate::value::{lemma_array_model, views, Json, Value};
use vstd::prelude::*;

verus! {

/// A built-in function on a batch.
pub open spec fn function_spec(inputs: Seq<Json>, f: Function) -> Result<Seq<Json>, JQError> {
    match f {
        Function::Length => lift(inputs, length_step()),
        Function::Has(h) => if h.wf() {
            lift(inputs, has_step(h))
        } else {
            Err(JQError::MalformedIndexType)
        },
        Function::Recurse => lift(inputs, recurse_step()),
        Function::Keys(sort) => lift(inputs, keys_step(sort)),
    }
}

/// One action on a batch.
pub open spec fn action_spec(inputs: Seq<Json>, a: Action) -> Result<Seq<Json>, JQError> {
    match a {
        Action::Filter(f) => filter_spec(inputs, f@),
        Action::Function(f) => function_spec(inputs, f),
        Action::Expression(e) => lift(inputs, eval_step(e)),
    }
}

/// Comma-separated actions on one batch: their results concatenated.
pub open spec fn actions_spec(inputs: Seq<Json>, acts: Seq<Action>) -> Result<Seq<Json>, JQError>
    decreases acts.len(),
{
    if acts.len() == 0 {
        Ok(Seq::empty())
    } else {
        match action_spec(inputs, acts[0]) {
            Ok(r) => prepend(r, actions_spec(inputs, acts.drop_first())),
            Err(e) => Err(e),
        }
    }
}

/// A block on a batch: its actions' results, wrapped in one array when the
/// block collects.
pub open spec fn block_spec(inputs: Seq<Json>, b: Block) -> Result<Seq<Json>, JQError> {
    match b.actions {
        None => Ok(Seq::empty()),
        Some(acts) => match actions_spec(inputs, acts@) {
            Ok(r) => Ok(
                if b.collect {
                    seq![Json::Array(r)]
                } else {
                    r
                },
            ),
            Err(e) => Err(e),
        },
    }
}

/// Pipe-separated blocks: each block's result is the next block's batch.
pub open spec fn query_spec(inputs: Seq<Json>, blocks: Seq<Block>) -> Result<Seq<Json>, JQError>
    decreases blocks.len(),
{
    if blocks.len() == 0 {
        Ok(inputs)
    } else {
        match query_spec(inputs, blocks.drop_last()) {
            Ok(vs) => block_spec(vs, blocks.last()),
            Err(e) => Err(e),
        }
    }
}

/// Once a prefix of a path fails, the whole path fails with that error.
pub proof fn lemma_filter_error(inputs: Seq<Json>, tokens: Seq<Token>, i: int, e: JQError)
    requires
        0 <= i <= tokens.len(),
        filter_spec(inputs, tokens.take(i)) == Err::<Seq<Json>, JQError>(e),
    ensures
        filter_spec(inputs, tokens) == Err::<Seq<Json>, JQError>(e),
    decreases tokens.len() - i,
{
    if i < tokens.len() {
        assert(tokens.take(i + 1).drop_last() =~= tokens.take(i));
        lemma_filter_error(inputs, tokens, i + 1, e);
    } else {
        assert(tokens.take(i) =~= tokens);
    }
}

/// Once a prefix of the blocks fails, the whole query fails with that error.
pub proof fn lemma_query_error(inputs: Seq<Json>, blocks: Seq<Block>, i: int, e: JQError)
    requires
        0 <= i <= blocks.len(),
        query_spec(inputs, blocks.take(i)) == Err::<Seq<Json>, JQError>(e),
    ensures
        query_spec(inputs, blocks) == Err::<Seq<Json>, JQError>(e),
    decreases blocks.len() - i,
{
    if i < blocks.len() {
        assert(blocks.take(i + 1).drop_last() =~= blocks.take(i));
        lemma_query_error(inputs, blocks, i + 1, e);
    } else {
        assert(blocks.take(i) =~= blocks);
    }
}

/// One step applied to each input, results concatenated in order.
pub fn query_single_token(inputs: &Vec<Value>, token: &Token) -> (r: Result<Vec<Value>, JQError>)
    ensures
        rview(r) == lift(views(inputs@), |j: Json| token_spec(j, *token)),
{
    let ghost f = |j: Json| token_spec(j, *token);
    let ghost vs = views(inputs@);
    proof {
        lemma_lift_start(vs, f);
    }
    let mut results: Vec<Value> = Vec::new();
    let mut i: usize = 0;
    while i < inputs.len()
        invariant
            i <= inputs.len(),
            vs == views(inputs@),
            f == (|j: Json| token_spec(j, *token)),
            lift(vs, f) == prepend(views(results@), lift(vs.subrange(i as int, vs.len() as int), f)),
        decreases inputs.len() - i,
    {
        proof {
            lemma_lift_step(vs, f, i as int);
        }
        let mut next = match query_token(&inputs[i], token) {
            Ok(v) => v,
            Err(e) => {
                return Err(e);
            },
        };
        let ghost before = views(results@);
        let ghost got = views(next@);
        results.append(&mut next);
        proof {
            assert(views(results@) =~= before + got);
            lemma_prepend_assoc(before, got, lift(vs.subrange(i + 1, vs.len() as int), f));
        }
        i = i + 1;
    }
    proof {
        lemma_lift_done(vs, f, views(results@));
    }
    Ok(results)
}

/// A path applied to a batch, step after step.
pub fn query_filter(inputs: &[Value], filter: &Filter) -> (r: Result<Vec<Value>, JQError>)
    ensures
        rview(r) == filter_spec(views(inputs@), filter@),
{
    let mut values: Vec<Value> = Vec::new();
    let mut k: usize = 0;
    while k < inputs.len()
        invariant
            k <= inputs.len(),
            values.len() == k,
            forall|m: int| 0 <= m < k ==> #[trigger] views(values@)[m] == views(inputs@)[m],
        decreases inputs.len() - k,
    {
        let ghost before = views(values@);
        let v = inputs[k].deep_clone();
        values.push(v);
        assert(views(values@) =~= before.push(v@));
        k = k + 1;
    }
    assert(views(values@) =~= views(inputs@));
    let ghost tokens = filter@;
    assert(tokens.take(0) =~= Seq::<Token>::empty());
    let mut i: usize = 0;
    while i < filter.len()
        invariant
            i <= filter.len(),
            tokens == filter@,
            filter_spec(views(inputs@), tokens.take(i as int)) == Ok::<Seq<Json>, JQError>(views(values@)),
        decreases filter.len() - i,
    {
        assert(tokens.take(i + 1).drop_last() =~= tokens.take(i as int));
        assert(tokens.take(i + 1).last() == filter@[i as int]);
        assert((|j: Json| token_spec(j, tokens.take(i + 1).last())) =~= (|j: Json| token_spec(j, filter@[i as int])));
        values = match query_single_token(&values, &filter[i]) {
            Ok(v) => v,
            Err(e) => {
                proof {
                    lemma_filter_error(views(inputs@), tokens, i + 1, e);
                }
                return Err(e);
            },
        };
        i = i + 1;
    }
    assert(tokens.take(filter.len() as int) =~= tokens);
    Ok(values)
}

/// A built-in function applied to a batch.
pub fn query_function(inputs: &Vec<Value>, func: &Function) -> (r: Result<Vec<Value>, JQError>)
    ensures
        rview(r) == function_spec(views(inputs@), *func),
{
    match func {
        Function::Length => fn_length(inputs),
        Function::Has(has) => fn_has(inputs, has),
        Function::Recurse => fn_recurse(inputs),
        Function::Keys(sort) => fn_keys(inputs, *sort),
    }
}

/// One action applied to a batch.
fn query_action(inputs: &Vec<Value>, action: &Action) -> (r: Result<Vec<Value>, JQError>)
    ensures
        rview(r) == action_spec(views(inputs@), *action),
{
    match action {
        Action::Filter(filter) => query_filter(inputs.as_slice(), filter),
        Action::Function(func) => query_function(inputs, func),
        Action::Expression(expr) => fn_evaluate(inputs, expr),
    }
}

/// All the actions of a block on one batch, and the collect wrapping.
#[verifier::loop_isolation(false)]
pub fn query_block(in_values: &Vec<Value>, block: &Block) -> (r: Result<Vec<Value>, JQError>)
    ensures
        rview(r) == block_spec(views(in_values@), *block),
{
    let actions = match &block.actions {
        Some(a) => a,
        None => {
            let empty: Vec<Value> = Vec::new();
            assert(views(empty@) =~= Seq::<Json>::empty());
            return Ok(empty);
        },
    };
    let ghost vs = views(in_values@);
    let ghost acts = actions@;
    assert(acts.subrange(0, acts.len() as int) =~= acts);
    proof {
        if let Ok(x) = actions_spec(vs, acts) {
            assert(Seq::<Json>::empty() + x =~= x);
        }
    }
    let mut results: Vec<Value> = Vec::new();
    let mut i: usize = 0;
    while i < actions.len()
        invariant
            i <= actions.len(),
            vs == views(in_values@),
            acts == actions@,
            actions_spec(vs, acts) == prepend(views(results@), actions_spec(vs, acts.subrange(i as int, acts.len() as int))),
        decreases actions.len() - i,
    {
        let ghost rest = acts.subrange(i as int, acts.len() as int);
        assert(rest[0] == acts[i as int]);
        assert(rest.drop_first() =~= acts.subrange(i + 1, acts.len() as int));
        let mut next = match query_action(in_values, &actions[i]) {
            Ok(v) => v,
            Err(e) => {
                return Err(e);
            },
        };
        let ghost before = views(results@);
        let ghost got = views(next@);
        results.append(&mut next);
        proof {
            assert(views(results@) =~= before + got);
            lemma_prepend_assoc(before, got, actions_spec(vs, acts.subrange(i + 1, acts.len() as int)));
        }
        i = i + 1;
    }
    assert(acts.subrange(acts.len() as int, acts.len() as int).len() == 0);
    assert(views(results@) + Seq::<Json>::empty() =~= views(results@));
    if block.collect {
        proof {
            lemma_array_model(results);
        }
        let collected = vec![Value::Array(results)];
        assert(views(collected@) =~= seq![collected@[0]@]);
        return Ok(collected);
    }
    Ok(results)
}

/// Queries a series of blocks: the output of one block is the input of the
/// next.
pub fn query(in_values: &[Value], blocks: Vec<Block>) -> (r: Result<Vec<Value>, JQError>)
    ensures
        rview(r) == query_spec(views(in_values@), blocks@),
{
    let mut values: Vec<Value> = Vec::new();
    let mut k: usize = 0;
    while k < in_values.len()
        invariant
            k <= in_values.len(),
            values.len() == k,
            forall|m: int| 0 <= m < k ==> #[trigger] views(values@)[m] == views(in_values@)[m],
        decreases in_values.len() - k,
    {
        let ghost before = views(values@);
        let v = in_values[k].deep_clone();
        values.push(v);
        assert(views(values@) =~= before.push(v@));
        k = k + 1;
    }
    assert(views(values@) =~= views(in_values@));
    let ghost bs = blocks@;
    assert(bs.take(0) =~= Seq::<Block>::empty());
    let mut i: usize = 0;
    while i < blocks.len()
        invariant
            i <= blocks.len(),
            bs == blocks@,
            query_spec(views(in_values@), bs.take(i as int)) == Ok::<Seq<Json>, JQError>(views(values@)),
        decreases blocks.len() - i,
    {
        assert(bs.take(i + 1).drop_last() =~= bs.take(i as int));
        assert(bs.take(i + 1).last() == blocks@[i as int]);
        values = match query_block(&values, &blocks[i]) {
            Ok(v) => v,
            Err(e) => {
                proof {
                    lemma_query_error(views(in_values@), bs, i + 1, e);
                }
                return Err(e);
            },
        };
        i = i + 1;
    }
    assert(bs.take(blocks.len() as int) =~= bs);
    Ok(values)
}

} // verus!
