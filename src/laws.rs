use crate::action::Action;
use crate::block::Block;
use crate::errors::JQError;
use crate::evaluate::{apply_spec, eval_spec, eval_step};
use crate::expression_type::ExpressionType;
use crate::function::Function;
use crate::has::{has_spec, has_step};
use crate::operator::Operator;
use crate::parser::{
    action_model, actions_model, block_model, blocks_model, expr_model, step_model, steps_model,
    action_wf, blocks_wf, expr_wf, step_wf, steps_wf, ActionModel, StepModel,
};
use crate::pipeline::{action_spec, actions_spec, block_spec, query_spec};
use crate::eval::{array_minus, holds, lemma_merge_wf};
use crate::query::{array_at, filter_spec, lift, positions_spec, string_positions, token_spec};
use crate::range_type::slice_bounds;
use crate::value::{json_wf, lookup};
use crate::token::Token;
use crate::value::Json;
use vstd::prelude::*;

verus! {

/// A query without blocks returns its input batch unchanged.
pub proof fn lemma_empty_query(inputs: Seq<Json>)
    ensures
        query_spec(inputs, Seq::empty()) == Ok::<Seq<Json>, JQError>(inputs),
{
}

/// The identity path `.` returns exactly the document it is given.
pub proof fn lemma_identity_law(doc: Json, b: Block, acts: Vec<Action>, f: Vec<Token>)
    requires
        b.actions == Some(acts),
        !b.collect,
        acts@ == seq![Action::Filter(f)],
        f@ == seq![Token::Identity],
    ensures
        query_spec(seq![doc], seq![b]) == Ok::<Seq<Json>, JQError>(seq![doc]),
{
    let inputs = seq![doc];
    let tokens = f@;
    assert(tokens.drop_last() =~= Seq::<Token>::empty());
    let step = |j: Json| token_spec(j, tokens.last());
    assert(inputs.drop_first() =~= Seq::<Json>::empty());
    assert(lift(inputs.drop_first(), step) == Ok::<Seq<Json>, JQError>(Seq::empty()));
    assert(seq![doc] + Seq::<Json>::empty() =~= seq![doc]);
    assert(filter_spec(inputs, tokens.drop_last()) == Ok::<Seq<Json>, JQError>(inputs));
    assert(tokens.last() == Token::Identity);
    assert(step(doc) == Ok::<Seq<Json>, JQError>(seq![doc]));
    assert(lift(inputs, step) == Ok::<Seq<Json>, JQError>(seq![doc]));
    assert(filter_spec(inputs, tokens) == Ok::<Seq<Json>, JQError>(seq![doc]));
    assert(acts@.drop_first() =~= Seq::<Action>::empty());
    assert(crate::pipeline::action_spec(inputs, acts@[0]) == Ok::<Seq<Json>, JQError>(seq![doc]));
    assert(actions_spec(inputs, acts@.drop_first()) == Ok::<Seq<Json>, JQError>(Seq::empty()));
    assert(actions_spec(inputs, acts@) == Ok::<Seq<Json>, JQError>(seq![doc]));
    assert(block_spec(inputs, b) == Ok::<Seq<Json>, JQError>(seq![doc]));
    assert(seq![b].drop_last() =~= Seq::<Block>::empty());
    assert(query_spec(inputs, seq![b].drop_last()) == Ok::<Seq<Json>, JQError>(inputs));
}

/// The identity law for the blocks that the grammar reads from `.` (see
/// `lemma_identity_text`): they return exactly the document.
pub proof fn lemma_identity_query(doc: Json, bs: Seq<Block>)
    requires
        blocks_model(bs) == seq![(seq![ActionModel::Filter(seq![StepModel::Identity])], false)],
    ensures
        query_spec(seq![doc], bs) == Ok::<Seq<Json>, JQError>(seq![doc]),
{
    let a = ActionModel::Filter(seq![StepModel::Identity]);
    assert(blocks_model(bs).len() == bs.len());
    assert(bs.len() == 1);
    let b = bs[0];
    assert(block_model(b) == blocks_model(bs)[0]);
    assert(block_model(b).0.len() == 1);
    assert(b.actions is Some);
    let acts = b.actions->Some_0;
    assert(actions_model(acts@) == seq![a]);
    assert(actions_model(acts@).len() == acts@.len());
    assert(acts@.len() == 1);
    assert(action_model(acts@[0]) == actions_model(acts@)[0]);
    assert(acts@[0] is Filter);
    let f = acts@[0]->Filter_0;
    assert(steps_model(f@) == seq![StepModel::Identity]);
    assert(steps_model(f@).len() == f@.len());
    assert(f@.len() == 1);
    assert(step_model(f@[0]) == steps_model(f@)[0]);
    assert(f@[0] is Identity);
    assert(acts@ =~= seq![Action::Filter(f)]);
    assert(f@ =~= seq![Token::Identity]);
    lemma_identity_law(doc, b, acts, f);
    assert(bs =~= seq![b]);
}

/// Two results that agree on success and on the values; errors may name
/// different details.
pub open spec fn same_outcome<T>(a: Result<T, JQError>, b: Result<T, JQError>) -> bool {
    match a {
        Ok(x) => b == Ok::<T, JQError>(x),
        Err(_) => b is Err,
    }
}

proof fn lemma_token_same(j: Json, t1: Token, t2: Token)
    requires
        step_model(t1) == step_model(t2),
        step_wf(t1),
        step_wf(t2),
    ensures
        same_outcome(token_spec(j, t1), token_spec(j, t2)),
{
}

proof fn lemma_lift_same(
    inputs: Seq<Json>,
    f: spec_fn(Json) -> Result<Seq<Json>, JQError>,
    g: spec_fn(Json) -> Result<Seq<Json>, JQError>,
)
    requires
        forall|j: Json| same_outcome(#[trigger] f(j), g(j)),
    ensures
        same_outcome(lift(inputs, f), lift(inputs, g)),
    decreases inputs.len(),
{
    if inputs.len() > 0 {
        assert(same_outcome(f(inputs[0]), g(inputs[0])));
        lemma_lift_same(inputs.drop_first(), f, g);
    }
}

proof fn lemma_filter_same(inputs: Seq<Json>, t1: Seq<Token>, t2: Seq<Token>)
    requires
        steps_model(t1) == steps_model(t2),
        steps_wf(t1),
        steps_wf(t2),
    ensures
        same_outcome(filter_spec(inputs, t1), filter_spec(inputs, t2)),
    decreases t1.len(),
{
    assert(t1.len() == steps_model(t1).len());
    assert(t2.len() == steps_model(t2).len());
    if t1.len() > 0 {
        assert(steps_model(t1.drop_last()) =~= steps_model(t1).drop_last());
        assert(steps_model(t2.drop_last()) =~= steps_model(t2).drop_last());
        lemma_filter_same(inputs, t1.drop_last(), t2.drop_last());
        assert(step_model(t1.last()) == steps_model(t1).last());
        assert(step_model(t2.last()) == steps_model(t2).last());
        assert(t1[t1.len() - 1] is Index ==> t1[t1.len() - 1]->Index_0.wf());
        assert(t2[t2.len() - 1] is Index ==> t2[t2.len() - 1]->Index_0.wf());
        if let Ok(vs) = filter_spec(inputs, t1.drop_last()) {
            let f = |j: Json| token_spec(j, t1.last());
            let g = |j: Json| token_spec(j, t2.last());
            assert forall|j: Json| same_outcome(#[trigger] f(j), g(j)) by {
                lemma_token_same(j, t1.last(), t2.last());
            }
            lemma_lift_same(vs, f, g);
        }
    }
}

proof fn lemma_eval_same(j: Json, e1: ExpressionType, e2: ExpressionType)
    requires
        expr_model(e1) == expr_model(e2),
        expr_wf(e1),
        expr_wf(e2),
    ensures
        same_outcome(eval_spec(j, e1), eval_spec(j, e2)),
    decreases e1,
{
    match e1 {
        ExpressionType::Ident(t1) => {
            let t2 = e2->Ident_0;
            lemma_token_same(j, t1, t2);
        },
        ExpressionType::Op(op, l1, r1) => {
            let l2 = e2->Op_1;
            let r2 = e2->Op_2;
            lemma_eval_same(j, *l1, *l2);
            lemma_eval_same(j, *r1, *r2);
        },
        _ => {},
    }
}

proof fn lemma_action_same(inputs: Seq<Json>, a1: Action, a2: Action)
    requires
        action_model(a1) == action_model(a2),
        action_wf(a1),
        action_wf(a2),
    ensures
        same_outcome(action_spec(inputs, a1), action_spec(inputs, a2)),
{
    match a1 {
        Action::Filter(f1) => {
            lemma_filter_same(inputs, f1@, a2->Filter_0@);
        },
        Action::Function(f1) => {
            let f2 = a2->Function_0;
            if let Function::Has(h1) = f1 {
                let h2 = f2->Has_0;
                assert forall|j: Json| same_outcome(#[trigger] has_step(h1)(j), has_step(h2)(j)) by {
                    assert(has_spec(j, h1) == has_spec(j, h2));
                }
                lemma_lift_same(inputs, has_step(h1), has_step(h2));
            }
        },
        Action::Expression(e1) => {
            let e2 = a2->Expression_0;
            assert forall|j: Json| same_outcome(#[trigger] eval_step(e1)(j), eval_step(e2)(j)) by {
                lemma_eval_same(j, e1, e2);
            }
            lemma_lift_same(inputs, eval_step(e1), eval_step(e2));
        },
    }
}

proof fn lemma_actions_same(inputs: Seq<Json>, a1: Seq<Action>, a2: Seq<Action>)
    requires
        actions_model(a1) == actions_model(a2),
        forall|k: int| 0 <= k < a1.len() ==> action_wf(#[trigger] a1[k]),
        forall|k: int| 0 <= k < a2.len() ==> action_wf(#[trigger] a2[k]),
    ensures
        same_outcome(actions_spec(inputs, a1), actions_spec(inputs, a2)),
    decreases a1.len(),
{
    assert(a1.len() == actions_model(a1).len());
    assert(a2.len() == actions_model(a2).len());
    if a1.len() > 0 {
        assert(action_model(a1[0]) == actions_model(a1)[0]);
        assert(action_model(a2[0]) == actions_model(a2)[0]);
        lemma_action_same(inputs, a1[0], a2[0]);
        assert(actions_model(a1.drop_first()) =~= actions_model(a1).drop_first());
        assert(actions_model(a2.drop_first()) =~= actions_model(a2).drop_first());
        lemma_actions_same(inputs, a1.drop_first(), a2.drop_first());
    }
}

proof fn lemma_block_same(inputs: Seq<Json>, b1: Block, b2: Block)
    requires
        block_model(b1) == block_model(b2),
        b1.actions is Some,
        b2.actions is Some,
        forall|k: int| 0 <= k < b1.actions->Some_0@.len() ==> action_wf(#[trigger] b1.actions->Some_0@[k]),
        forall|k: int| 0 <= k < b2.actions->Some_0@.len() ==> action_wf(#[trigger] b2.actions->Some_0@[k]),
    ensures
        same_outcome(block_spec(inputs, b1), block_spec(inputs, b2)),
{
    lemma_actions_same(inputs, b1.actions->Some_0@, b2.actions->Some_0@);
}

/// A query's result depends only on what the grammar reads: two block
/// sequences with the same meaning (see `blocks_model`), every block with
/// its actions present and well formed, succeed together and give the same
/// values. So any text that the grammar reads back to the same blocks,
/// such as a re-serialization of a parsed query, evaluates alike.
pub proof fn lemma_same_reading_same_result(inputs: Seq<Json>, b1: Seq<Block>, b2: Seq<Block>)
    requires
        blocks_model(b1) == blocks_model(b2),
        blocks_wf(b1),
        blocks_wf(b2),
        forall|i: int| 0 <= i < b1.len() ==> (#[trigger] b1[i]).actions is Some,
        forall|i: int| 0 <= i < b2.len() ==> (#[trigger] b2[i]).actions is Some,
    ensures
        same_outcome(query_spec(inputs, b1), query_spec(inputs, b2)),
    decreases b1.len(),
{
    assert(b1.len() == blocks_model(b1).len());
    assert(b2.len() == blocks_model(b2).len());
    if b1.len() > 0 {
        let n = b1.len() - 1;
        assert(blocks_model(b1.drop_last()) =~= blocks_model(b1).drop_last());
        assert(blocks_model(b2.drop_last()) =~= blocks_model(b2).drop_last());
        lemma_same_reading_same_result(inputs, b1.drop_last(), b2.drop_last());
        if let Ok(vs) = query_spec(inputs, b1.drop_last()) {
            assert(block_model(b1[n]) == blocks_model(b1)[n]);
            assert(block_model(b2[n]) == blocks_model(b2)[n]);
            assert(b1[n].actions is Some);
            assert(b2[n].actions is Some);
            lemma_block_same(vs, b1[n], b2[n]);
        }
    }
}

proof fn lemma_lookup_wf(o: Seq<(Seq<char>, Json)>, k: Seq<char>)
    requires
        forall|i: int| 0 <= i < o.len() ==> json_wf(#[trigger] o[i].1),
    ensures
        lookup(o, k) matches Some(v) ==> json_wf(v),
    decreases o.len(),
{
    if o.len() > 0 && o[0].0 != k {
        let t = o.drop_first();
        assert forall|i: int| 0 <= i < t.len() implies json_wf(#[trigger] t[i].1) by {
            assert(t[i] == o[i + 1]);
        }
        lemma_lookup_wf(t, k);
    }
}

proof fn lemma_array_minus_wf(a: Seq<Json>, b: Seq<Json>)
    requires
        forall|i: int| 0 <= i < a.len() ==> json_wf(#[trigger] a[i]),
    ensures
        forall|i: int| 0 <= i < array_minus(a, b).len() ==> json_wf(#[trigger] array_minus(a, b)[i]),
    decreases a.len(),
{
    if a.len() > 0 {
        let t = a.drop_last();
        assert forall|i: int| 0 <= i < t.len() implies json_wf(#[trigger] t[i]) by {
            assert(t[i] == a[i]);
        }
        lemma_array_minus_wf(t, b);
        let m = array_minus(t, b);
        if !holds(b, a.last()) {
            assert forall|i: int| 0 <= i < m.push(a.last()).len() implies json_wf(#[trigger] m.push(a.last())[i]) by {
                if i < m.len() {
                    assert(m.push(a.last())[i] == m[i]);
                }
            }
        }
    }
}

/// Arithmetic keeps values well formed: objects that `+` merges keep
/// distinct keys, and nothing that `+` or `-` returns holds an object with
/// a repeated key.
pub proof fn lemma_arithmetic_keeps_wf(op: Operator, l: Json, r: Json)
    requires
        op is Plus || op is Minus || op is Multiply || op is Divide,
        json_wf(l),
        json_wf(r),
        apply_spec(op, l, r) is Ok,
    ensures
        json_wf(apply_spec(op, l, r)->Ok_0),
{
    match (op, l, r) {
        (Operator::Plus, Json::Array(a), Json::Array(b)) => {
            let c = a + b;
            assert forall|i: int| 0 <= i < c.len() implies json_wf(#[trigger] c[i]) by {
                if i < a.len() {
                    assert(c[i] == a[i]);
                } else {
                    assert(c[i] == b[i - a.len()]);
                }
            }
        },
        (Operator::Plus, Json::Object(a), Json::Object(b)) => {
            lemma_merge_wf(a, b);
        },
        (Operator::Minus, Json::Array(a), Json::Array(b)) => {
            lemma_array_minus_wf(a, b);
        },
        _ => {},
    }
}

/// Path steps keep values well formed: what a step returns from a
/// well-formed value is well formed.
pub proof fn lemma_token_keeps_wf(j: Json, t: Token)
    requires
        json_wf(j),
        token_spec(j, t) is Ok,
    ensures
        forall|i: int|
            0 <= i < token_spec(j, t)->Ok_0.len() ==> json_wf(#[trigger] token_spec(j, t)->Ok_0[i]),
{
    let out = token_spec(j, t)->Ok_0;
    match j {
        Json::Object(o) => {
            lemma_lookup_wf(o, match t {
                Token::Ident(n, _) => n@,
                Token::Index(x) => x.spec_identifier()->Some_0,
                _ => Seq::empty(),
            });
            assert forall|i: int| 0 <= i < out.len() implies json_wf(#[trigger] out[i]) by {}
        },
        Json::Array(a) => {
            assert forall|i: int| 0 <= i < out.len() implies json_wf(#[trigger] out[i]) by {
                if let Token::Range(g) = t {
                    let bd = slice_bounds(g.start, g.end, a.len() as int);
                    assert(out[i] == a[bd.0 + i]);
                }
            }
        },
        Json::Str(x) => {
            lemma_string_positions_wf(x, match t {
                Token::Index(ix) => ix.spec_positions()->Some_0,
                _ => Seq::empty(),
            }, match t {
                Token::Index(ix) => ix.spec_silent(),
                _ => false,
            });
        },
        _ => {},
    }
}

proof fn lemma_string_positions_wf(s: Seq<char>, ps: Seq<isize>, silent: bool)
    ensures
        string_positions(s, ps, silent) matches Ok(out) ==> forall|i: int|
            0 <= i < out.len() ==> (#[trigger] out[i]) is Str,
    decreases ps.len(),
{
    if ps.len() > 0 {
        lemma_string_positions_wf(s, ps.drop_first(), silent);
    }
}

/// Piping: running blocks `a` then blocks `b` is running `b` on what `a`
/// returned; an error of `a` is the result.
pub proof fn lemma_pipeline_composition(inputs: Seq<Json>, a: Seq<Block>, b: Seq<Block>)
    ensures
        query_spec(inputs, a + b) == match query_spec(inputs, a) {
            Ok(vs) => query_spec(vs, b),
            Err(e) => Err(e),
        },
    decreases b.len(),
{
    if b.len() == 0 {
        assert(a + b =~= a);
    } else {
        assert((a + b).drop_last() =~= a + b.drop_last());
        assert((a + b).last() == b.last());
        lemma_pipeline_composition(inputs, a, b.drop_last());
    }
}

/// Comma: the results of a block's actions are the results of each action
/// on the same batch, concatenated in order.
pub proof fn lemma_comma_union(inputs: Seq<Json>, a: Seq<Action>, b: Seq<Action>)
    ensures
        actions_spec(inputs, a + b) == match actions_spec(inputs, a) {
            Ok(x) => match actions_spec(inputs, b) {
                Ok(y) => Ok(x + y),
                Err(e) => Err(e),
            },
            Err(e) => Err(e),
        },
    decreases a.len(),
{
    if a.len() == 0 {
        assert(a + b =~= b);
        if let Ok(y) = actions_spec(inputs, b) {
            assert(Seq::<Json>::empty() + y =~= y);
        }
    } else {
        assert((a + b)[0] == a[0]);
        assert((a + b).drop_first() =~= a.drop_first() + b);
        lemma_comma_union(inputs, a.drop_first(), b);
        if let Ok(r) = crate::pipeline::action_spec(inputs, a[0]) {
            if let Ok(x) = actions_spec(inputs, a.drop_first()) {
                if let Ok(y) = actions_spec(inputs, b) {
                    assert(r + (x + y) =~= (r + x) + y);
                }
            }
        }
    }
}

/// Collect: a collecting block that succeeds returns exactly one value, the
/// array of what its actions returned.
pub proof fn lemma_collect_wraps(inputs: Seq<Json>, b: Block, acts: Vec<Action>)
    requires
        b.actions == Some(acts),
        b.collect,
    ensures
        block_spec(inputs, b) == match actions_spec(inputs, acts@) {
            Ok(r) => Ok(seq![Json::Array(r)]),
            Err(e) => Err::<Seq<Json>, JQError>(e),
        },
{
}

/// An out-of-range array position gives null, silent or not, and position
/// steps on an array never fail.
pub proof fn lemma_array_positions_total(a: Seq<Json>, ps: Seq<isize>, silent: bool)
    ensures
        positions_spec(Json::Array(a), ps, silent) is Ok,
        forall|i: int|
            0 <= i < ps.len() && !(0 <= (if ps[i] < 0 { ps[i] + a.len() } else { ps[i] as int }) < a.len())
                ==> (#[trigger] positions_spec(Json::Array(a), ps, silent)->Ok_0[i]) is Null,
{
    assert forall|i: int|
        0 <= i < ps.len() && !(0 <= (if ps[i] < 0 { ps[i] + a.len() } else { ps[i] as int }) < a.len())
            implies (#[trigger] positions_spec(Json::Array(a), ps, silent)->Ok_0[i]) is Null by {
        assert(array_at(a, ps[i]) is Null);
    }
}

/// Arithmetic on operands of different kinds, the left one not null, is an
/// `EquationError` naming both kinds.
pub proof fn lemma_type_mismatch(op: Operator, l: Json, r: Json)
    requires
        op is Plus || op is Minus || op is Multiply || op is Divide,
        l.kind() != r.kind(),
        !(l is Null),
    ensures
        apply_spec(op, l, r) == Err::<Json, JQError>(JQError::EquationError(l.kind(), r.kind())),
{
}

} // verus!
