use crate::errors::JQError;
use crate::eval::{
    add_spec, add_value, divide_spec, divide_value, equality_spec, equality_value, eview,
    multiply_spec, multiply_value, subtract_spec, subtract_value,
};
use crate::expression_type::ExpressionType;
use crate::operator::Operator;
use crate::token::Token;
use crate::query::{
    lemma_lift_done, lemma_lift_start, lemma_lift_step, lemma_prepend_assoc, lift, one, prepend,
    query_token, rview, token_spec,
};
use crate::value::{views, Json, Value};
use vstd::prelude::*;

verus! {

/// An operator applied to two values.
pub open spec fn apply_spec(op: Operator, l: Json, r: Json) -> Result<Json, JQError> {
    match op {
        Operator::Plus => add_spec(l, r),
        Operator::Minus => subtract_spec(l, r),
        Operator::Multiply => multiply_spec(l, r),
        Operator::Divide => divide_spec(l, r),
        _ => equality_spec(op, l, r),
    }
}

/// An expression evaluated against one value: literals stand for
/// themselves, a path step must give exactly one value, and an operation
/// evaluates its left, then its right operand.
pub open spec fn eval_spec(j: Json, e: ExpressionType) -> Result<Json, JQError>
    decreases e,
{
    match e {
        ExpressionType::Number(n) => Ok(Json::Number(n)),
        ExpressionType::String(s) => Ok(Json::Str(s@)),
        ExpressionType::Ident(t) => match token_spec(j, t) {
            Ok(vs) => if vs.len() == 1 {
                Ok(vs[0])
            } else {
                Err(JQError::NotSingleValue)
            },
            Err(err) => Err(err),
        },
        ExpressionType::Op(op, l, r) => match eval_spec(j, *l) {
            Ok(a) => match eval_spec(j, *r) {
                Ok(b) => apply_spec(op, a, b),
                Err(err) => Err(err),
            },
            Err(err) => Err(err),
        },
    }
}

/// An expression as a step from one value to a batch of one.
pub open spec fn eval_step(e: ExpressionType) -> spec_fn(Json) -> Result<Seq<Json>, JQError> {
    |j: Json| one(eval_spec(j, e))
}

fn eval_op(op: &Operator, left: &Value, right: &Value) -> (r: Result<Value, JQError>)
    ensures
        eview(r) == apply_spec(*op, left@, right@),
{
    match op {
        Operator::Plus => add_value(left, right),
        Operator::Minus => subtract_value(left, right),
        Operator::Multiply => multiply_value(left, right),
        Operator::Divide => divide_value(left, right),
        _ => equality_value(op, left, right),
    }
}

/// A path step in an expression: it must give exactly one value.
fn evaluate_token(input: &Value, token: &Token) -> (r: Result<Value, JQError>)
    ensures
        eview(r) == match token_spec(input@, *token) {
            Ok(vs) => if vs.len() == 1 {
                Ok(vs[0])
            } else {
                Err(JQError::NotSingleValue)
            },
            Err(err) => Err(err),
        },
{
    let mut values = match query_token(input, token) {
        Ok(v) => v,
        Err(e) => {
            return Err(e);
        },
    };
    if values.len() != 1 {
        return Err(JQError::NotSingleValue);
    }
    let v = values.pop().unwrap();
    assert(v@ == views(values@.push(v))[0]);
    Ok(v)
}

/// An expression evaluated against one value.
pub fn eval(input: &Value, expr: &ExpressionType) -> (r: Result<Value, JQError>)
    ensures
        eview(r) == eval_spec(input@, *expr),
    decreases expr,
{
    match expr {
        ExpressionType::Number(n) => Ok(Value::Number(n.clone())),
        ExpressionType::String(s) => Ok(Value::String(s.clone())),
        ExpressionType::Ident(token) => evaluate_token(input, token),
        ExpressionType::Op(op, l, r) => {
            let a = match eval(input, l) {
                Ok(a) => a,
                Err(e) => {
                    return Err(e);
                },
            };
            let b = match eval(input, r) {
                Ok(b) => b,
                Err(e) => {
                    return Err(e);
                },
            };
            eval_op(op, &a, &b)
        },
    }
}

/// An expression evaluated against each input, in order.
pub fn fn_evaluate(inputs: &Vec<Value>, expr: &ExpressionType) -> (r: Result<Vec<Value>, JQError>)
    ensures
        rview(r) == lift(views(inputs@), eval_step(*expr)),
{
    let ghost f = eval_step(*expr);
    let ghost vs = views(inputs@);
    proof {
        lemma_lift_start(vs, f);
    }
    let mut results: Vec<Value> = Vec::new();
    let mut i: usize = 0;
    while i < inputs.len()
        invariant
            i <= inputs.len(),
            vs == views(inputs@),
            f == eval_step(*expr),
            lift(vs, f) == prepend(views(results@), lift(vs.subrange(i as int, vs.len() as int), f)),
        decreases inputs.len() - i,
    {
        proof {
            lemma_lift_step(vs, f, i as int);
        }
        let v = match eval(&inputs[i], expr) {
            Ok(v) => v,
            Err(e) => {
                return Err(e);
            },
        };
        let ghost before = views(results@);
        results.push(v);
        proof {
            assert(views(results@) =~= before + seq![v@]);
            lemma_prepend_assoc(before, seq![v@], lift(vs.subrange(i + 1, vs.len() as int), f));
        }
        i = i + 1;
    }
    proof {
        lemma_lift_done(vs, f, views(results@));
    }
    Ok(results)
}

} // verus!
