use crate::errors::JQError;
use crate::has_type::HasType;
use crate::query::{
    ident_spec, lemma_lift_done, lemma_lift_start, lemma_lift_step, lemma_prepend_assoc, lift, one,
    positions_spec, prepend, query_token, rview,
};
use crate::token::Token;
use crate::value::{views, Json, Value};
use vstd::prelude::*;

verus! {

/// What resolving the argument of `has` gives on one value: a key is a
/// field lookup and a position a one-position index, neither silent.
pub open spec fn has_lookup(j: Json, h: HasType) -> Result<Seq<Json>, JQError> {
    match h.spec_ident() {
        Some(k) => ident_spec(j, k, false),
        None => positions_spec(j, seq![h.spec_index()->Some_0], false),
    }
}

/// `has(h)` on one value: true when the lookup succeeds with a first value
/// that is not null; a failed lookup is false, not an error.
pub open spec fn has_spec(j: Json, h: HasType) -> Json {
    let r = has_lookup(j, h);
    Json::Bool(r is Ok && r->Ok_0.len() > 0 && !(r->Ok_0[0] is Null))
}

/// `has(h)` as a step from one value to a batch of one.
pub open spec fn has_step(h: HasType) -> spec_fn(Json) -> Result<Seq<Json>, JQError> {
    |j: Json| one(Ok(has_spec(j, h)))
}

/// `has(h)` on each input, in order; lookups that fail give false, and the
/// only error is an argument with neither or both of its parts.
pub fn fn_has(inputs: &Vec<Value>, has: &HasType) -> (r: Result<Vec<Value>, JQError>)
    ensures
        has.wf() ==> r is Ok && rview(r) == lift(views(inputs@), has_step(*has)),
        !(has.wf()) ==> r == Err::<Vec<Value>, JQError>(JQError::MalformedIndexType),
{
    if has.is_ident() == has.is_index() {
        return Err(JQError::MalformedIndexType);
    }
    let ghost f = has_step(*has);
    let ghost vs = views(inputs@);
    proof {
        lemma_lift_start(vs, f);
    }
    let token = Token::from_has(has);
    let mut results: Vec<Value> = Vec::new();
    let mut i: usize = 0;
    while i < inputs.len()
        invariant
            i <= inputs.len(),
            vs == views(inputs@),
            f == has_step(*has),
            has.wf(),
            crate::token::has_token(*has, token),
            lift(vs, f) == prepend(views(results@), lift(vs.subrange(i as int, vs.len() as int), f)),
        decreases inputs.len() - i,
    {
        proof {
            lemma_lift_step(vs, f, i as int);
        }
        let found = match query_token(&inputs[i], &token) {
            Ok(r) => r.len() > 0 && !r[0].is_null(),
            Err(_) => false,
        };
        let v = Value::Bool(found);
        assert(v@ == has_spec(vs[i as int], *has));
        let ghost before = views(results@);
        results.push(v);
        proof {
            assert(views(results@) =~= before + seq![v@]);
            lemma_prepend_assoc(before, seq![v@], lift(vs.subrange(i + 1, vs.len() as int), f));
        }
        i = i + 1;
    }
    proof {
        lemma_lift_done(vs, f, views(results@));
    }
    Ok(results)
}

} // verus!
