use crate::errors::JQError;
use crate::number::{number_from_usize, number_of_u64};
use crate::query::{lemma_lift_done, lemma_lift_start, lemma_lift_step, lemma_prepend_assoc, lift, one, prepend, rview};
use crate::value::{lemma_array_model, lemma_object_model, views, Json, Value};
use vstd::prelude::*;
use vstd::string::StrSliceExecFns;

verus! {

/// `length` of one value: characters of a string, elements of an array,
/// entries of an object, 0 for null, a number itself; booleans have none.
pub open spec fn length_spec(j: Json) -> Result<Json, JQError> {
    match j {
        Json::Str(s) => Ok(Json::Number(number_of_u64(s.len() as u64))),
        Json::Null => Ok(Json::Number(number_of_u64(0))),
        Json::Bool(_) => Err(JQError::FnLength),
        Json::Number(n) => Ok(Json::Number(n)),
        Json::Array(a) => Ok(Json::Number(number_of_u64(a.len() as u64))),
        Json::Object(o) => Ok(Json::Number(number_of_u64(o.len() as u64))),
    }
}

/// `length` as a step from one value to a batch of one.
pub open spec fn length_step() -> spec_fn(Json) -> Result<Seq<Json>, JQError> {
    |j: Json| one(length_spec(j))
}

fn single_length(input: &Value) -> (r: Result<Value, JQError>)
    ensures
        match r {
            Ok(v) => length_spec(input@) == Ok::<Json, JQError>(v@),
            Err(e) => length_spec(input@) == Err::<Json, JQError>(e),
        },
{
    match input {
        Value::String(s) => Ok(Value::Number(number_from_usize(s.as_str().unicode_len()))),
        Value::Null => Ok(Value::Number(number_from_usize(0))),
        Value::Bool(_) => Err(JQError::FnLength),
        Value::Number(x) => Ok(Value::Number(x.clone())),
        Value::Array(array) => {
            proof {
                lemma_array_model(*array);
            }
            Ok(Value::Number(number_from_usize(array.len())))
        },
        Value::Object(obj) => {
            proof {
                lemma_object_model(*obj);
            }
            Ok(Value::Number(number_from_usize(obj.len())))
        },
    }
}

/// `length` of each input, in order.
pub fn fn_length(inputs: &Vec<Value>) -> (r: Result<Vec<Value>, JQError>)
    ensures
        rview(r) == lift(views(inputs@), length_step()),
{
    let ghost f = length_step();
    let ghost vs = views(inputs@);
    proof {
        lemma_lift_start(vs, f);
    }
    let mut results: Vec<Value> = Vec::new();
    let mut i: usize = 0;
    while i < inputs.len()
        invariant
            i <= inputs.len(),
            vs == views(inputs@),
            f == length_step(),
            lift(vs, f) == prepend(views(results@), lift(vs.subrange(i as int, vs.len() as int), f)),
        decreases inputs.len() - i,
    {
        proof {
            lemma_lift_step(vs, f, i as int);
        }
        let v = match single_length(&inputs[i]) {
            Ok(v) => v,
            Err(e) => {
                return Err(e);
            },
        };
        let ghost before = views(results@);
        results.push(v);
        proof {
            assert(views(results@) =~= before + seq![v@]);
            lemma_prepend_assoc(before, seq![v@], lift(vs.subrange(i + 1, vs.len() as int), f));
        }
        i = i + 1;
    }
    proof {
        lemma_lift_done(vs, f, views(results@));
    }
    Ok(results)
}

} // verus!
