use crate::errors::JQError;
use crate::query::{lemma_lift_done, lemma_lift_start, lemma_lift_step, lemma_prepend_assoc, lift, prepend, rview};
use crate::value::{lemma_array_model, lemma_object_model, views, Json, Value};
use vstd::prelude::*;

verus! {

broadcast use vstd::std_specs::vec::axiom_vec_index_decreases;

/// The preorder walks of the children of a value, one sequence per child.
pub open spec fn child_walks(j: Json) -> Seq<Seq<Json>>
    decreases j, 0nat,
{
    match j {
        Json::Array(a) => Seq::new(
            a.len(),
            |i: int|
                if 0 <= i < a.len() {
                    preorder(a[i])
                } else {
                    Seq::empty()
                },
        ),
        Json::Object(o) => Seq::new(
            o.len(),
            |i: int|
                if 0 <= i < o.len() {
                    preorder(o[i].1)
                } else {
                    Seq::empty()
                },
        ),
        _ => Seq::empty(),
    }
}

/// Depth-first preorder: the value itself, then the walk of each child in
/// order (array elements, or object values in entry order).
pub open spec fn preorder(j: Json) -> Seq<Json>
    decreases j, 1nat,
{
    seq![j] + child_walks(j).flatten_alt()
}

/// `recurse` as a step from one value to a batch.
pub open spec fn recurse_step() -> spec_fn(Json) -> Result<Seq<Json>, JQError> {
    |j: Json| Ok(preorder(j))
}

/// Appends the preorder walk of `value` to `out`.
#[verifier::loop_isolation(false)]
fn recurse_single_value(value: &Value, out: &mut Vec<Value>)
    ensures
        views(final(out)@) == views(old(out)@) + preorder(value@),
    decreases value,
{
    let ghost start = views(out@);
    let ghost walks = child_walks(value@);
    out.push(value.deep_clone());
    assert(views(out@) =~= start + seq![value@]);
    match value {
        Value::Array(array) => {
            proof {
                lemma_array_model(*array);
            }
            let mut i: usize = 0;
            while i < array.len()
                invariant
                    i <= array.len(),
                    views(out@) == start + seq![value@] + walks.take(i as int).flatten_alt(),
                decreases array.len() - i,
            {
                proof {
                    assert(decreases_to!(*value => array[i as int]));
                    assert(walks.take(i + 1).drop_last() =~= walks.take(i as int));
                    assert(walks.take(i + 1).last() == preorder(array@[i as int]@));
                }
                recurse_single_value(&array[i], out);
                assert(views(out@) =~= start + seq![value@] + walks.take(i + 1).flatten_alt());
                i = i + 1;
            }
            assert(walks.take(array.len() as int) =~= walks);
        },
        Value::Object(object) => {
            proof {
                lemma_object_model(*object);
            }
            let mut i: usize = 0;
            while i < object.len()
                invariant
                    i <= object.len(),
                    views(out@) == start + seq![value@] + walks.take(i as int).flatten_alt(),
                decreases object.len() - i,
            {
                proof {
                    assert(decreases_to!(*value => object[i as int].1));
                    assert(walks.take(i + 1).drop_last() =~= walks.take(i as int));
                    assert(walks.take(i + 1).last() == preorder(object@[i as int].1@));
                }
                recurse_single_value(&object[i].1, out);
                assert(views(out@) =~= start + seq![value@] + walks.take(i + 1).flatten_alt());
                i = i + 1;
            }
            assert(walks.take(object.len() as int) =~= walks);
        },
        _ => {
            assert(walks.take(0) =~= walks);
        },
    }
    assert(views(out@) =~= start + preorder(value@));
}

/// The preorder walk of each input, concatenated in order.
pub fn fn_recurse(values: &Vec<Value>) -> (r: Result<Vec<Value>, JQError>)
    ensures
        r is Ok,
        rview(r) == lift(views(values@), recurse_step()),
{
    let ghost f = recurse_step();
    let ghost vs = views(values@);
    proof {
        lemma_lift_start(vs, f);
    }
    let mut results: Vec<Value> = Vec::new();
    let mut i: usize = 0;
    while i < values.len()
        invariant
            i <= values.len(),
            vs == views(values@),
            f == recurse_step(),
            lift(vs, f) == prepend(views(results@), lift(vs.subrange(i as int, vs.len() as int), f)),
        decreases values.len() - i,
    {
        proof {
            lemma_lift_step(vs, f, i as int);
        }
        let ghost before = views(results@);
        recurse_single_value(&values[i], &mut results);
        proof {
            lemma_prepend_assoc(before, preorder(vs[i as int]), lift(vs.subrange(i + 1, vs.len() as int), f));
        }
        i = i + 1;
    }
    proof {
        lemma_lift_done(vs, f, views(results@));
    }
    Ok(results)
}

} // verus!
