use crate::errors::JQError;
use crate::index_type::IndexType;
use crate::range_type::{slice_bounds, RangeType};
use crate::token::Token;
use crate::value::{
    entries, lemma_array_model, lemma_object_model, lookup, object_get, slice_values, views, Json,
    Value,
};
use vstd::prelude::*;
use vstd::string::StrSliceExecFns;

verus! {

/// Prefixes `p` to a successful result; an error passes through.
pub open spec fn prepend(p: Seq<Json>, r: Result<Seq<Json>, JQError>) -> Result<Seq<Json>, JQError> {
    match r {
        Ok(x) => Ok(p + x),
        Err(e) => Err(e),
    }
}

/// Applies `f` to each input in order and concatenates the results; the
/// first error stops the walk and is the result.
pub open spec fn lift(
    inputs: Seq<Json>,
    f: spec_fn(Json) -> Result<Seq<Json>, JQError>,
) -> Result<Seq<Json>, JQError>
    decreases inputs.len(),
{
    if inputs.len() == 0 {
        Ok(Seq::empty())
    } else {
        match f(inputs[0]) {
            Ok(r) => prepend(r, lift(inputs.drop_first(), f)),
            Err(e) => Err(e),
        }
    }
}

/// The model of a computed result.
pub open spec fn rview(r: Result<Vec<Value>, JQError>) -> Result<Seq<Json>, JQError> {
    match r {
        Ok(v) => Ok(views(v@)),
        Err(e) => Err(e),
    }
}

/// One step of a walk over `inputs`: what is left after position `i`.
pub proof fn lemma_lift_step(
    inputs: Seq<Json>,
    f: spec_fn(Json) -> Result<Seq<Json>, JQError>,
    i: int,
)
    requires
        0 <= i < inputs.len(),
    ensures
        lift(inputs.subrange(i, inputs.len() as int), f) == match f(inputs[i]) {
            Ok(r) => prepend(r, lift(inputs.subrange(i + 1, inputs.len() as int), f)),
            Err(e) => Err(e),
        },
{
    let rest = inputs.subrange(i, inputs.len() as int);
    assert(rest[0] == inputs[i]);
    assert(rest.drop_first() =~= inputs.subrange(i + 1, inputs.len() as int));
}

pub proof fn lemma_prepend_empty(r: Result<Seq<Json>, JQError>)
    ensures
        prepend(Seq::empty(), r) == r,
{
    if let Ok(x) = r {
        assert(Seq::<Json>::empty() + x =~= x);
    }
}

/// A walk that has reached the end.
pub proof fn lemma_lift_done(inputs: Seq<Json>, f: spec_fn(Json) -> Result<Seq<Json>, JQError>, out: Seq<Json>)
    ensures
        prepend(out, lift(inputs.subrange(inputs.len() as int, inputs.len() as int), f)) == Ok::<Seq<Json>, JQError>(out),
{
    assert(inputs.subrange(inputs.len() as int, inputs.len() as int).len() == 0);
    assert(out + Seq::<Json>::empty() =~= out);
}

/// A walk that has not started.
pub proof fn lemma_lift_start(inputs: Seq<Json>, f: spec_fn(Json) -> Result<Seq<Json>, JQError>)
    ensures
        lift(inputs, f) == prepend(Seq::empty(), lift(inputs.subrange(0, inputs.len() as int), f)),
{
    assert(inputs.subrange(0, inputs.len() as int) =~= inputs);
    lemma_prepend_empty(lift(inputs, f));
}

/// A result of one value per input.
pub open spec fn one(r: Result<Json, JQError>) -> Result<Seq<Json>, JQError> {
    match r {
        Ok(v) => Ok(seq![v]),
        Err(e) => Err(e),
    }
}

pub proof fn lemma_prepend_assoc(p: Seq<Json>, q: Seq<Json>, r: Result<Seq<Json>, JQError>)
    ensures
        prepend(p, prepend(q, r)) == prepend(p + q, r),
{
    if let Ok(x) = r {
        assert(p + (q + x) =~= (p + q) + x);
    }
}

/// `.name` on one value: an object gives the field, or null where it is
/// absent; any other value gives nothing if silent, else an error.
pub open spec fn ident_spec(j: Json, name: Seq<char>, silent: bool) -> Result<Seq<Json>, JQError> {
    match j {
        Json::Object(o) => Ok(
            seq![
                match lookup(o, name) {
                    Some(v) => v,
                    None => Json::Null,
                },
            ],
        ),
        _ => if silent {
            Ok(Seq::empty())
        } else {
            Err(JQError::IdentMismatch(j.kind()))
        },
    }
}

/// The element of `a` at position `p`, counted from the end when negative;
/// null when out of range.
pub open spec fn array_at(a: Seq<Json>, p: isize) -> Json {
    let q: int = if p < 0 { p + a.len() } else { p as int };
    if 0 <= q < a.len() {
        a[q]
    } else {
        Json::Null
    }
}

/// Positions into a string: each selects one character, counted from the
/// end when negative; one out of range is skipped if silent, else an error.
pub open spec fn string_positions(s: Seq<char>, ps: Seq<isize>, silent: bool) -> Result<Seq<Json>, JQError>
    decreases ps.len(),
{
    if ps.len() == 0 {
        Ok(Seq::empty())
    } else {
        let p = ps[0];
        let q: int = if p < 0 { p + s.len() } else { p as int };
        if 0 <= q < s.len() {
            prepend(seq![Json::Str(seq![s[q]])], string_positions(s, ps.drop_first(), silent))
        } else if silent {
            string_positions(s, ps.drop_first(), silent)
        } else {
            Err(JQError::ArrayQuery(p))
        }
    }
}

/// Position steps on one value.
pub open spec fn positions_spec(j: Json, ps: Seq<isize>, silent: bool) -> Result<Seq<Json>, JQError> {
    match j {
        Json::Object(_) => Err(JQError::BadIndexType),
        Json::Array(a) => Ok(ps.map_values(|p: isize| array_at(a, p))),
        Json::Str(s) => string_positions(s, ps, silent),
        _ => Ok(seq![j]),
    }
}

/// An index step on one value: a key looks up an object field, positions
/// select array elements or string characters, and other values pass
/// through unchanged.
pub open spec fn index_spec(j: Json, idx: IndexType) -> Result<Seq<Json>, JQError> {
    match j {
        Json::Object(o) => match idx.spec_identifier() {
            Some(k) => match lookup(o, k) {
                Some(v) => Ok(seq![v]),
                None => if idx.spec_silent() {
                    Ok(Seq::empty())
                } else {
                    Err(JQError::ObjectQuery(idx.spec_key()))
                },
            },
            None => Err(JQError::BadIndexType),
        },
        _ => match idx.spec_positions() {
            Some(ps) => positions_spec(j, ps, idx.spec_silent()),
            None => if j is Array || j is Str {
                Err(JQError::BadIndexType)
            } else {
                Ok(seq![j])
            },
        },
    }
}

/// A range step on one value: the values of an object (whole range only),
/// a slice of an array (its elements) or of a string (one string).
pub open spec fn range_spec(j: Json, r: RangeType) -> Result<Seq<Json>, JQError> {
    match j {
        Json::Object(o) => if r.start is None && r.end is None {
            Ok(o.map_values(|e: (Seq<char>, Json)| e.1))
        } else {
            Err(JQError::UnsupportedRange)
        },
        Json::Array(a) => {
            let b = slice_bounds(r.start, r.end, a.len() as int);
            Ok(a.subrange(b.0, b.1))
        },
        Json::Str(s) => {
            let b = slice_bounds(r.start, r.end, s.len() as int);
            Ok(seq![Json::Str(s.subrange(b.0, b.1))])
        },
        _ => Ok(seq![j]),
    }
}

/// One path step on one value.
pub open spec fn token_spec(j: Json, t: Token) -> Result<Seq<Json>, JQError> {
    match t {
        Token::Identity => Ok(seq![j]),
        Token::Ident(name, silent) => ident_spec(j, name@, silent),
        Token::Range(r) => range_spec(j, r),
        Token::Index(i) => index_spec(j, i),
    }
}

/// A whole path on a batch: each step is applied to every value that the
/// previous step produced.
pub open spec fn filter_spec(inputs: Seq<Json>, tokens: Seq<Token>) -> Result<Seq<Json>, JQError>
    decreases tokens.len(),
{
    if tokens.len() == 0 {
        Ok(inputs)
    } else {
        match filter_spec(inputs, tokens.drop_last()) {
            Ok(vs) => lift(vs, |j: Json| token_spec(j, tokens.last())),
            Err(e) => Err(e),
        }
    }
}

/// `.name` on an object: the field, or null where it is absent.
pub fn query_object_ident(object: &Vec<(String, Value)>, id: &String) -> (r: Result<Vec<Value>, JQError>)
    ensures
        rview(r) == ident_spec(Value::Object(*object)@, id@, false),
{
    proof {
        lemma_object_model(*object);
    }
    let v = match object_get(object, id) {
        Some(v) => v.deep_clone(),
        None => Value::Null,
    };
    let r = vec![v];
    assert(views(r@) =~= seq![v@]);
    Ok(r)
}

/// `["key"]` on an object.
pub fn query_object_index(object: &Vec<(String, Value)>, idx: &IndexType) -> (r: Result<Vec<Value>, JQError>)
    ensures
        rview(r) == index_spec(Value::Object(*object)@, *idx),
{
    proof {
        lemma_object_model(*object);
    }
    let (key, silent) = match idx.as_identifier() {
        Ok(p) => p,
        Err(e) => {
            return Err(e);
        },
    };
    match object_get(object, key) {
        Some(v) => {
            let r = vec![v.deep_clone()];
            assert(views(r@) =~= seq![v@]);
            Ok(r)
        },
        None => {
            if silent {
                let r: Vec<Value> = Vec::new();
                assert(views(r@) =~= Seq::<Json>::empty());
                Ok(r)
            } else {
                Err(JQError::ObjectQuery(key.clone()))
            }
        },
    }
}

/// `[]` on an object: its values in entry order; other ranges are refused.
fn query_object_range(object: &Vec<(String, Value)>, range: &RangeType) -> (r: Result<Vec<Value>, JQError>)
    ensures
        rview(r) == range_spec(Value::Object(*object)@, *range),
{
    proof {
        lemma_object_model(*object);
    }
    if !range.is_empty() {
        return Err(JQError::UnsupportedRange);
    }
    let ghost target = entries(object@).map_values(|e: (Seq<char>, Json)| e.1);
    let mut values: Vec<Value> = Vec::new();
    let mut i: usize = 0;
    while i < object.len()
        invariant
            i <= object.len(),
            target == entries(object@).map_values(|e: (Seq<char>, Json)| e.1),
            values.len() == i,
            views(values@) =~= target.take(i as int),
        decreases object.len() - i,
    {
        let v = object[i].1.deep_clone();
        values.push(v);
        assert(views(values@)[i as int] == target[i as int]);
        i = i + 1;
    }
    assert(target.take(object.len() as int) =~= target);
    Ok(values)
}

/// Position steps on an array: negative positions count from the end, and
/// a position out of range gives null, silent or not.
pub fn query_array_index(array: &Vec<Value>, idx: &IndexType) -> (r: Result<Vec<Value>, JQError>)
    ensures
        rview(r) == index_spec(Value::Array(*array)@, *idx),
{
    proof {
        lemma_array_model(*array);
    }
    let (indexes, _silent) = match idx.as_index() {
        Ok(p) => p,
        Err(e) => {
            return Err(e);
        },
    };
    let ghost a = views(array@);
    let mut results: Vec<Value> = Vec::new();
    let mut i: usize = 0;
    while i < indexes.len()
        invariant
            i <= indexes.len(),
            a == views(array@),
            results.len() == i,
            forall|k: int| 0 <= k < i ==> views(results@)[k] == array_at(a, #[trigger] indexes@[k]),
        decreases indexes.len() - i,
    {
        let p = indexes[i];
        let len = array.len() as i128;
        let q: i128 = if p < 0 { p as i128 + len } else { p as i128 };
        let v = if 0 <= q && q < len {
            array[q as usize].deep_clone()
        } else {
            Value::Null
        };
        assert(v@ == array_at(a, p));
        results.push(v);
        assert(views(results@)[i as int] == array_at(a, p));
        i = i + 1;
    }
    assert(views(results@) =~= indexes@.map_values(|p: isize| array_at(a, p)));
    Ok(results)
}

/// Position steps on a string: each gives a one-character string.
#[verifier::loop_isolation(false)]
fn query_string_index(input: &String, idx: &IndexType) -> (r: Result<Vec<Value>, JQError>)
    ensures
        rview(r) == index_spec(Json::Str(input@), *idx),
{
    let (indexes, silent) = match idx.as_index() {
        Ok(p) => p,
        Err(e) => {
            return Err(e);
        },
    };
    let s = input.as_str();
    let n = s.unicode_len();
    let ghost full = string_positions(input@, indexes@, silent);
    let mut results: Vec<Value> = Vec::new();
    let mut i: usize = 0;
    assert(indexes@.subrange(0, indexes.len() as int) =~= indexes@);
    while i < indexes.len()
        invariant
            i <= indexes.len(),
            n == input@.len(),
            s@ == input@,
            full == string_positions(input@, indexes@, silent),
            full == prepend(views(results@), string_positions(input@, indexes@.subrange(i as int, indexes.len() as int), silent)),
        decreases indexes.len() - i,
    {
        let ghost rest = indexes@.subrange(i as int, indexes.len() as int);
        assert(rest[0] == indexes@[i as int]);
        assert(rest.drop_first() =~= indexes@.subrange(i + 1, indexes.len() as int));
        let p = indexes[i];
        let len = n as i128;
        let q: i128 = if p < 0 { p as i128 + len } else { p as i128 };
        if 0 <= q && q < len {
            let c = s.substring_char(q as usize, q as usize + 1).to_owned();
            assert(c@ =~= seq![input@[q as int]]);
            let ghost before = views(results@);
            results.push(Value::String(c));
            assert(views(results@) =~= before + seq![Json::Str(seq![input@[q as int]])]);
            proof {
                lemma_prepend_assoc(
                    before,
                    seq![Json::Str(seq![input@[q as int]])],
                    string_positions(input@, indexes@.subrange(i + 1, indexes.len() as int), silent),
                );
            }
        } else if !silent {
            assert(string_positions(input@, rest, silent) == Err::<Seq<Json>, JQError>(JQError::ArrayQuery(p)));
            return Err(JQError::ArrayQuery(p));
        }
        i = i + 1;
    }
    assert(views(results@) + Seq::<Json>::empty() =~= views(results@));
    Ok(results)
}

/// A range step on an array: the selected elements.
fn query_array_range(array: &Vec<Value>, range: &RangeType) -> (r: Result<Vec<Value>, JQError>)
    ensures
        rview(r) == range_spec(Value::Array(*array)@, *range),
{
    proof {
        lemma_array_model(*array);
    }
    let (start, end) = range.as_slice(array.len());
    Ok(slice_values(array, start, end))
}

/// A range step on a string: the selected substring, as one value.
fn query_string_range(input: &String, range: &RangeType) -> (r: Result<Vec<Value>, JQError>)
    ensures
        rview(r) == range_spec(Json::Str(input@), *range),
{
    let s = input.as_str();
    let n = s.unicode_len();
    let (start, end) = range.as_slice(n);
    let sub = s.substring_char(start, end).to_owned();
    let r = vec![Value::String(sub)];
    assert(views(r@) =~= seq![Json::Str(input@.subrange(start as int, end as int))]);
    Ok(r)
}

/// `.`: the input itself.
pub fn query_identity(input: &Value) -> (r: Result<Vec<Value>, JQError>)
    ensures
        rview(r) == token_spec(input@, Token::Identity),
{
    let r = vec![input.deep_clone()];
    assert(views(r@) =~= seq![input@]);
    Ok(r)
}

/// `.name` on one value.
pub fn query_ident(input: &Value, id: &String, silent: bool) -> (r: Result<Vec<Value>, JQError>)
    ensures
        rview(r) == ident_spec(input@, id@, silent),
{
    match input {
        Value::Object(object) => query_object_ident(object, id),
        _ => {
            if silent {
                let v: Vec<Value> = Vec::new();
                assert(views(v@) =~= Seq::<Json>::empty());
                return Ok(v);
            }
            Err(JQError::IdentMismatch(input.kind()))
        },
    }
}

/// A range step on one value.
pub fn query_range(input: &Value, range: &RangeType) -> (r: Result<Vec<Value>, JQError>)
    ensures
        rview(r) == range_spec(input@, *range),
{
    match input {
        Value::Object(object) => query_object_range(object, range),
        Value::Array(array) => query_array_range(array, range),
        Value::String(s) => query_string_range(s, range),
        _ => query_identity(input),
    }
}

/// An index step on one value.
pub fn query_index(input: &Value, index: &IndexType) -> (r: Result<Vec<Value>, JQError>)
    ensures
        rview(r) == index_spec(input@, *index),
{
    match input {
        Value::Object(object) => query_object_index(object, index),
        Value::Array(array) => query_array_index(array, index),
        Value::String(s) => query_string_index(s, index),
        _ => query_identity(input),
    }
}

/// One step on one value.
pub fn query_token(input: &Value, token: &Token) -> (r: Result<Vec<Value>, JQError>)
    ensures
        rview(r) == token_spec(input@, *token),
{
    match token {
        Token::Identity => query_identity(input),
        Token::Ident(ident, silent) => query_ident(input, ident, *silent),
        Token::Range(range) => query_range(input, range),
        Token::Index(index) => query_index(input, index),
    }
}

} // verus!
