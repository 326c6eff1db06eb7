use crate::errors::JQError;
use crate::keys::{str_lt, string_less};
use crate::number::{
    add_numbers, divide_numbers, multiply_numbers, number_difference, number_less, number_lt,
    number_product, number_quotient, number_sum, subtract_numbers,
};
use crate::operator::Operator;
use crate::value::{
    entries, json_eq, json_wf, keys_distinct, lemma_array_model, lookup, lemma_object_model, values_equal, views, Json, Kind, Value,
};
use vstd::prelude::*;
use vstd::pervasive::VecAdditionalExecFns;
use vstd::string::StringExecFns;

verus! {

/// The model of a computed value.
pub open spec fn eview(r: Result<Value, JQError>) -> Result<Json, JQError> {
    match r {
        Ok(v) => Ok(v@),
        Err(e) => Err(e),
    }
}

/// The error for an operator that does not combine these two values.
pub open spec fn mismatch(l: Json, r: Json) -> Result<Json, JQError> {
    Err(JQError::EquationError(l.kind(), r.kind()))
}

/// A computed number; null where the result is not a finite number.
pub open spec fn number_result(n: Option<serde_json::Number>) -> Json {
    match n {
        Some(x) => Json::Number(x),
        None => Json::Null,
    }
}

/// The entries of `o` with `k` bound to `v`: the first entry with key `k`
/// takes the new value in place, or a new entry is appended.
pub open spec fn set_entry(o: Seq<(Seq<char>, Json)>, k: Seq<char>, v: Json) -> Seq<(Seq<char>, Json)>
    decreases o.len(),
{
    if o.len() == 0 {
        seq![(k, v)]
    } else if o[0].0 == k {
        o.update(0, (k, v))
    } else {
        seq![o[0]] + set_entry(o.drop_first(), k, v)
    }
}

/// Every value bound in the entries is well formed.
pub open spec fn values_wf(o: Seq<(Seq<char>, Json)>) -> bool {
    forall|i: int| 0 <= i < o.len() ==> json_wf(#[trigger] o[i].1)
}

/// `set_entry` is map insertion on entries with distinct keys: the keys
/// stay distinct, every key is an old key or `k`, values stay well formed,
/// and `k` is then bound to `v`.
pub proof fn lemma_set_entry_wf(o: Seq<(Seq<char>, Json)>, k: Seq<char>, v: Json)
    requires
        keys_distinct(o),
        values_wf(o),
        json_wf(v),
    ensures
        keys_distinct(set_entry(o, k, v)),
        values_wf(set_entry(o, k, v)),
        forall|i: int|
            0 <= i < set_entry(o, k, v).len() ==> (#[trigger] set_entry(o, k, v)[i]).0 == k || exists|j: int|
                0 <= j < o.len() && o[j].0 == set_entry(o, k, v)[i].0,
        lookup(set_entry(o, k, v), k) == Some(v),
    decreases o.len(),
{
    if o.len() == 0 {
    } else if o[0].0 == k {
        let r = o.update(0, (k, v));
        assert forall|i: int| 0 <= i < r.len() implies (#[trigger] r[i]).0 == k || exists|j: int|
            0 <= j < o.len() && o[j].0 == r[i].0 by {
            if i > 0 {
                assert(o[i].0 == r[i].0);
            }
        }
    } else {
        let t = o.drop_first();
        assert(keys_distinct(t)) by {
            assert forall|i: int, j: int| 0 <= i < j < t.len() implies (#[trigger] t[i]).0 != (#[trigger] t[j]).0 by {
                assert(t[i] == o[i + 1] && t[j] == o[j + 1]);
            }
        }
        assert(values_wf(t)) by {
            assert forall|i: int| 0 <= i < t.len() implies json_wf(#[trigger] t[i].1) by {
                assert(t[i] == o[i + 1]);
            }
        }
        lemma_set_entry_wf(t, k, v);
        let u = set_entry(t, k, v);
        let r = seq![o[0]] + u;
        assert(r == set_entry(o, k, v));
        assert forall|i: int| 0 <= i < r.len() implies (#[trigger] r[i]).0 == k || exists|j: int|
            0 <= j < o.len() && o[j].0 == r[i].0 by {
            if i == 0 {
                assert(o[0].0 == r[0].0);
            } else {
                assert(r[i] == u[i - 1]);
                if u[i - 1].0 != k {
                    let j = choose|j: int| 0 <= j < t.len() && t[j].0 == u[i - 1].0;
                    assert(o[j + 1].0 == r[i].0);
                }
            }
        }
        assert forall|i: int, j: int| 0 <= i < j < r.len() implies (#[trigger] r[i]).0 != (#[trigger] r[j]).0 by {
            if i == 0 {
                assert(r[j] == u[j - 1]);
                if u[j - 1].0 != k {
                    let m = choose|m: int| 0 <= m < t.len() && t[m].0 == u[j - 1].0;
                    assert(o[m + 1].0 == u[j - 1].0);
                }
            } else {
                assert(r[i] == u[i - 1] && r[j] == u[j - 1]);
            }
        }
        assert forall|i: int| 0 <= i < r.len() implies json_wf(#[trigger] r[i].1) by {
            if i > 0 {
                assert(r[i] == u[i - 1]);
            }
        }
        assert(r.drop_first() =~= u);
    }
}

/// Merging entries with distinct keys keeps them distinct and the values
/// well formed.
pub proof fn lemma_merge_wf(a: Seq<(Seq<char>, Json)>, b: Seq<(Seq<char>, Json)>)
    requires
        keys_distinct(a),
        values_wf(a),
        values_wf(b),
    ensures
        keys_distinct(merge(a, b)),
        values_wf(merge(a, b)),
    decreases b.len(),
{
    if b.len() > 0 {
        lemma_set_entry_wf(a, b[0].0, b[0].1);
        let t = b.drop_first();
        assert(values_wf(t)) by {
            assert forall|i: int| 0 <= i < t.len() implies json_wf(#[trigger] t[i].1) by {
                assert(t[i] == b[i + 1]);
            }
        }
        lemma_merge_wf(set_entry(a, b[0].0, b[0].1), t);
    }
}

/// The entries of `a` updated by each entry of `b` in turn.
pub open spec fn merge(a: Seq<(Seq<char>, Json)>, b: Seq<(Seq<char>, Json)>) -> Seq<(Seq<char>, Json)>
    decreases b.len(),
{
    if b.len() == 0 {
        a
    } else {
        merge(set_entry(a, b[0].0, b[0].1), b.drop_first())
    }
}

/// Whether `s` holds a value equal to `x`.
pub open spec fn holds(s: Seq<Json>, x: Json) -> bool {
    exists|k: int| 0 <= k < s.len() && json_eq(#[trigger] s[k], x)
}

/// The elements of `a` that `b` does not hold, in order.
pub open spec fn array_minus(a: Seq<Json>, b: Seq<Json>) -> Seq<Json>
    decreases a.len(),
{
    if a.len() == 0 {
        a
    } else if holds(b, a.last()) {
        array_minus(a.drop_last(), b)
    } else {
        array_minus(a.drop_last(), b).push(a.last())
    }
}

/// `l + r`: null yields the right operand; numbers add; strings, arrays
/// concatenate; objects merge with the right operand's keys winning.
pub open spec fn add_spec(l: Json, r: Json) -> Result<Json, JQError> {
    match l {
        Json::Null => Ok(r),
        Json::Number(a) => match r {
            Json::Number(b) => Ok(number_result(number_sum(a, b))),
            _ => mismatch(l, r),
        },
        Json::Str(a) => match r {
            Json::Str(b) => Ok(Json::Str(a + b)),
            _ => mismatch(l, r),
        },
        Json::Array(a) => match r {
            Json::Array(b) => Ok(Json::Array(a + b)),
            _ => mismatch(l, r),
        },
        Json::Object(a) => match r {
            Json::Object(b) => Ok(Json::Object(merge(a, b))),
            _ => mismatch(l, r),
        },
        Json::Bool(_) => mismatch(l, r),
    }
}

/// `l - r`: numbers subtract; arrays keep the left elements that the
/// right does not hold. Unlike `+`, a null left operand is an error.
pub open spec fn subtract_spec(l: Json, r: Json) -> Result<Json, JQError> {
    match l {
        Json::Number(a) => match r {
            Json::Number(b) => Ok(number_result(number_difference(a, b))),
            _ => mismatch(l, r),
        },
        Json::Array(a) => match r {
            Json::Array(b) => Ok(Json::Array(array_minus(a, b))),
            _ => mismatch(l, r),
        },
        _ => mismatch(l, r),
    }
}

/// `l * r`: null yields the right operand; numbers multiply.
pub open spec fn multiply_spec(l: Json, r: Json) -> Result<Json, JQError> {
    match l {
        Json::Null => Ok(r),
        Json::Number(a) => match r {
            Json::Number(b) => Ok(number_result(number_product(a, b))),
            _ => mismatch(l, r),
        },
        _ => mismatch(l, r),
    }
}

/// `l / r`: null yields the right operand; numbers divide.
pub open spec fn divide_spec(l: Json, r: Json) -> Result<Json, JQError> {
    match l {
        Json::Null => Ok(r),
        Json::Number(a) => match r {
            Json::Number(b) => Ok(number_result(number_quotient(a, b))),
            _ => mismatch(l, r),
        },
        _ => mismatch(l, r),
    }
}

/// The order of two values: -1, 0 or 1. Values of different kinds order by
/// kind (null, bool, number, string, array, object); booleans order false
/// first, numbers by magnitude, strings lexicographically, arrays by length.
/// Objects have no order.
pub open spec fn compare_spec(l: Json, r: Json) -> Result<int, JQError> {
    if l.kind() != r.kind() {
        Ok(if l.kind().rank() < r.kind().rank() { -1 } else { 1 })
    } else {
        match l {
            Json::Null => Ok(0),
            Json::Bool(a) => Ok(
                if a == r->Bool_0 {
                    0
                } else if !a {
                    -1
                } else {
                    1
                },
            ),
            Json::Number(a) => Ok(
                if number_lt(a, r->Number_0) {
                    -1
                } else if number_lt(r->Number_0, a) {
                    1
                } else {
                    0
                },
            ),
            Json::Str(a) => Ok(
                if str_lt(a, r->Str_0) {
                    -1
                } else if str_lt(r->Str_0, a) {
                    1
                } else {
                    0
                },
            ),
            Json::Array(a) => Ok(
                if a.len() < r->Array_0.len() {
                    -1
                } else if a.len() > r->Array_0.len() {
                    1
                } else {
                    0
                },
            ),
            Json::Object(_) => Err(JQError::EquationError(Kind::Object, Kind::Object)),
        }
    }
}

/// Whether an order satisfies an ordering operator.
pub open spec fn order_holds(op: Operator, c: int) -> bool {
    match op {
        Operator::Gt => c > 0,
        Operator::Lt => c < 0,
        Operator::Gte => c >= 0,
        _ => c <= 0,
    }
}

/// A comparison operator on two values: `==` and `!=` by `json_eq` across
/// all kinds, the orderings by `compare_spec`.
pub open spec fn equality_spec(op: Operator, l: Json, r: Json) -> Result<Json, JQError> {
    match op {
        Operator::Equal => Ok(Json::Bool(json_eq(l, r))),
        Operator::NotEqual => Ok(Json::Bool(!json_eq(l, r))),
        Operator::Gt | Operator::Lt | Operator::Gte | Operator::Lte => match compare_spec(l, r) {
            Ok(c) => Ok(Json::Bool(order_holds(op, c))),
            Err(e) => Err(e),
        },
        _ => mismatch(l, r),
    }
}

fn number_value(n: Option<serde_json::Number>) -> (r: Value)
    ensures
        r@ == number_result(n),
{
    match n {
        Some(x) => Value::Number(x),
        None => Value::Null,
    }
}

fn mismatch_error(left: &Value, right: &Value) -> (r: Result<Value, JQError>)
    ensures
        eview(r) == mismatch(left@, right@),
{
    Err(JQError::EquationError(left.kind(), right.kind()))
}

proof fn lemma_set_entry_at(o: Seq<(Seq<char>, Json)>, k: Seq<char>, v: Json, i: int)
    requires
        0 <= i < o.len(),
        o[i].0 == k,
        forall|j: int| 0 <= j < i ==> (#[trigger] o[j]).0 != k,
    ensures
        set_entry(o, k, v) == o.update(i, (k, v)),
    decreases i,
{
    if i > 0 {
        let t = o.drop_first();
        assert forall|j: int| 0 <= j < i - 1 implies (#[trigger] t[j]).0 != k by {
            assert(t[j] == o[j + 1]);
        }
        assert(o[0].0 != k);
        lemma_set_entry_at(t, k, v, i - 1);
        assert(o.update(i, (k, v)) =~= seq![o[0]] + t.update(i - 1, (k, v)));
    }
}

proof fn lemma_set_entry_absent(o: Seq<(Seq<char>, Json)>, k: Seq<char>, v: Json)
    requires
        forall|j: int| 0 <= j < o.len() ==> (#[trigger] o[j]).0 != k,
    ensures
        set_entry(o, k, v) == o.push((k, v)),
    decreases o.len(),
{
    if o.len() == 0 {
        assert(o.push((k, v)) =~= seq![(k, v)]);
    } else {
        let t = o.drop_first();
        assert forall|j: int| 0 <= j < t.len() implies (#[trigger] t[j]).0 != k by {
            assert(t[j] == o[j + 1]);
        }
        assert(o[0].0 != k);
        lemma_set_entry_absent(t, k, v);
        assert(o.push((k, v)) =~= seq![o[0]] + t.push((k, v)));
    }
}

/// Binds `k` to `v` in the entry list, as `set_entry` states.
#[verifier::loop_isolation(false)]
fn set_entry_exec(o: &mut Vec<(String, Value)>, k: String, v: Value)
    ensures
        entries(final(o)@) == set_entry(entries(old(o)@), k@, v@),
{
    let ghost e = entries(o@);
    let mut i: usize = 0;
    while i < o.len()
        invariant
            i <= o.len(),
            e == entries(o@),
            forall|j: int| 0 <= j < i ==> (#[trigger] e[j]).0 != k@,
        decreases o.len() - i,
    {
        if o[i].0 == k {
            proof {
                lemma_set_entry_at(e, k@, v@, i as int);
            }
            let ghost kv = k@;
            let ghost vv = v@;
            o.set(i, (k, v));
            assert(entries(o@)[i as int] == (kv, vv));
            assert(entries(o@) =~= e.update(i as int, (kv, vv)));
            return;
        }
        i = i + 1;
    }
    proof {
        lemma_set_entry_absent(e, k@, v@);
    }
    let ghost kv = k@;
    let ghost vv = v@;
    o.push((k, v));
    assert(entries(o@) =~= e.push((kv, vv)));
}

/// The entries of `a` updated by those of `b`, as `merge` states.
fn merge_entries(a: &Vec<(String, Value)>, b: &Vec<(String, Value)>) -> (r: Vec<(String, Value)>)
    ensures
        entries(r@) == merge(entries(a@), entries(b@)),
{
    let ghost eb = entries(b@);
    let mut r: Vec<(String, Value)> = Vec::new();
    let mut i: usize = 0;
    while i < a.len()
        invariant
            i <= a.len(),
            r.len() == i,
            entries(r@) =~= entries(a@).take(i as int),
        decreases a.len() - i,
    {
        let v = a[i].1.deep_clone();
        r.push((a[i].0.clone(), v));
        assert(entries(r@)[i as int] == entries(a@)[i as int]);
        i = i + 1;
    }
    assert(entries(a@).take(a.len() as int) =~= entries(a@));
    assert(eb.skip(0) =~= eb);
    let mut j: usize = 0;
    while j < b.len()
        invariant
            j <= b.len(),
            eb == entries(b@),
            merge(entries(a@), eb) == merge(entries(r@), eb.skip(j as int)),
        decreases b.len() - j,
    {
        assert(eb.skip(j as int)[0] == eb[j as int]);
        assert(eb.skip(j as int).drop_first() =~= eb.skip(j + 1));
        let v = b[j].1.deep_clone();
        set_entry_exec(&mut r, b[j].0.clone(), v);
        j = j + 1;
    }
    r
}

/// Copies of the values of `a` followed by those of `b`.
fn concat_values(a: &Vec<Value>, b: &Vec<Value>) -> (r: Vec<Value>)
    ensures
        views(r@) == views(a@) + views(b@),
{
    let ghost target = views(a@) + views(b@);
    let mut r: Vec<Value> = Vec::new();
    let mut i: usize = 0;
    while i < a.len()
        invariant
            i <= a.len(),
            target == views(a@) + views(b@),
            r.len() == i,
            views(r@) =~= target.take(i as int),
        decreases a.len() - i,
    {
        let v = a[i].deep_clone();
        r.push(v);
        assert(views(r@)[i as int] == target[i as int]);
        i = i + 1;
    }
    let mut j: usize = 0;
    while j < b.len()
        invariant
            j <= b.len(),
            target == views(a@) + views(b@),
            r.len() == a.len() + j,
            views(r@) =~= target.take(a.len() + j),
        decreases b.len() - j,
    {
        let v = b[j].deep_clone();
        r.push(v);
        assert(views(r@)[a.len() + j] == target[a.len() + j]);
        j = j + 1;
    }
    assert(target.take(a.len() + b.len()) =~= target);
    r
}

/// Whether `b` holds a value equal to `x`.
fn holds_value(b: &Vec<Value>, x: &Value) -> (r: bool)
    ensures
        r == holds(views(b@), x@),
{
    let mut k: usize = 0;
    while k < b.len()
        invariant
            k <= b.len(),
            forall|m: int| 0 <= m < k ==> !json_eq(#[trigger] views(b@)[m], x@),
        decreases b.len() - k,
    {
        if values_equal(&b[k], x) {
            assert(json_eq(views(b@)[k as int], x@));
            return true;
        }
        k = k + 1;
    }
    false
}

/// Copies of the values of `a` that `b` does not hold.
fn minus_values(a: &Vec<Value>, b: &Vec<Value>) -> (r: Vec<Value>)
    ensures
        views(r@) == array_minus(views(a@), views(b@)),
{
    let ghost va = views(a@);
    let mut r: Vec<Value> = Vec::new();
    let mut i: usize = 0;
    while i < a.len()
        invariant
            i <= a.len(),
            va == views(a@),
            views(r@) == array_minus(va.take(i as int), views(b@)),
        decreases a.len() - i,
    {
        assert(va.take(i + 1).drop_last() =~= va.take(i as int));
        assert(va.take(i + 1).last() == va[i as int]);
        if !holds_value(b, &a[i]) {
            let ghost before = views(r@);
            let v = a[i].deep_clone();
            r.push(v);
            assert(views(r@) =~= before.push(va[i as int]));
        }
        i = i + 1;
    }
    assert(va.take(a.len() as int) =~= va);
    r
}

/// `+` with a null left operand: the right operand.
pub fn add_null(left: &Value, right: &Value) -> (r: Result<Value, JQError>)
    ensures
        eview(r) == if left@ is Null { add_spec(left@, right@) } else { mismatch(left@, right@) },
{
    match left {
        Value::Null => Ok(right.deep_clone()),
        _ => mismatch_error(left, right),
    }
}

/// `+` with a boolean left operand: never defined.
pub fn add_bool(left: &Value, right: &Value) -> (r: Result<Value, JQError>)
    ensures
        eview(r) == if left@ is Bool { add_spec(left@, right@) } else { mismatch(left@, right@) },
{
    mismatch_error(left, right)
}

/// `+` with a number left operand.
pub fn add_number(left: &Value, right: &Value) -> (r: Result<Value, JQError>)
    ensures
        eview(r) == if left@ is Number { add_spec(left@, right@) } else { mismatch(left@, right@) },
{
    match (left, right) {
        (Value::Number(a), Value::Number(b)) => Ok(number_value(add_numbers(a, b))),
        _ => mismatch_error(left, right),
    }
}

/// `+` with a string left operand.
pub fn add_string(left: &Value, right: &Value) -> (r: Result<Value, JQError>)
    ensures
        eview(r) == if left@ is Str { add_spec(left@, right@) } else { mismatch(left@, right@) },
{
    match (left, right) {
        (Value::String(a), Value::String(b)) => Ok(Value::String(a.clone().concat(b.as_str()))),
        _ => mismatch_error(left, right),
    }
}

/// `+` with an array left operand.
pub fn add_array(left: &Value, right: &Value) -> (r: Result<Value, JQError>)
    ensures
        eview(r) == if left@ is Array { add_spec(left@, right@) } else { mismatch(left@, right@) },
{
    match (left, right) {
        (Value::Array(a), Value::Array(b)) => {
            proof {
                lemma_array_model(*a);
                lemma_array_model(*b);
            }
            let r = concat_values(a, b);
            proof {
                lemma_array_model(r);
            }
            Ok(Value::Array(r))
        },
        _ => mismatch_error(left, right),
    }
}

/// `+` with an object left operand.
pub fn add_object(left: &Value, right: &Value) -> (r: Result<Value, JQError>)
    ensures
        eview(r) == if left@ is Object { add_spec(left@, right@) } else { mismatch(left@, right@) },
{
    match (left, right) {
        (Value::Object(a), Value::Object(b)) => {
            proof {
                lemma_object_model(*a);
                lemma_object_model(*b);
            }
            let r = merge_entries(a, b);
            proof {
                lemma_object_model(r);
            }
            Ok(Value::Object(r))
        },
        _ => mismatch_error(left, right),
    }
}

/// `left + right`.
pub fn add_value(left: &Value, right: &Value) -> (r: Result<Value, JQError>)
    ensures
        eview(r) == add_spec(left@, right@),
{
    match left {
        Value::Number(_) => add_number(left, right),
        Value::String(_) => add_string(left, right),
        Value::Array(_) => add_array(left, right),
        Value::Object(_) => add_object(left, right),
        Value::Bool(_) => add_bool(left, right),
        Value::Null => add_null(left, right),
    }
}

/// `-` with a boolean left operand: never defined.
pub fn subtract_bool(left: &Value, right: &Value) -> (r: Result<Value, JQError>)
    ensures
        eview(r) == if left@ is Bool { subtract_spec(left@, right@) } else { mismatch(left@, right@) },
{
    mismatch_error(left, right)
}

/// `-` with a number left operand.
pub fn subtract_number(left: &Value, right: &Value) -> (r: Result<Value, JQError>)
    ensures
        eview(r) == if left@ is Number { subtract_spec(left@, right@) } else { mismatch(left@, right@) },
{
    match (left, right) {
        (Value::Number(a), Value::Number(b)) => Ok(number_value(subtract_numbers(a, b))),
        _ => mismatch_error(left, right),
    }
}

/// `-` with a string left operand: never defined.
pub fn subtract_string(left: &Value, right: &Value) -> (r: Result<Value, JQError>)
    ensures
        eview(r) == if left@ is Str { subtract_spec(left@, right@) } else { mismatch(left@, right@) },
{
    mismatch_error(left, right)
}

/// `-` with a null left operand: never defined.
pub fn subtract_null(left: &Value, right: &Value) -> (r: Result<Value, JQError>)
    ensures
        eview(r) == if left@ is Null { subtract_spec(left@, right@) } else { mismatch(left@, right@) },
{
    mismatch_error(left, right)
}

/// `-` with an array left operand.
pub fn subtract_array(left: &Value, right: &Value) -> (r: Result<Value, JQError>)
    ensures
        eview(r) == if left@ is Array { subtract_spec(left@, right@) } else { mismatch(left@, right@) },
{
    match (left, right) {
        (Value::Array(a), Value::Array(b)) => {
            proof {
                lemma_array_model(*a);
                lemma_array_model(*b);
            }
            let r = minus_values(a, b);
            proof {
                lemma_array_model(r);
            }
            Ok(Value::Array(r))
        },
        _ => mismatch_error(left, right),
    }
}

/// `-` with an object left operand: never defined.
pub fn subtract_object(left: &Value, right: &Value) -> (r: Result<Value, JQError>)
    ensures
        eview(r) == if left@ is Object { subtract_spec(left@, right@) } else { mismatch(left@, right@) },
{
    mismatch_error(left, right)
}

/// `left - right`.
pub fn subtract_value(left: &Value, right: &Value) -> (r: Result<Value, JQError>)
    ensures
        eview(r) == subtract_spec(left@, right@),
{
    match left {
        Value::Number(_) => subtract_number(left, right),
        Value::String(_) => subtract_string(left, right),
        Value::Array(_) => subtract_array(left, right),
        Value::Object(_) => subtract_object(left, right),
        Value::Null => subtract_null(left, right),
        Value::Bool(_) => subtract_bool(left, right),
    }
}

/// `*` with a number left operand.
pub fn multiply_number(left: &Value, right: &Value) -> (r: Result<Value, JQError>)
    ensures
        eview(r) == if left@ is Number { multiply_spec(left@, right@) } else { mismatch(left@, right@) },
{
    match (left, right) {
        (Value::Number(a), Value::Number(b)) => Ok(number_value(multiply_numbers(a, b))),
        _ => mismatch_error(left, right),
    }
}

/// `left * right`.
pub fn multiply_value(left: &Value, right: &Value) -> (r: Result<Value, JQError>)
    ensures
        eview(r) == multiply_spec(left@, right@),
{
    match left {
        Value::Number(_) => multiply_number(left, right),
        Value::Null => Ok(right.deep_clone()),
        _ => mismatch_error(left, right),
    }
}

/// `/` with a number left operand.
pub fn divide_number(left: &Value, right: &Value) -> (r: Result<Value, JQError>)
    ensures
        eview(r) == if left@ is Number { divide_spec(left@, right@) } else { mismatch(left@, right@) },
{
    match (left, right) {
        (Value::Number(a), Value::Number(b)) => Ok(number_value(divide_numbers(a, b))),
        _ => mismatch_error(left, right),
    }
}

/// `left / right`.
pub fn divide_value(left: &Value, right: &Value) -> (r: Result<Value, JQError>)
    ensures
        eview(r) == divide_spec(left@, right@),
{
    match left {
        Value::Number(_) => divide_number(left, right),
        Value::Null => Ok(right.deep_clone()),
        _ => mismatch_error(left, right),
    }
}

/// `left == right`, or `left != right` when `not` is set.
pub fn equate_value(left: &Value, right: &Value, not: bool) -> (r: Result<Value, JQError>)
    ensures
        r is Ok,
        eview(r) == Ok::<Json, JQError>(Json::Bool(json_eq(left@, right@) != not)),
{
    if not {
        Ok(Value::Bool(fn_not_equal(left, right)))
    } else {
        Ok(Value::Bool(fn_equal(left, right)))
    }
}

/// The order of two values, as `compare_spec` states.
fn compare_values(left: &Value, right: &Value) -> (r: Result<i8, JQError>)
    ensures
        match compare_spec(left@, right@) {
            Ok(c) => r is Ok && r->Ok_0 as int == c,
            Err(e) => r == Err::<i8, JQError>(e),
        },
{
    let lk = left.kind();
    let rk = right.kind();
    if lk != rk {
        let lr = kind_rank(lk);
        let rr = kind_rank(rk);
        return Ok(if lr < rr { -1 } else { 1 });
    }
    match (left, right) {
        (Value::Null, _) => Ok(0),
        (Value::Bool(a), Value::Bool(b)) => Ok(
            if *a == *b {
                0
            } else if !*a {
                -1
            } else {
                1
            },
        ),
        (Value::Number(a), Value::Number(b)) => Ok(
            if number_less(a, b) {
                -1
            } else if number_less(b, a) {
                1
            } else {
                0
            },
        ),
        (Value::String(a), Value::String(b)) => Ok(
            if string_less(a, b) {
                -1
            } else if string_less(b, a) {
                1
            } else {
                0
            },
        ),
        (Value::Array(a), Value::Array(b)) => {
            proof {
                lemma_array_model(*a);
                lemma_array_model(*b);
            }
            Ok(
                if a.len() < b.len() {
                    -1
                } else if a.len() > b.len() {
                    1
                } else {
                    0
                },
            )
        },
        _ => Err(JQError::EquationError(Kind::Object, Kind::Object)),
    }
}

fn kind_rank(k: Kind) -> (r: u8)
    ensures
        r as int == k.rank(),
{
    match k {
        Kind::Null => 0,
        Kind::Bool => 1,
        Kind::Number => 2,
        Kind::String => 3,
        Kind::Array => 4,
        Kind::Object => 5,
    }
}

/// `left == right`: values of different kinds are never equal.
fn fn_equal(left: &Value, right: &Value) -> (r: bool)
    ensures
        r == json_eq(left@, right@),
{
    values_equal(left, right)
}

/// `left != right`.
fn fn_not_equal(left: &Value, right: &Value) -> (r: bool)
    ensures
        r == !json_eq(left@, right@),
{
    !values_equal(left, right)
}

/// Whether the order of two values satisfies an ordering operator.
fn ordered(op: Operator, left: &Value, right: &Value) -> (r: Result<bool, JQError>)
    ensures
        match compare_spec(left@, right@) {
            Ok(c) => r == Ok::<bool, JQError>(order_holds(op, c)),
            Err(e) => r == Err::<bool, JQError>(e),
        },
{
    let c = match compare_values(left, right) {
        Ok(c) => c,
        Err(e) => {
            return Err(e);
        },
    };
    Ok(
        match op {
            Operator::Gt => c > 0,
            Operator::Lt => c < 0,
            Operator::Gte => c >= 0,
            _ => c <= 0,
        },
    )
}

/// `left > right`.
fn fn_gt(left: &Value, right: &Value) -> (r: Result<bool, JQError>)
    ensures
        match compare_spec(left@, right@) {
            Ok(c) => r == Ok::<bool, JQError>(c > 0),
            Err(e) => r == Err::<bool, JQError>(e),
        },
{
    ordered(Operator::Gt, left, right)
}

/// `left < right`.
fn fn_lt(left: &Value, right: &Value) -> (r: Result<bool, JQError>)
    ensures
        match compare_spec(left@, right@) {
            Ok(c) => r == Ok::<bool, JQError>(c < 0),
            Err(e) => r == Err::<bool, JQError>(e),
        },
{
    ordered(Operator::Lt, left, right)
}

/// `left >= right`.
fn fn_gte(left: &Value, right: &Value) -> (r: Result<bool, JQError>)
    ensures
        match compare_spec(left@, right@) {
            Ok(c) => r == Ok::<bool, JQError>(c >= 0),
            Err(e) => r == Err::<bool, JQError>(e),
        },
{
    ordered(Operator::Gte, left, right)
}

/// `left <= right`.
fn fn_lte(left: &Value, right: &Value) -> (r: Result<bool, JQError>)
    ensures
        match compare_spec(left@, right@) {
            Ok(c) => r == Ok::<bool, JQError>(c <= 0),
            Err(e) => r == Err::<bool, JQError>(e),
        },
{
    ordered(Operator::Lte, left, right)
}

/// A comparison operator applied to two values.
pub fn equality_value(op: &Operator, left: &Value, right: &Value) -> (r: Result<Value, JQError>)
    ensures
        eview(r) == equality_spec(*op, left@, right@),
{
    let result = match op {
        Operator::Equal => Ok(fn_equal(left, right)),
        Operator::NotEqual => Ok(fn_not_equal(left, right)),
        Operator::Gt => fn_gt(left, right),
        Operator::Lt => fn_lt(left, right),
        Operator::Gte => fn_gte(left, right),
        Operator::Lte => fn_lte(left, right),
        _ => {
            return mismatch_error(left, right);
        },
    };
    match result {
        Ok(b) => Ok(Value::Bool(b)),
        Err(e) => Err(e),
    }
}

} // verus!
