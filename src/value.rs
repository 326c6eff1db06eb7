
use crate::number::{number_less, number_lt};
use vstd::prelude::*;

verus! {

broadcast use vstd::std_specs::vec::axiom_vec_index_decreases;

/// The mathematical model of a JSON value: strings are sequences of
/// characters, arrays are sequences of values, and objects are sequences of
/// key/value entries in insertion order.
pub enum Json {
    Null,
    Bool(bool),
    Number(serde_json::Number),
    Str(Seq<char>),
    Array(Seq<Json>),
    Object(Seq<(Seq<char>, Json)>),
}

/// A JSON value. Object entries keep their insertion order; in a
/// well-formed value (`json_wf` of its model) no object repeats a key.
#[derive(Debug, PartialEq)]
pub enum Value {
    Null,
    Bool(bool),
    Number(serde_json::Number),
    String(String),
    Array(Vec<Value>),
    Object(Vec<(String, Value)>),
}

impl Value {
    pub open spec fn model(self) -> Json
        decreases self,
    {
        match self {
            Value::Null => Json::Null,
            Value::Bool(b) => Json::Bool(b),
            Value::Number(n) => Json::Number(n),
            Value::String(s) => Json::Str(s@),
            Value::Array(a) => Json::Array(
                Seq::new(a.len() as nat, |i: int| if 0 <= i < a.len() { a[i].model() } else { Json::Null }),
            ),
            Value::Object(o) => Json::Object(
                Seq::new(
                    o.len() as nat,
                    |i: int| if 0 <= i < o.len() { (o[i].0@, o[i].1.model()) } else { (Seq::empty(), Json::Null) },
                ),
            ),
        }
    }
}

/// The six kinds of JSON value, in the order that comparisons rank them.
#[derive(Clone, Copy, Debug, PartialEq, Eq, Structural)]
pub enum Kind {
    Null,
    Bool,
    Number,
    String,
    Array,
    Object,
}

impl Kind {
    pub open spec fn rank(self) -> int {
        match self {
            Kind::Null => 0,
            Kind::Bool => 1,
            Kind::Number => 2,
            Kind::String => 3,
            Kind::Array => 4,
            Kind::Object => 5,
        }
    }
}

impl Json {
    pub open spec fn kind(self) -> Kind {
        match self {
            Json::Null => Kind::Null,
            Json::Bool(_) => Kind::Bool,
            Json::Number(_) => Kind::Number,
            Json::Str(_) => Kind::String,
            Json::Array(_) => Kind::Array,
            Json::Object(_) => Kind::Object,
        }
    }
}

/// The models of a sequence of values.
pub open spec fn views(s: Seq<Value>) -> Seq<Json> {
    s.map_values(|v: Value| v@)
}

/// The models of a sequence of object entries.
pub open spec fn entries(s: Seq<(String, Value)>) -> Seq<(Seq<char>, Json)> {
    s.map_values(|e: (String, Value)| (e.0@, e.1@))
}

/// The value stored under the first entry with key `k`, if any.
pub open spec fn lookup(o: Seq<(Seq<char>, Json)>, k: Seq<char>) -> Option<Json>
    decreases o.len(),
{
    if o.len() == 0 {
        None
    } else if o[0].0 == k {
        Some(o[0].1)
    } else {
        lookup(o.drop_first(), k)
    }
}

/// No two entries of an object share a key.
pub open spec fn keys_distinct(o: Seq<(Seq<char>, Json)>) -> bool {
    forall|i: int, j: int| 0 <= i < j < o.len() ==> (#[trigger] o[i]).0 != (#[trigger] o[j]).0
}

/// A well-formed JSON value: every object in it, at any depth, has
/// distinct keys, as a JSON object (a map from keys to values) does.
pub open spec fn json_wf(j: Json) -> bool
    decreases j,
{
    match j {
        Json::Array(a) => forall|i: int| 0 <= i < a.len() ==> json_wf(#[trigger] a[i]),
        Json::Object(o) => keys_distinct(o) && forall|i: int| 0 <= i < o.len() ==> json_wf(#[trigger] o[i].1),
        _ => true,
    }
}

/// JSON equality: arrays compare element-wise, objects compare as maps
/// (same number of entries, each key of the left bound to an equal value on
/// the right), numbers compare by magnitude (neither is less than the
/// other).
pub open spec fn json_eq(a: Json, b: Json) -> bool
    decreases a,
{
    match a {
        Json::Null => b is Null,
        Json::Bool(x) => b is Bool && b->Bool_0 == x,
        Json::Number(x) => b is Number && !number_lt(x, b->Number_0) && !number_lt(b->Number_0, x),
        Json::Str(x) => b is Str && b->Str_0 == x,
        Json::Array(x) => match b {
            Json::Array(y) => x.len() == y.len() && forall|i: int|
                0 <= i < x.len() ==> json_eq(x[i], #[trigger] y[i]),
            _ => false,
        },
        Json::Object(x) => match b {
            Json::Object(y) => x.len() == y.len() && forall|i: int|
                0 <= i < x.len() ==> match #[trigger] lookup(y, x[i].0) {
                    Some(v) => json_eq(x[i].1, v),
                    None => false,
                },
            _ => false,
        },
    }
}

pub proof fn lemma_array_model(a: Vec<Value>)
    ensures
        Value::Array(a)@ == Json::Array(views(a@)),
{
    assert(Value::Array(a)@->Array_0 =~= views(a@));
}

pub proof fn lemma_object_model(o: Vec<(String, Value)>)
    ensures
        Value::Object(o)@ == Json::Object(entries(o@)),
{
    assert(Value::Object(o)@->Object_0 =~= entries(o@));
}

impl Value {
    pub fn kind(&self) -> (k: Kind)
        ensures
            k == self@.kind(),
    {
        match self {
            Value::Null => Kind::Null,
            Value::Bool(_) => Kind::Bool,
            Value::Number(_) => Kind::Number,
            Value::String(_) => Kind::String,
            Value::Array(_) => Kind::Array,
            Value::Object(_) => Kind::Object,
        }
    }

    pub fn is_null(&self) -> (r: bool)
        ensures
            r == (self@ is Null),
    {
        matches!(self, Value::Null)
    }

    /// A copy of the whole value tree.
    #[verifier::loop_isolation(false)]
    pub fn deep_clone(&self) -> (r: Value)
        ensures
            r@ == self@,
        decreases self,
    {
        match self {
            Value::Null => Value::Null,
            Value::Bool(b) => Value::Bool(*b),
            Value::Number(n) => Value::Number(n.clone()),
            Value::String(s) => Value::String(s.clone()),
            Value::Array(a) => {
                let mut r: Vec<Value> = Vec::new();
                let mut i: usize = 0;
                while i < a.len()
                    invariant
                        i <= a.len(),
                        r.len() == i,
                        views(r@) =~= views(a@).take(i as int),
                    decreases a.len() - i,
                {
                    proof {
                        assert(decreases_to!(*self => a[i as int]));
                    }
                    let v = a[i].deep_clone();
                    r.push(v);
                    assert(views(r@)[i as int] == views(a@)[i as int]);
                    i = i + 1;
                }
                proof {
                    assert(views(a@).take(a.len() as int) =~= views(a@));
                    lemma_array_model(*a);
                    lemma_array_model(r);
                }
                Value::Array(r)
            },
            Value::Object(o) => {
                let mut r: Vec<(String, Value)> = Vec::new();
                let mut i: usize = 0;
                while i < o.len()
                    invariant
                        i <= o.len(),
                        r.len() == i,
                        entries(r@) =~= entries(o@).take(i as int),
                    decreases o.len() - i,
                {
                    proof {
                        assert(decreases_to!(*self => o[i as int].1));
                    }
                    let v = o[i].1.deep_clone();
                    r.push((o[i].0.clone(), v));
                    assert(entries(r@)[i as int] == entries(o@)[i as int]);
                    i = i + 1;
                }
                proof {
                    lemma_object_model(*o);
                    lemma_object_model(r);
                    assert(entries(o@).take(o.len() as int) =~= entries(o@));
                }
                Value::Object(r)
            },
        }
    }
}

/// The value stored under the first entry of `o` whose key is `k`.
pub fn object_get<'a>(o: &'a Vec<(String, Value)>, k: &String) -> (r: Option<&'a Value>)
    ensures
        match lookup(entries(o@), k@) {
            Some(v) => r is Some && r->Some_0@ == v,
            None => r is None,
        },
{
    let ghost e = entries(o@);
    assert(e.subrange(0, o.len() as int) =~= e);
    let mut i: usize = 0;
    while i < o.len()
        invariant
            i <= o.len(),
            e == entries(o@),
            lookup(e, k@) == lookup(e.subrange(i as int, o.len() as int), k@),
        decreases o.len() - i,
    {
        let ghost rest = e.subrange(i as int, o.len() as int);
        assert(rest[0] == e[i as int]);
        if o[i].0 == *k {
            return Some(&o[i].1);
        }
        assert(rest.drop_first() =~= e.subrange(i + 1, o.len() as int));
        i = i + 1;
    }
    None
}

/// Whether two values are equal as JSON values (see `json_eq`).
#[verifier::loop_isolation(false)]
pub fn values_equal(a: &Value, b: &Value) -> (r: bool)
    ensures
        r == json_eq(a@, b@),
    decreases a,
{
    match a {
        Value::Null => matches!(b, Value::Null),
        Value::Bool(x) => match b {
            Value::Bool(y) => *x == *y,
            _ => false,
        },
        Value::Number(x) => match b {
            Value::Number(y) => !number_less(x, y) && !number_less(y, x),
            _ => false,
        },
        Value::String(x) => match b {
            Value::String(y) => *x == *y,
            _ => false,
        },
        Value::Array(x) => match b {
            Value::Array(y) => {
                proof {
                    lemma_array_model(*x);
                    lemma_array_model(*y);
                }
                if x.len() != y.len() {
                    return false;
                }
                let mut i: usize = 0;
                while i < x.len()
                    invariant
                        i <= x.len(),
                        forall|j: int| 0 <= j < i ==> json_eq(views(x@)[j], #[trigger] views(y@)[j]),
                    decreases x.len() - i,
                {
                    proof {
                        assert(decreases_to!(*a => x[i as int]));
                    }
                    if !values_equal(&x[i], &y[i]) {
                        assert(!json_eq(views(x@)[i as int], views(y@)[i as int]));
                        return false;
                    }
                    i = i + 1;
                }
                true
            },
            _ => false,
        },
        Value::Object(x) => match b {
            Value::Object(y) => {
                proof {
                    lemma_object_model(*x);
                    lemma_object_model(*y);
                }
                if x.len() != y.len() {
                    return false;
                }
                let ghost ex = entries(x@);
                let ghost ey = entries(y@);
                let mut i: usize = 0;
                while i < x.len()
                    invariant
                        i <= x.len(),
                        forall|j: int|
                            0 <= j < i ==> match #[trigger] lookup(ey, ex[j].0) {
                                Some(v) => json_eq(ex[j].1, v),
                                None => false,
                            },
                    decreases x.len() - i,
                {
                    assert(ex[i as int].0 == x@[i as int].0@);
                    match object_get(y, &x[i].0) {
                        Some(v) => {
                            proof {
                                assert(decreases_to!(*a => x[i as int].1));
                            }
                            if !values_equal(&x[i].1, v) {
                                return false;
                            }
                        },
                        None => {
                            return false;
                        },
                    }
                    i = i + 1;
                }
                true
            },
            _ => false,
        },
    }
}

/// Copies of the values at positions `start..end`.
pub fn slice_values(a: &Vec<Value>, start: usize, end: usize) -> (r: Vec<Value>)
    requires
        start <= end <= a.len(),
    ensures
        views(r@) == views(a@).subrange(start as int, end as int),
{
    let mut r: Vec<Value> = Vec::new();
    let mut i: usize = start;
    while i < end
        invariant
            start <= i <= end,
            end <= a.len(),
            r.len() == i - start,
            views(r@) =~= views(a@).subrange(start as int, i as int),
        decreases end - i,
    {
        let v = a[i].deep_clone();
        r.push(v);
        assert(views(r@)[i - start] == views(a@)[i as int]);
        i = i + 1;
    }
    r
}

impl View for Value {
    type V = Json;

    open spec fn view(&self) -> Json {
        self.model()
    }
}

} // verus!
