use crate::errors::JQError;
use crate::number::{number_from_usize, number_of_u64};
use crate::query::{lemma_lift_done, lemma_lift_start, lemma_lift_step, lemma_prepend_assoc, lift, one, prepend, rview};
use crate::value::{entries, lemma_array_model, lemma_object_model, views, Json, Value};
use vstd::prelude::*;
use vstd::string::StrSliceExecFns;

verus! {

/// Lexicographic order of strings by code point.
pub open spec fn str_lt(a: Seq<char>, b: Seq<char>) -> bool
    decreases a.len(),
{
    if a.len() == 0 {
        b.len() > 0
    } else if b.len() == 0 {
        false
    } else if a[0] != b[0] {
        (a[0] as u32) < (b[0] as u32)
    } else {
        str_lt(a.drop_first(), b.drop_first())
    }
}

/// `x` inserted into `s` before the first element that it precedes.
pub open spec fn insert_sorted(s: Seq<Seq<char>>, x: Seq<char>) -> Seq<Seq<char>>
    decreases s.len(),
{
    if s.len() == 0 {
        seq![x]
    } else if str_lt(x, s[0]) {
        seq![x] + s
    } else {
        seq![s[0]] + insert_sorted(s.drop_first(), x)
    }
}

/// The keys in lexicographic order; equal keys keep their order.
pub open spec fn sort_keys(s: Seq<Seq<char>>) -> Seq<Seq<char>>
    decreases s.len(),
{
    if s.len() == 0 {
        s
    } else {
        insert_sorted(sort_keys(s.drop_last()), s.last())
    }
}

/// Keys in lexicographic order: no key comes after one that it precedes.
pub open spec fn keys_sorted(s: Seq<Seq<char>>) -> bool {
    forall|i: int, j: int| 0 <= i < j < s.len() ==> !str_lt(#[trigger] s[j], #[trigger] s[i])
}

/// The lexicographic order is transitive.
pub proof fn lemma_str_lt_transitive(a: Seq<char>, b: Seq<char>, c: Seq<char>)
    requires
        str_lt(a, b),
        str_lt(b, c),
    ensures
        str_lt(a, c),
    decreases a.len(),
{
    if a.len() > 0 && b.len() > 0 && c.len() > 0 && a[0] == b[0] && b[0] == c[0] {
        lemma_str_lt_transitive(a.drop_first(), b.drop_first(), c.drop_first());
    }
}

proof fn lemma_insert_sorted_multiset(s: Seq<Seq<char>>, x: Seq<char>)
    ensures
        insert_sorted(s, x).to_multiset() == s.to_multiset().insert(x),
    decreases s.len(),
{
    broadcast use vstd::seq_lib::to_multiset_insert;

    if s.len() == 0 {
        assert(insert_sorted(s, x) =~= s.insert(0, x));
    } else if str_lt(x, s[0]) {
        assert(insert_sorted(s, x) =~= s.insert(0, x));
    } else {
        let rest = s.drop_first();
        lemma_insert_sorted_multiset(rest, x);
        let t = insert_sorted(rest, x);
        assert(insert_sorted(s, x) =~= t.insert(0, s[0]));
        assert(s =~= rest.insert(0, s[0]));
        assert(t.insert(0, s[0]).to_multiset() =~= s.to_multiset().insert(x));
    }
}

proof fn lemma_insert_sorted_sorted(s: Seq<Seq<char>>, x: Seq<char>)
    requires
        keys_sorted(s),
    ensures
        keys_sorted(insert_sorted(s, x)),
    decreases s.len(),
{
    broadcast use vstd::seq_lib::to_multiset_contains;

    if s.len() == 0 {
    } else if str_lt(x, s[0]) {
        let r = seq![x] + s;
        assert forall|i: int, j: int| 0 <= i < j < r.len() implies !str_lt(#[trigger] r[j], #[trigger] r[i]) by {
            if i == 0 {
                if str_lt(r[j], x) {
                    lemma_str_lt_transitive(r[j], x, s[0]);
                    if j - 1 > 0 {
                        assert(!str_lt(s[j - 1], s[0]));
                    } else {
                        lemma_str_lt_irreflexive(s[0]);
                    }
                }
            } else {
                assert(r[i] == s[i - 1] && r[j] == s[j - 1]);
            }
        }
    } else {
        let rest = s.drop_first();
        assert(keys_sorted(rest)) by {
            assert forall|i: int, j: int| 0 <= i < j < rest.len() implies !str_lt(#[trigger] rest[j], #[trigger] rest[i]) by {
                assert(rest[i] == s[i + 1] && rest[j] == s[j + 1]);
            }
        }
        lemma_insert_sorted_sorted(rest, x);
        lemma_insert_sorted_multiset(rest, x);
        let t = insert_sorted(rest, x);
        let r = seq![s[0]] + t;
        assert forall|i: int, j: int| 0 <= i < j < r.len() implies !str_lt(#[trigger] r[j], #[trigger] r[i]) by {
            if i == 0 {
                let e = t[j - 1];
                assert(t.to_multiset().contains(e));
                assert(t.to_multiset() == rest.to_multiset().insert(x));
                if e != x {
                    assert(rest.to_multiset().contains(e));
                    let k = choose|k: int| 0 <= k < rest.len() && rest[k] == e;
                    assert(!str_lt(s[k + 1], s[0]));
                }
            } else {
                assert(r[i] == t[i - 1] && r[j] == t[j - 1]);
            }
        }
    }
}

/// No string precedes itself.
pub proof fn lemma_str_lt_irreflexive(a: Seq<char>)
    ensures
        !str_lt(a, a),
    decreases a.len(),
{
    if a.len() > 0 {
        lemma_str_lt_irreflexive(a.drop_first());
    }
}

/// Sorting keys puts them in lexicographic order and keeps each of them.
pub proof fn lemma_sort_keys(s: Seq<Seq<char>>)
    ensures
        keys_sorted(sort_keys(s)),
        sort_keys(s).to_multiset() == s.to_multiset(),
    decreases s.len(),
{
    broadcast use vstd::seq_lib::to_multiset_build;

    if s.len() > 0 {
        lemma_sort_keys(s.drop_last());
        lemma_insert_sorted_sorted(sort_keys(s.drop_last()), s.last());
        lemma_insert_sorted_multiset(sort_keys(s.drop_last()), s.last());
        assert(s =~= s.drop_last().push(s.last()));
    }
}

/// `keys` (sorted) or `keys_unsorted` of one value: the keys of an object as
/// strings, the positions of an array as numbers; other values have none.
pub open spec fn keys_spec(j: Json, sort: bool) -> Result<Json, JQError> {
    match j {
        Json::Object(o) => {
            let ks = o.map_values(|e: (Seq<char>, Json)| e.0);
            let ordered = if sort { sort_keys(ks) } else { ks };
            Ok(Json::Array(ordered.map_values(|k: Seq<char>| Json::Str(k))))
        },
        Json::Array(a) => Ok(
            Json::Array(Seq::new(a.len(), |i: int| Json::Number(number_of_u64(i as u64)))),
        ),
        _ => Err(JQError::UnsupportedValue),
    }
}

/// `keys` as a step from one value to a batch of one.
pub open spec fn keys_step(sort: bool) -> spec_fn(Json) -> Result<Seq<Json>, JQError> {
    |j: Json| one(keys_spec(j, sort))
}

/// Whether `a` comes before `b` in lexicographic order.
pub fn string_less(a: &String, b: &String) -> (r: bool)
    ensures
        r == str_lt(a@, b@),
{
    let sa = a.as_str();
    let sb = b.as_str();
    let na = sa.unicode_len();
    let nb = sb.unicode_len();
    let mut i: usize = 0;
    assert(a@.skip(0) =~= a@);
    assert(b@.skip(0) =~= b@);
    while i < na && i < nb
        invariant
            i <= na,
            i <= nb,
            na == a@.len(),
            nb == b@.len(),
            sa@ == a@,
            sb@ == b@,
            str_lt(a@, b@) == str_lt(a@.skip(i as int), b@.skip(i as int)),
        decreases na - i,
    {
        let ca = sa.get_char(i);
        let cb = sb.get_char(i);
        assert(a@.skip(i as int)[0] == ca);
        assert(b@.skip(i as int)[0] == cb);
        if ca != cb {
            return (ca as u32) < (cb as u32);
        }
        assert(a@.skip(i as int).drop_first() =~= a@.skip(i + 1));
        assert(b@.skip(i as int).drop_first() =~= b@.skip(i + 1));
        i = i + 1;
    }
    i < nb
}

proof fn lemma_insert_sorted(s: Seq<Seq<char>>, x: Seq<char>, j: int)
    requires
        0 <= j <= s.len(),
        forall|k: int| 0 <= k < j ==> !str_lt(x, #[trigger] s[k]),
        j == s.len() || str_lt(x, s[j]),
    ensures
        insert_sorted(s, x) == s.insert(j, x),
    decreases j,
{
    if j == 0 {
        if s.len() == 0 {
            assert(s.insert(0, x) =~= seq![x]);
        } else {
            assert(s.insert(0, x) =~= seq![x] + s);
        }
    } else {
        let t = s.drop_first();
        assert forall|k: int| 0 <= k < j - 1 implies !str_lt(x, #[trigger] t[k]) by {
            assert(t[k] == s[k + 1]);
        }
        assert(!str_lt(x, s[0]));
        lemma_insert_sorted(t, x, j - 1);
        assert(s.insert(j, x) =~= seq![s[0]] + t.insert(j - 1, x));
    }
}

/// The keys of an object entry list, sorted or in entry order.
fn object_keys(o: &Vec<(String, Value)>, sort: bool) -> (r: Vec<Value>)
    ensures
        views(r@) == ({
            let ks = entries(o@).map_values(|e: (Seq<char>, Json)| e.0);
            let ordered = if sort { sort_keys(ks) } else { ks };
            ordered.map_values(|k: Seq<char>| Json::Str(k))
        }),
{
    let ghost ks = entries(o@).map_values(|e: (Seq<char>, Json)| e.0);
    let mut keys: Vec<String> = Vec::new();
    let mut i: usize = 0;
    while i < o.len()
        invariant
            i <= o.len(),
            ks == entries(o@).map_values(|e: (Seq<char>, Json)| e.0),
            keys@.map_values(|k: String| k@) == (if sort { sort_keys(ks.take(i as int)) } else { ks.take(i as int) }),
        decreases o.len() - i,
    {
        let k = o[i].0.clone();
        assert(ks.take(i + 1).drop_last() =~= ks.take(i as int));
        assert(ks.take(i + 1).last() == k@);
        if sort {
            let ghost sorted = keys@.map_values(|k: String| k@);
            let mut j: usize = 0;
            while j < keys.len() && !string_less(&k, &keys[j])
                invariant
                    j <= keys.len(),
                    sorted == keys@.map_values(|k: String| k@),
                    forall|m: int| 0 <= m < j ==> !str_lt(k@, #[trigger] sorted[m]),
                decreases keys.len() - j,
            {
                j = j + 1;
            }
            proof {
                lemma_insert_sorted(sorted, k@, j as int);
            }
            keys.insert(j, k);
            assert(keys@.map_values(|k: String| k@) =~= sorted.insert(j as int, k@));
        } else {
            keys.push(k);
            assert(keys@.map_values(|k: String| k@) =~= ks.take(i + 1));
        }
        i = i + 1;
    }
    assert(ks.take(o.len() as int) =~= ks);
    let ghost ordered = keys@.map_values(|k: String| k@);
    let mut r: Vec<Value> = Vec::new();
    let mut m: usize = 0;
    while m < keys.len()
        invariant
            m <= keys.len(),
            ordered == keys@.map_values(|k: String| k@),
            r.len() == m,
            forall|n: int| 0 <= n < m ==> #[trigger] views(r@)[n] == Json::Str(ordered[n]),
        decreases keys.len() - m,
    {
        let ghost before = views(r@);
        let v = Value::String(keys[m].clone());
        r.push(v);
        assert(views(r@) =~= before.push(v@));
        assert(views(r@)[m as int] == Json::Str(ordered[m as int]));
        m = m + 1;
    }
    assert(views(r@) =~= ordered.map_values(|k: Seq<char>| Json::Str(k)));
    r
}

fn single_keys(value: &Value, sort: bool) -> (r: Result<Value, JQError>)
    ensures
        match r {
            Ok(v) => keys_spec(value@, sort) == Ok::<Json, JQError>(v@),
            Err(e) => keys_spec(value@, sort) == Err::<Json, JQError>(e),
        },
{
    match value {
        Value::Object(o) => {
            proof {
                lemma_object_model(*o);
            }
            let r = object_keys(o, sort);
            proof {
                lemma_array_model(r);
            }
            Ok(Value::Array(r))
        },
        Value::Array(a) => {
            proof {
                lemma_array_model(*a);
            }
            let mut r: Vec<Value> = Vec::new();
            let mut i: usize = 0;
            while i < a.len()
                invariant
                    i <= a.len(),
                    r.len() == i,
                    forall|n: int| 0 <= n < i ==> #[trigger] views(r@)[n] == Json::Number(number_of_u64(n as u64)),
                decreases a.len() - i,
            {
                let ghost before = views(r@);
                let v = Value::Number(number_from_usize(i));
                r.push(v);
                assert(views(r@) =~= before.push(v@));
                assert(views(r@)[i as int] == Json::Number(number_of_u64(i as u64)));
                i = i + 1;
            }
            proof {
                lemma_array_model(r);
                assert(views(r@) =~= Seq::new(a.len() as nat, |n: int| Json::Number(number_of_u64(n as u64))));
            }
            Ok(Value::Array(r))
        },
        _ => Err(JQError::UnsupportedValue),
    }
}

/// `keys` or `keys_unsorted` of each input, in order.
pub fn fn_keys(values: &Vec<Value>, sort: bool) -> (r: Result<Vec<Value>, JQError>)
    ensures
        rview(r) == lift(views(values@), keys_step(sort)),
{
    let ghost f = keys_step(sort);
    let ghost vs = views(values@);
    proof {
        lemma_lift_start(vs, f);
    }
    let mut results: Vec<Value> = Vec::new();
    let mut i: usize = 0;
    while i < values.len()
        invariant
            i <= values.len(),
            vs == views(values@),
            f == keys_step(sort),
            lift(vs, f) == prepend(views(results@), lift(vs.subrange(i as int, vs.len() as int), f)),
        decreases values.len() - i,
    {
        proof {
            lemma_lift_step(vs, f, i as int);
        }
        let v = match single_keys(&values[i], sort) {
            Ok(v) => v,
            Err(e) => {
                return Err(e);
            },
        };
        let ghost before = views(results@);
        results.push(v);
        proof {
            assert(views(results@) =~= before + seq![v@]);
            lemma_prepend_assoc(before, seq![v@], lift(vs.subrange(i + 1, vs.len() as int), f));
        }
        i = i + 1;
    }
    proof {
        lemma_lift_done(vs, f, views(results@));
    }
    Ok(results)
}

} // verus!
