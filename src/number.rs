use vstd::prelude::*;

verus! {

/// A JSON number as `serde_json` holds it: an integer or a finite float.
#[verifier::external_type_specification]
#[verifier::external_body]
pub struct ExNumber(serde_json::Number);

/// Relies on the derived `Clone` of `serde_json::Number`, which copies its
/// single `Copy` field.
pub assume_specification[ <serde_json::Number as Clone>::clone ](n: &serde_json::Number) -> (r: serde_json::Number)
    ensures
        r == *n,
;

/// The number that `serde_json::Number::from(u64)` builds.
pub uninterp spec fn number_of_u64(n: u64) -> serde_json::Number;

/// Relies on `serde_json::Number::from(u64)`.
pub(crate) fn number_from_usize(n: usize) -> (r: serde_json::Number)
    ensures
        r == number_of_u64(n as u64),
{
    number_from_u64(n as u64)
}

/// Relies on `serde_json::Number::from(u64)`, which stores the integer as is.
#[verifier::external_body]
fn number_from_u64(n: u64) -> (r: serde_json::Number)
    ensures
        r == number_of_u64(n),
{
    serde_json::Number::from(n)
}

/// The sum of two numbers as `serde_json` computes it in `f64`; `None`
/// where the result is not finite.
pub uninterp spec fn number_sum(a: serde_json::Number, b: serde_json::Number) -> Option<serde_json::Number>;

/// The difference of two numbers, as for `number_sum`.
pub uninterp spec fn number_difference(a: serde_json::Number, b: serde_json::Number) -> Option<serde_json::Number>;

/// The product of two numbers, as for `number_sum`.
pub uninterp spec fn number_product(a: serde_json::Number, b: serde_json::Number) -> Option<serde_json::Number>;

/// The quotient of two numbers, as for `number_sum`.
pub uninterp spec fn number_quotient(a: serde_json::Number, b: serde_json::Number) -> Option<serde_json::Number>;

/// Whether the first number is less than the second as `f64` values.
pub uninterp spec fn number_lt(a: serde_json::Number, b: serde_json::Number) -> bool;

/// Relies on `serde_json::Number::as_f64`, `f64` addition and
/// `serde_json::Number::from_f64`, which refuses a result that is not finite.
#[verifier::external_body]
pub(crate) fn add_numbers(a: &serde_json::Number, b: &serde_json::Number) -> (r: Option<serde_json::Number>)
    ensures
        r == number_sum(*a, *b),
{
    serde_json::Number::from_f64(a.as_f64()? + b.as_f64()?)
}

/// Relies on `serde_json::Number::as_f64`, `f64` subtraction and
/// `serde_json::Number::from_f64`, which refuses a result that is not finite.
#[verifier::external_body]
pub(crate) fn subtract_numbers(a: &serde_json::Number, b: &serde_json::Number) -> (r: Option<serde_json::Number>)
    ensures
        r == number_difference(*a, *b),
{
    serde_json::Number::from_f64(a.as_f64()? - b.as_f64()?)
}

/// Relies on `serde_json::Number::as_f64`, `f64` multiplication and
/// `serde_json::Number::from_f64`, which refuses a result that is not finite.
#[verifier::external_body]
pub(crate) fn multiply_numbers(a: &serde_json::Number, b: &serde_json::Number) -> (r: Option<serde_json::Number>)
    ensures
        r == number_product(*a, *b),
{
    serde_json::Number::from_f64(a.as_f64()? * b.as_f64()?)
}

/// Relies on `serde_json::Number::as_f64`, `f64` division and
/// `serde_json::Number::from_f64`, which refuses a result that is not finite
/// (so division by zero gives `None`).
#[verifier::external_body]
pub(crate) fn divide_numbers(a: &serde_json::Number, b: &serde_json::Number) -> (r: Option<serde_json::Number>)
    ensures
        r == number_quotient(*a, *b),
{
    serde_json::Number::from_f64(a.as_f64()? / b.as_f64()?)
}

/// Relies on `serde_json::Number::as_f64`, which gives `Some` for every
/// number, and on the order of `Option<f64>`.
#[verifier::external_body]
pub(crate) fn number_less(a: &serde_json::Number, b: &serde_json::Number) -> (r: bool)
    ensures
        r == number_lt(*a, *b),
{
    a.as_f64() < b.as_f64()
}

/// The number that `serde_json` reads from a JSON number text.
pub uninterp spec fn number_of_text(s: Seq<char>) -> Option<serde_json::Number>;

/// Relies on the `FromStr` of `serde_json::Number`, which reads a JSON
/// number text and refuses anything else.
#[verifier::external_body]
pub(crate) fn number_from_text(text: &Vec<char>) -> (r: Option<serde_json::Number>)
    ensures
        r == number_of_text(text@),
{
    let t: String = text.iter().collect();
    t.parse::<serde_json::Number>().ok()
}

} // verus!
