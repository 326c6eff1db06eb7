use crate::action::Action;
use crate::block::Block;
use crate::errors::JQError;
use crate::expression_type::ExpressionType;
use crate::function::Function;
use crate::has_type::HasType;
use crate::index_type::IndexType;
use crate::number::{number_from_text, number_of_text};
use crate::operator::Operator;
use crate::range_type::RangeType;
use crate::token::Token;
use vstd::prelude::*;
use vstd::string::StrSliceExecFns;

verus! {

/// A parse step that succeeded ends at or after where it started, within
/// the text.
pub open spec fn moved<T>(r: Option<(T, usize)>, pos: usize, n: int) -> bool {
    match r {
        Some((_, p)) => pos <= p <= n,
        None => true,
    }
}

pub open spec fn is_blank(c: char) -> bool {
    c == ' ' || c == '\t'
}

pub open spec fn is_digit_char(c: char) -> bool {
    48 <= c as u32 <= 57
}

pub open spec fn is_alpha_char(c: char) -> bool {
    (97 <= c as u32 <= 122) || (65 <= c as u32 <= 90)
}

/// Characters of a field name after the first.
pub open spec fn is_name_char(c: char) -> bool {
    is_alpha_char(c) || is_digit_char(c) || c == '_'
}

/// Characters allowed inside a quoted string.
pub open spec fn is_string_char_spec(c: char) -> bool {
    is_alpha_char(c) || is_digit_char(c) || c == ' ' || c == '_' || c == '-' || c == '/' || c == '#'
}

/// The end of the longest run of characters satisfying `p` from `i`.
pub open spec fn run_end(s: Seq<char>, i: int, p: spec_fn(char) -> bool) -> int
    decreases s.len() - i,
{
    if i < 0 || i >= s.len() || !p(s[i]) {
        i
    } else {
        run_end(s, i + 1, p)
    }
}

/// A run found by a scan is the longest run.
pub proof fn lemma_run_end(s: Seq<char>, a: int, b: int, p: spec_fn(char) -> bool)
    requires
        0 <= a <= b <= s.len(),
        forall|k: int| a <= k < b ==> p(#[trigger] s[k]),
        b == s.len() || !p(s[b]),
    ensures
        run_end(s, a, p) == b,
    decreases b - a,
{
    if a < b {
        lemma_run_end(s, a + 1, b, p);
    }
}

/// A run of length at least `b - a` ends at `b` or later.
pub proof fn lemma_run_end_at_least(s: Seq<char>, a: int, b: int, p: spec_fn(char) -> bool)
    requires
        0 <= a <= b <= s.len(),
        forall|k: int| a <= k < b ==> p(#[trigger] s[k]),
    ensures
        run_end(s, a, p) >= b,
    decreases b - a,
{
    if a < b {
        lemma_run_end_at_least(s, a + 1, b, p);
    } else {
        lemma_run_end_from(s, a, p);
    }
}

/// A run ends at or after where it starts.
pub proof fn lemma_run_end_from(s: Seq<char>, i: int, p: spec_fn(char) -> bool)
    requires
        0 <= i,
    ensures
        run_end(s, i, p) >= i,
    decreases s.len() - i,
{
    if i < s.len() && p(s[i]) {
        lemma_run_end_from(s, i + 1, p);
    }
}

/// The end of the literal `t` at `p`, if it stands there.
pub open spec fn lit_spec(s: Seq<char>, p: int, t: Seq<char>) -> Option<int> {
    if 0 <= p && p + t.len() <= s.len() && s.subrange(p, p + t.len()) == t {
        Some(p + t.len())
    } else {
        None
    }
}

/// The position after the spaces and tabs at `i`.
pub open spec fn skip(s: Seq<char>, i: int) -> int {
    run_end(s, i, |c: char| is_blank(c))
}

/// Whether `s[i]` is `c`.
pub open spec fn at(s: Seq<char>, i: int, c: char) -> bool {
    0 <= i < s.len() && s[i] == c
}

/// The end of a number text from `pos`: an optional sign, at least one
/// digit, then optionally a point and more digits.
pub open spec fn number_end_spec(s: Seq<char>, pos: int) -> Option<int> {
    let p = if pos < s.len() && (s[pos] == '+' || s[pos] == '-') { pos + 1 } else { pos };
    let d = run_end(s, p, |c: char| is_digit_char(c));
    if d == p {
        None
    } else if d < s.len() && s[d] == '.' {
        Some(run_end(s, d + 1, |c: char| is_digit_char(c)))
    } else {
        Some(d)
    }
}

fn is_digit(c: char) -> (r: bool)
    ensures
        r == is_digit_char(c),
{
    let x = c as u32;
    48 <= x && x <= 57
}

fn is_alpha(c: char) -> (r: bool)
    ensures
        r == is_alpha_char(c),
{
    let x = c as u32;
    (97 <= x && x <= 122) || (65 <= x && x <= 90)
}

fn is_string_char(c: char) -> (r: bool)
    ensures
        r == is_string_char_spec(c),
{
    is_alpha(c) || is_digit(c) || c == ' ' || c == '_' || c == '-' || c == '/' || c == '#'
}

fn peek(s: &Vec<char>, pos: usize, c: char) -> (r: bool)
    ensures
        r == (pos < s.len() && s@[pos as int] == c),
        r == at(s@, pos as int, c),
{
    pos < s.len() && s[pos] == c
}

/// Skips spaces and tabs.
fn ws(s: &Vec<char>, pos: usize) -> (r: usize)
    requires
        pos <= s.len(),
    ensures
        pos <= r <= s.len(),
        r == skip(s@, pos as int),
{
    let mut p = pos;
    while p < s.len() && (s[p] == ' ' || s[p] == '\t')
        invariant
            pos <= p <= s.len(),
            forall|k: int| pos <= k < p ==> is_blank(#[trigger] s@[k]),
        decreases s.len() - p,
    {
        p = p + 1;
    }
    proof {
        lemma_run_end(s@, pos as int, p as int, |c: char| is_blank(c));
    }
    p
}

/// Matches the literal `t` at `pos`.
fn lit(s: &Vec<char>, pos: usize, t: &str) -> (r: Option<usize>)
    requires
        pos <= s.len(),
    ensures
        match lit_spec(s@, pos as int, t@) {
            Some(e) => r is Some && r->Some_0 == e,
            None => r is None,
        },
{
    let n = t.unicode_len();
    if n > s.len() - pos {
        return None;
    }
    let mut i: usize = 0;
    while i < n
        invariant
            i <= n,
            n == t@.len(),
            pos + n <= s.len(),
            forall|k: int| 0 <= k < i ==> s@[pos + k] == #[trigger] t@[k],
        decreases n - i,
    {
        if s[pos + i] != t.get_char(i) {
            assert(s@.subrange(pos as int, pos + n)[i as int] != t@[i as int]);
            return None;
        }
        i = i + 1;
    }
    assert(s@.subrange(pos as int, pos + n) =~= t@);
    Some(pos + n)
}

/// The end of a number text, as `number_end_spec` states.
fn number_end(s: &Vec<char>, pos: usize) -> (r: Option<usize>)
    requires
        pos <= s.len(),
    ensures
        r matches Some(p) ==> pos < p <= s.len(),
        match number_end_spec(s@, pos as int) {
            Some(e) => r is Some && r->Some_0 == e,
            None => r is None,
        },
{
    let mut p = pos;
    if peek(s, p, '+') || peek(s, p, '-') {
        p = p + 1;
    }
    let digits = p;
    while p < s.len() && is_digit(s[p])
        invariant
            pos <= digits <= p <= s.len(),
            forall|k: int| digits <= k < p ==> is_digit_char(#[trigger] s@[k]),
        decreases s.len() - p,
    {
        p = p + 1;
    }
    proof {
        lemma_run_end(s@, digits as int, p as int, |c: char| is_digit_char(c));
    }
    if p == digits {
        return None;
    }
    if peek(s, p, '.') {
        p = p + 1;
        let frac = p;
        while p < s.len() && is_digit(s[p])
            invariant
                pos < frac <= p <= s.len(),
                forall|k: int| frac <= k < p ==> is_digit_char(#[trigger] s@[k]),
            decreases s.len() - p,
        {
            p = p + 1;
        }
        proof {
            lemma_run_end(s@, frac as int, p as int, |c: char| is_digit_char(c));
        }
    }
    Some(p)
}

/// The value of the decimal digits `s[a..b]`.
pub open spec fn digits_value(s: Seq<char>, a: int, b: int) -> int
    decreases b - a,
{
    if b <= a {
        0
    } else {
        digits_value(s, a, b - 1) * 10 + (s[b - 1] as u32 - 48)
    }
}

/// The integer part of the number text `s[start..end]`: its sign and the
/// digits before any point, saturated to the range of `isize`.
pub open spec fn integer_spec(s: Seq<char>, start: int, end: int) -> isize {
    let neg = start < s.len() && s[start] == '-';
    let p = if start < end && (s[start] == '-' || s[start] == '+') { start + 1 } else { start };
    let run = run_end(s, p, |c: char| is_digit_char(c));
    let stop = if run < end { run } else { end };
    let big = 0x1_0000_0000_0000_0000int;
    let magnitude = if digits_value(s, p, stop) < big { digits_value(s, p, stop) } else { big };
    let v = if neg { -magnitude } else { magnitude };
    if v > isize::MAX {
        isize::MAX
    } else if v < isize::MIN {
        isize::MIN
    } else {
        v as isize
    }
}

proof fn lemma_digits_value_nonneg(s: Seq<char>, a: int, b: int)
    requires
        forall|k: int| a <= k < b ==> is_digit_char(#[trigger] s[k]),
    ensures
        digits_value(s, a, b) >= 0,
    decreases b - a,
{
    if b > a {
        lemma_digits_value_nonneg(s, a, b - 1);
    }
}

/// The integer part of a number text, as `integer_spec` states.
fn integer_of(s: &Vec<char>, start: usize, end: usize) -> (r: isize)
    requires
        start <= end <= s.len(),
    ensures
        r == integer_spec(s@, start as int, end as int),
{
    let mut p = start;
    let neg = peek(s, p, '-');
    if p < end && (s[p] == '-' || s[p] == '+') {
        p = p + 1;
    }
    let first = p;
    let bound: i128 = 0x1_0000_0000_0000_0000;
    let mut acc: i128 = 0;
    while p < end && is_digit(s[p])
        invariant
            first <= p <= end <= s.len(),
            bound == 0x1_0000_0000_0000_0000,
            0 <= acc <= bound,
            forall|k: int| first <= k < p ==> is_digit_char(#[trigger] s@[k]),
            acc == (if digits_value(s@, first as int, p as int) < bound {
                digits_value(s@, first as int, p as int)
            } else {
                bound as int
            }),
        decreases end - p,
    {
        let d = (s[p] as u32 - 48) as i128;
        proof {
            lemma_digits_value_nonneg(s@, first as int, p as int);
            let v = digits_value(s@, first as int, p as int);
            assert(digits_value(s@, first as int, p + 1) == v * 10 + d);
            if v >= bound {
                assert(v * 10 + d >= bound) by (nonlinear_arith)
                    requires v >= bound, bound > 0, d >= 0;
            }
        }
        acc = acc * 10 + d;
        if acc > bound {
            acc = bound;
        }
        p = p + 1;
    }
    proof {
        if p < end {
            lemma_run_end(s@, first as int, p as int, |c: char| is_digit_char(c));
        } else {
            let run = run_end(s@, first as int, |c: char| is_digit_char(c));
            lemma_run_end_at_least(s@, first as int, p as int, |c: char| is_digit_char(c));
        }
    }
    let v = if neg { -acc } else { acc };
    if v > isize::MAX as i128 {
        isize::MAX
    } else if v < isize::MIN as i128 {
        isize::MIN
    } else {
        v as isize
    }
}

/// The end of the redundant leading zeros at `p`: zeros followed by
/// another digit.
pub open spec fn zeros_end(s: Seq<char>, p: int, end: int) -> int
    decreases end - p,
{
    if 0 <= p && end - p > 1 && end <= s.len() && s[p] == '0' && is_digit_char(s[p + 1]) {
        zeros_end(s, p + 1, end)
    } else {
        p
    }
}

/// The JSON text of the number literal `s[start..end]`: the sign `+` and
/// redundant leading zeros are dropped, and so is a point without digits
/// after it.
pub open spec fn literal_text(s: Seq<char>, start: int, end: int) -> Seq<char> {
    let signed = start < end && (s[start] == '-' || s[start] == '+');
    let sign = if start < end && s[start] == '-' { seq!['-'] } else { Seq::empty() };
    let p = if signed { start + 1 } else { start };
    let z = zeros_end(s, p, end);
    let run = run_end(s, z, |c: char| is_digit_char(c));
    let d = if run < end { run } else { end };
    let frac = if end - d > 1 && s[d] == '.' { seq!['.'] + s.subrange(d + 1, end) } else { Seq::empty() };
    sign + s.subrange(z, d) + frac
}

/// The number literal `s[start..end]` as a JSON number, read from
/// `literal_text`.
fn number_literal(s: &Vec<char>, start: usize, end: usize) -> (r: Option<serde_json::Number>)
    requires
        start <= end <= s.len(),
    ensures
        r == number_of_text(literal_text(s@, start as int, end as int)),
{
    let mut text: Vec<char> = Vec::new();
    let mut p = start;
    if p < end && (s[p] == '-' || s[p] == '+') {
        if s[p] == '-' {
            text.push('-');
        }
        p = p + 1;
    }
    let ghost sign = text@;
    let ghost after_sign = p;
    while end - p > 1 && s[p] == '0' && is_digit(s[p + 1])
        invariant
            after_sign <= p <= end <= s.len(),
            zeros_end(s@, after_sign as int, end as int) == zeros_end(s@, p as int, end as int),
        decreases end - p,
    {
        p = p + 1;
    }
    let z = p;
    while p < end && is_digit(s[p])
        invariant
            z <= p <= end <= s.len(),
            text@ == sign + s@.subrange(z as int, p as int),
            forall|k: int| z <= k < p ==> is_digit_char(#[trigger] s@[k]),
        decreases end - p,
    {
        text.push(s[p]);
        p = p + 1;
        assert(text@ =~= sign + s@.subrange(z as int, p as int));
    }
    proof {
        if p < end {
            lemma_run_end(s@, z as int, p as int, |c: char| is_digit_char(c));
        } else {
            lemma_run_end_at_least(s@, z as int, p as int, |c: char| is_digit_char(c));
        }
    }
    let d = p;
    let ghost body = text@;
    if end - p > 1 && s[p] == '.' {
        text.push('.');
        p = p + 1;
        while p < end
            invariant
                d + 1 <= p <= end <= s.len(),
                text@ == body + seq!['.'] + s@.subrange(d + 1, p as int),
            decreases end - p,
        {
            text.push(s[p]);
            p = p + 1;
            assert(text@ =~= body + seq!['.'] + s@.subrange(d + 1, p as int));
        }
        assert(text@ =~= sign + s@.subrange(z as int, d as int) + (seq!['.'] + s@.subrange(d + 1, end as int)));
    } else {
        assert(text@ =~= sign + s@.subrange(z as int, d as int) + Seq::<char>::empty());
    }
    number_from_text(&text)
}

/// A quoted string at `pos`: its contents and the position after the
/// closing quote. The contents are non-empty and made of letters, digits,
/// space and `_ - / #`.
pub open spec fn string_spec(s: Seq<char>, pos: int) -> Option<(Seq<char>, int)> {
    if pos < s.len() && s[pos] == '"' && !(pos + 1 < s.len() && s[pos + 1] == '"') {
        let b = run_end(s, pos + 1, |c: char| is_string_char_spec(c));
        if b < s.len() && s[b] == '"' {
            Some((s.subrange(pos + 1, b), b + 1))
        } else {
            None
        }
    } else {
        None
    }
}

/// A field name at `pos`: a letter, then letters, digits and `_`; a
/// trailing `?` makes the step silent. Gives the name, the flag and the
/// end.
pub open spec fn name_spec(s: Seq<char>, pos: int) -> Option<(Seq<char>, bool, int)> {
    if 0 <= pos < s.len() && is_alpha_char(s[pos]) {
        let b = run_end(s, pos + 1, |c: char| is_name_char(c));
        let silent = b < s.len() && s[b] == '?';
        Some((s.subrange(pos, b), silent, if silent { b + 1 } else { b }))
    } else {
        None
    }
}

/// `"chars"`, as `string_spec` states.
fn string(q: &str, s: &Vec<char>, pos: usize) -> (r: Option<(String, usize)>)
    requires
        pos <= s.len(),
        s@ == q@,
    ensures
        moved(r, pos, s.len() as int),
        match string_spec(s@, pos as int) {
            Some((c, e)) => r is Some && r->Some_0.0@ == c && r->Some_0.1 == e,
            None => r is None,
        },
{
    if !peek(s, pos, '"') || peek(s, pos + 1, '"') {
        return None;
    }
    let start = pos + 1;
    let mut p = start;
    while p < s.len() && is_string_char(s[p])
        invariant
            start <= p <= s.len(),
            forall|k: int| start <= k < p ==> is_string_char_spec(#[trigger] s@[k]),
        decreases s.len() - p,
    {
        p = p + 1;
    }
    proof {
        lemma_run_end(s@, start as int, p as int, |c: char| is_string_char_spec(c));
    }
    if !peek(s, p, '"') {
        return None;
    }
    Some((q.substring_char(start, p).to_owned(), p + 1))
}

/// A field name, as `name_spec` states.
fn ident(q: &str, s: &Vec<char>, pos: usize) -> (r: Option<(Token, usize)>)
    requires
        pos <= s.len(),
        s@ == q@,
    ensures
        moved(r, pos, s.len() as int),
        match name_spec(s@, pos as int) {
            Some((name, silent, e)) => r is Some && r->Some_0.0 is Ident && r->Some_0.0->Ident_0@ == name
                && r->Some_0.0->Ident_1 == silent && r->Some_0.1 == e,
            None => r is None,
        },
{
    if pos >= s.len() || !is_alpha(s[pos]) {
        return None;
    }
    let mut p = pos + 1;
    while p < s.len() && (is_alpha(s[p]) || is_digit(s[p]) || s[p] == '_')
        invariant
            pos < p <= s.len(),
            forall|k: int| pos + 1 <= k < p ==> is_name_char(#[trigger] s@[k]),
        decreases s.len() - p,
    {
        p = p + 1;
    }
    proof {
        lemma_run_end(s@, pos + 1, p as int, |c: char| is_name_char(c));
    }
    let name = q.substring_char(pos, p).to_owned();
    let silent = peek(s, p, '?');
    let end = if silent { p + 1 } else { p };
    Some((Token::Ident(name, silent), end))
}

/// `.` not followed by another `.`, with blanks around it: the end.
pub open spec fn identity_spec(s: Seq<char>, pos: int) -> Option<int> {
    let p = skip(s, pos);
    if at(s, p, '.') && !at(s, p + 1, '.') {
        Some(skip(s, p + 1))
    } else {
        None
    }
}

/// The identity step, as `identity_spec` states.
fn identity(s: &Vec<char>, pos: usize) -> (r: Option<(Token, usize)>)
    requires
        pos <= s.len(),
    ensures
        moved(r, pos, s.len() as int),
        match identity_spec(s@, pos as int) {
            Some(e) => r is Some && r->Some_0.0 == Token::Identity && r->Some_0.1 == e,
            None => r is None,
        },
{
    let p = ws(s, pos);
    if !peek(s, p, '.') || peek(s, p + 1, '.') {
        return None;
    }
    Some((Token::Identity, ws(s, p + 1)))
}

/// `]` after blanks at `p`, giving the range and the end after blanks.
pub open spec fn close_range(s: Seq<char>, p: int, g: RangeType) -> Option<(RangeType, int)> {
    let q = skip(s, p);
    if at(s, q, ']') {
        Some((g, skip(s, q + 1)))
    } else {
        None
    }
}

/// `[]`, `[n:]`, `[:n]` or `[n:m]`, with blanks around the parts: the
/// bounds and the end.
pub open spec fn range_spec(s: Seq<char>, pos: int) -> Option<(RangeType, int)> {
    let p = skip(s, pos);
    if !at(s, p, '[') {
        None
    } else {
        let pa = skip(s, p + 1);
        if at(s, pa, ']') {
            Some((RangeType { start: None, end: None }, skip(s, pa + 1)))
        } else if at(s, pa, ':') {
            let pb = skip(s, pa + 1);
            match number_end_spec(s, pb) {
                Some(e) => close_range(s, e, RangeType { start: None, end: Some(integer_spec(s, pb, e)) }),
                None => None,
            }
        } else {
            match number_end_spec(s, pa) {
                Some(e) => {
                    let start = integer_spec(s, pa, e);
                    let pb = skip(s, e);
                    if !at(s, pb, ':') {
                        None
                    } else {
                        let pc = skip(s, pb + 1);
                        if at(s, pc, ']') {
                            Some((RangeType { start: Some(start), end: None }, skip(s, pc + 1)))
                        } else {
                            match number_end_spec(s, pc) {
                                Some(e2) => close_range(
                                    s,
                                    e2,
                                    RangeType { start: Some(start), end: Some(integer_spec(s, pc, e2)) },
                                ),
                                None => None,
                            }
                        }
                    }
                },
                None => None,
            }
        }
    }
}

/// A range step, as `range_spec` states.
fn range(s: &Vec<char>, pos: usize) -> (r: Option<(Token, usize)>)
    requires
        pos <= s.len(),
    ensures
        moved(r, pos, s.len() as int),
        match range_spec(s@, pos as int) {
            Some((g, e)) => r is Some && r->Some_0.0 == Token::Range(g) && r->Some_0.1 == e,
            None => r is None,
        },
{
    let p = ws(s, pos);
    if !peek(s, p, '[') {
        return None;
    }
    let p = ws(s, p + 1);
    if peek(s, p, ']') {
        return Some((Token::Range(RangeType::new()), ws(s, p + 1)));
    }
    if peek(s, p, ':') {
        let p = ws(s, p + 1);
        let e = match number_end(s, p) {
            Some(e) => e,
            None => {
                return None;
            },
        };
        let end = integer_of(s, p, e);
        let pb = ws(s, e);
        if !peek(s, pb, ']') {
            return None;
        }
        let g = RangeType { start: None, end: Some(end) };
        assert(close_range(s@, e as int, g) == Some((g, skip(s@, pb + 1))));
        return Some((Token::Range(g), ws(s, pb + 1)));
    }
    let e = match number_end(s, p) {
        Some(e) => e,
        None => {
            return None;
        },
    };
    let start = integer_of(s, p, e);
    let p = ws(s, e);
    if !peek(s, p, ':') {
        return None;
    }
    let p = ws(s, p + 1);
    if peek(s, p, ']') {
        return Some((Token::Range(RangeType::from_start(start)), ws(s, p + 1)));
    }
    let e2 = match number_end(s, p) {
        Some(e2) => e2,
        None => {
            return None;
        },
    };
    let end = integer_of(s, p, e2);
    let p = ws(s, e2);
    if !peek(s, p, ']') {
        return None;
    }
    let g = RangeType { start: Some(start), end: Some(end) };
    assert(close_range(s@, e2 as int, g) == Some((g, skip(s@, p + 1))));
    Some((Token::Range(g), ws(s, p + 1)))
}

/// What a path step denotes.
pub enum StepModel {
    Identity,
    Field(Seq<char>, bool),
    Slice(RangeType),
    Key(Seq<char>, bool),
    Positions(Seq<isize>, bool),
}

/// The meaning of a path step.
pub open spec fn step_model(t: Token) -> StepModel {
    match t {
        Token::Identity => StepModel::Identity,
        Token::Ident(name, silent) => StepModel::Field(name@, silent),
        Token::Range(g) => StepModel::Slice(g),
        Token::Index(i) => match i.spec_identifier() {
            Some(k) => StepModel::Key(k, i.spec_silent()),
            None => StepModel::Positions(i.spec_positions()->Some_0, i.spec_silent()),
        },
    }
}

/// A step parsed from the text: what it denotes, and where it ends.
pub open spec fn parsed_step(r: Option<(Token, usize)>, m: Option<(StepModel, int)>) -> bool {
    match m {
        Some((model, e)) => r is Some && step_model(r->Some_0.0) == model && r->Some_0.1 == e && (
        r->Some_0.0 is Index ==> r->Some_0.0->Index_0.wf()),
        None => r is None,
    }
}

/// Further `,n` positions from `p`: the positions and their end; `None`
/// when a comma is not followed by a number.
pub open spec fn more_positions(s: Seq<char>, p: int) -> Option<(Seq<isize>, int)>
    decreases s.len() - p,
{
    if at(s, p, ',') {
        match number_end_spec(s, p + 1) {
            Some(e) => if p < e <= s.len() {
                match more_positions(s, e) {
                    Some((ps, f)) => Some((seq![integer_spec(s, p + 1, e)] + ps, f)),
                    None => None,
                }
            } else {
                None
            },
            None => None,
        }
    } else {
        Some((Seq::empty(), p))
    }
}

/// `]`, an optional `?` and blanks after `p`: the silent flag and the end.
pub open spec fn close_index(s: Seq<char>, p: int) -> Option<(bool, int)> {
    let q = skip(s, p);
    if at(s, q, ']') {
        let silent = at(s, q + 1, '?');
        Some((silent, skip(s, if silent { q + 2 } else { q + 1 })))
    } else {
        None
    }
}

/// `["key"]` or `[n, m, ...]`, each with an optional trailing `?`.
pub open spec fn index_step_spec(s: Seq<char>, pos: int) -> Option<(StepModel, int)> {
    let p = skip(s, pos);
    if !at(s, p, '[') {
        None
    } else {
        let pa = skip(s, p + 1);
        let by_key = match string_spec(s, pa) {
            Some((c, e)) => match close_index(s, e) {
                Some((silent, f)) => Some((StepModel::Key(c, silent), f)),
                None => None,
            },
            None => None,
        };
        if by_key is Some {
            by_key
        } else {
            match number_end_spec(s, pa) {
                Some(e) => match more_positions(s, e) {
                    Some((ps, f)) => match close_index(s, f) {
                        Some((silent, g)) => Some(
                            (StepModel::Positions(seq![integer_spec(s, pa, e)] + ps, silent), g),
                        ),
                        None => None,
                    },
                    None => None,
                },
                None => None,
            }
        }
    }
}

/// An index step, as `index_step_spec` states.
#[verifier::loop_isolation(false)]
fn index(q: &str, s: &Vec<char>, pos: usize) -> (r: Option<(Token, usize)>)
    requires
        pos <= s.len(),
        s@ == q@,
    ensures
        moved(r, pos, s.len() as int),
        parsed_step(r, index_step_spec(s@, pos as int)),
{
    let p = ws(s, pos);
    if !peek(s, p, '[') {
        return None;
    }
    let p = ws(s, p + 1);
    if let Some((key, e)) = string(q, s, p) {
        let e = ws(s, e);
        if peek(s, e, ']') {
            let silent = peek(s, e + 1, '?');
            let after = if silent { e + 2 } else { e + 1 };
            return Some((Token::Index(IndexType::from_identifier(key, silent)), ws(s, after)));
        }
    }
    let mut positions: Vec<isize> = Vec::new();
    let e = match number_end(s, p) {
        Some(e) => e,
        None => {
            return None;
        },
    };
    positions.push(integer_of(s, p, e));
    let first_end = e;
    let mut pb = e;
    assert(positions@.drop_first() + Seq::<isize>::empty() =~= Seq::<isize>::empty());
    while peek(s, pb, ',')
        invariant
            pos <= pb <= s.len(),
            first_end <= pb,
            positions@.len() >= 1,
            positions@[0] == integer_spec(s@, p as int, first_end as int),
            more_positions(s@, first_end as int) == match more_positions(s@, pb as int) {
                Some((ps, f)) => Some((positions@.drop_first() + ps, f)),
                None => None::<(Seq<isize>, int)>,
            },
        decreases s.len() - pb,
    {
        let e = match number_end(s, pb + 1) {
            Some(e) => e,
            None => {
                return None;
            },
        };
        let v = integer_of(s, pb + 1, e);
        let ghost before = positions@;
        positions.push(v);
        proof {
            if let Some((ps, f)) = more_positions(s@, e as int) {
                assert(positions@.drop_first() + ps =~= before.drop_first() + (seq![v] + ps));
            }
        }
        pb = e;
    }
    assert(positions@ =~= seq![positions@[0]] + positions@.drop_first());
    let pc = ws(s, pb);
    if !peek(s, pc, ']') {
        return None;
    }
    let silent = peek(s, pc + 1, '?');
    let after = if silent { pc + 2 } else { pc + 1 };
    Some((Token::Index(IndexType::from_positions(positions, silent)), ws(s, after)))
}

/// `.name` or `."name"`, each with an optional trailing `?`.
pub open spec fn identifier_spec(s: Seq<char>, pos: int) -> Option<(StepModel, int)> {
    let p = skip(s, pos);
    if !at(s, p, '.') {
        None
    } else {
        let pa = skip(s, p + 1);
        match name_spec(s, pa) {
            Some((n, silent, e)) => Some((StepModel::Field(n, silent), skip(s, e))),
            None => match string_spec(s, pa) {
                Some((c, e)) => {
                    let silent = at(s, e, '?');
                    Some((StepModel::Field(c, silent), skip(s, if silent { e + 1 } else { e })))
                },
                None => None,
            },
        }
    }
}

/// One path step: a field, an index, a range or the identity, the first
/// that matches.
pub open spec fn key_spec(s: Seq<char>, pos: int) -> Option<(StepModel, int)> {
    if identifier_spec(s, pos) is Some {
        identifier_spec(s, pos)
    } else if index_step_spec(s, pos) is Some {
        index_step_spec(s, pos)
    } else if range_spec(s, pos) is Some {
        Some((StepModel::Slice(range_spec(s, pos)->Some_0.0), range_spec(s, pos)->Some_0.1))
    } else if identity_spec(s, pos) is Some {
        Some((StepModel::Identity, identity_spec(s, pos)->Some_0))
    } else {
        None
    }
}

/// A field step, as `identifier_spec` states.
fn identifier(q: &str, s: &Vec<char>, pos: usize) -> (r: Option<(Token, usize)>)
    requires
        pos <= s.len(),
        s@ == q@,
    ensures
        moved(r, pos, s.len() as int),
        parsed_step(r, identifier_spec(s@, pos as int)),
{
    let p = ws(s, pos);
    if !peek(s, p, '.') {
        return None;
    }
    let p = ws(s, p + 1);
    if let Some((t, e)) = ident(q, s, p) {
        return Some((t, ws(s, e)));
    }
    if let Some((name, e)) = string(q, s, p) {
        let silent = peek(s, e, '?');
        let after = if silent { e + 1 } else { e };
        return Some((Token::Ident(name, silent), ws(s, after)));
    }
    None
}

/// One path step, as `key_spec` states.
fn key(q: &str, s: &Vec<char>, pos: usize) -> (r: Option<(Token, usize)>)
    requires
        pos <= s.len(),
        s@ == q@,
    ensures
        moved(r, pos, s.len() as int),
        parsed_step(r, key_spec(s@, pos as int)),
{
    if let Some(t) = identifier(q, s, pos) {
        return Some(t);
    }
    if let Some(t) = index(q, s, pos) {
        return Some(t);
    }
    if let Some(t) = range(s, pos) {
        return Some(t);
    }
    identity(s, pos)
}

/// Further steps from `p`: their meanings and the end; the walk stops
/// where no step matches or a step would not move.
pub open spec fn more_keys(s: Seq<char>, p: int) -> (Seq<StepModel>, int)
    decreases s.len() - p,
{
    match key_spec(s, p) {
        Some((m, e)) => if p < e <= s.len() {
            let (ms, f) = more_keys(s, e);
            (seq![m] + ms, f)
        } else {
            (Seq::empty(), p)
        },
        None => (Seq::empty(), p),
    }
}

/// A path: one or more steps after blanks, then blanks.
pub open spec fn filter_text_spec(s: Seq<char>, pos: int) -> Option<(Seq<StepModel>, int)> {
    match key_spec(s, skip(s, pos)) {
        Some((m, e)) => {
            let (ms, f) = more_keys(s, e);
            Some((seq![m] + ms, skip(s, f)))
        },
        None => None,
    }
}

/// The meanings of a path's steps.
pub open spec fn steps_model(tokens: Seq<Token>) -> Seq<StepModel> {
    tokens.map_values(|t: Token| step_model(t))
}

/// Every index step of the path is well formed.
pub open spec fn steps_wf(tokens: Seq<Token>) -> bool {
    forall|i: int| 0 <= i < tokens.len() && (#[trigger] tokens[i]) is Index ==> tokens[i]->Index_0.wf()
}

/// A path, as `filter_text_spec` states.
fn filter(q: &str, s: &Vec<char>, pos: usize) -> (r: Option<(Action, usize)>)
    requires
        pos <= s.len(),
        s@ == q@,
    ensures
        moved(r, pos, s.len() as int),
        match filter_text_spec(s@, pos as int) {
            Some((ms, e)) => r is Some && r->Some_0.0 is Filter && steps_model(r->Some_0.0->Filter_0@) == ms
                && steps_wf(r->Some_0.0->Filter_0@) && r->Some_0.1 == e,
            None => r is None,
        },
{
    let p = ws(s, pos);
    let (first, mut p) = match key(q, s, p) {
        Some(k) => k,
        None => {
            return None;
        },
    };
    let first_end = p;
    let mut tokens: Vec<Token> = Vec::new();
    tokens.push(first);
    assert(steps_model(tokens@).drop_first() + more_keys(s@, p as int).0 =~= more_keys(s@, p as int).0);
    loop
        invariant
            pos <= p <= s.len(),
            s@ == q@,
            tokens@.len() >= 1,
            steps_wf(tokens@),
            key_spec(s@, skip(s@, pos as int)) is Some,
            steps_model(tokens@)[0] == key_spec(s@, skip(s@, pos as int))->Some_0.0,
            first_end == key_spec(s@, skip(s@, pos as int))->Some_0.1,
            more_keys(s@, first_end as int) == (
            steps_model(tokens@).drop_first() + more_keys(s@, p as int).0,
            more_keys(s@, p as int).1,
            ),
        ensures
            pos <= p <= s.len(),
            steps_wf(tokens@),
            tokens@.len() >= 1,
            steps_model(tokens@)[0] == key_spec(s@, skip(s@, pos as int))->Some_0.0,
            more_keys(s@, first_end as int) == (
            steps_model(tokens@).drop_first() + more_keys(s@, p as int).0,
            more_keys(s@, p as int).1,
            ),
            more_keys(s@, p as int) == (Seq::<StepModel>::empty(), p as int),
        decreases s.len() - p,
    {
        match key(q, s, p) {
            Some((t, e)) => {
                if e == p {
                    break;
                }
                let ghost before = tokens@;
                tokens.push(t);
                proof {
                    assert(steps_model(tokens@) =~= steps_model(before).push(step_model(t)));
                    let (ms, f) = more_keys(s@, e as int);
                    assert(steps_model(tokens@).drop_first() + ms =~= steps_model(before).drop_first() + (seq![step_model(t)] + ms));
                }
                p = e;
            },
            None => {
                break;
            },
        }
    }
    assert(steps_model(tokens@).drop_first() + Seq::<StepModel>::empty() =~= steps_model(tokens@).drop_first());
    assert(steps_model(tokens@) =~= seq![steps_model(tokens@)[0]] + steps_model(tokens@).drop_first());
    Some((Action::Filter(tokens), ws(s, p)))
}

/// What a built-in function call denotes.
pub enum FunctionModel {
    Length,
    HasKey(Seq<char>),
    HasIndex(isize),
    Recurse,
    Keys(bool),
}

/// The meaning of a built-in function.
pub open spec fn function_model(f: Function) -> FunctionModel {
    match f {
        Function::Length => FunctionModel::Length,
        Function::Has(h) => match h.spec_ident() {
            Some(k) => FunctionModel::HasKey(k),
            None => FunctionModel::HasIndex(h.spec_index()->Some_0),
        },
        Function::Recurse => FunctionModel::Recurse,
        Function::Keys(sort) => FunctionModel::Keys(sort),
    }
}

/// `has(` followed by a key or a position and `)`.
pub open spec fn has_args_spec(s: Seq<char>, a: int) -> Option<(FunctionModel, int)> {
    let by_key = match string_spec(s, a) {
        Some((c, e)) => {
            let b = skip(s, e);
            if at(s, b, ')') {
                Some((FunctionModel::HasKey(c), skip(s, b + 1)))
            } else {
                None
            }
        },
        None => None,
    };
    if by_key is Some {
        by_key
    } else {
        match number_end_spec(s, a) {
            Some(e) => {
                let b = skip(s, e);
                if at(s, b, ')') {
                    Some((FunctionModel::HasIndex(integer_spec(s, a, e)), skip(s, b + 1)))
                } else {
                    None
                }
            },
            None => None,
        }
    }
}

/// `length`, `has(...)`, `..`, `recurse`, `keys_unsorted` or `keys`, the
/// first that matches after blanks, then blanks.
pub open spec fn function_text_spec(s: Seq<char>, pos: int) -> Option<(FunctionModel, int)> {
    let p = skip(s, pos);
    if lit_spec(s, p, "length"@) is Some {
        Some((FunctionModel::Length, skip(s, lit_spec(s, p, "length"@)->Some_0)))
    } else if lit_spec(s, p, "has("@) is Some {
        has_args_spec(s, skip(s, lit_spec(s, p, "has("@)->Some_0))
    } else if lit_spec(s, p, ".."@) is Some {
        Some((FunctionModel::Recurse, skip(s, lit_spec(s, p, ".."@)->Some_0)))
    } else if lit_spec(s, p, "recurse"@) is Some {
        Some((FunctionModel::Recurse, skip(s, lit_spec(s, p, "recurse"@)->Some_0)))
    } else if lit_spec(s, p, "keys"@) is Some {
        let e = lit_spec(s, p, "keys"@)->Some_0;
        if lit_spec(s, e, "_unsorted"@) is Some {
            Some((FunctionModel::Keys(false), skip(s, lit_spec(s, e, "_unsorted"@)->Some_0)))
        } else {
            Some((FunctionModel::Keys(true), skip(s, e)))
        }
    } else {
        None
    }
}

/// A built-in function call, as `function_text_spec` states.
fn function(q: &str, s: &Vec<char>, pos: usize) -> (r: Option<(Action, usize)>)
    requires
        pos <= s.len(),
        s@ == q@,
    ensures
        moved(r, pos, s.len() as int),
        match function_text_spec(s@, pos as int) {
            Some((m, e)) => r is Some && r->Some_0.0 is Function && function_model(r->Some_0.0->Function_0) == m
                && (r->Some_0.0->Function_0 is Has ==> r->Some_0.0->Function_0->Has_0.wf()) && r->Some_0.1 == e,
            None => r is None,
        },
{
    let p = ws(s, pos);
    if let Some(e) = lit(s, p, "length") {
        return Some((Action::Function(Function::Length), ws(s, e)));
    }
    if let Some(e) = lit(s, p, "has(") {
        let a = ws(s, e);
        if let Some((key, e2)) = string(q, s, a) {
            let b = ws(s, e2);
            if peek(s, b, ')') {
                return Some((Action::Function(Function::Has(HasType::from_ident(key))), ws(s, b + 1)));
            }
        }
        if let Some(e2) = number_end(s, a) {
            let n = integer_of(s, a, e2);
            let b = ws(s, e2);
            if peek(s, b, ')') {
                return Some((Action::Function(Function::Has(HasType::from_index(n))), ws(s, b + 1)));
            }
        }
        return None;
    }
    if let Some(e) = lit(s, p, "..") {
        return Some((Action::Function(Function::Recurse), ws(s, e)));
    }
    if let Some(e) = lit(s, p, "recurse") {
        return Some((Action::Function(Function::Recurse), ws(s, e)));
    }
    if let Some(e) = lit(s, p, "keys") {
        if let Some(e2) = lit(s, e, "_unsorted") {
            return Some((Action::Function(Function::Keys(false)), ws(s, e2)));
        }
        return Some((Action::Function(Function::Keys(true)), ws(s, e)));
    }
    None
}

/// What an expression denotes.
pub enum ExprModel {
    Number(serde_json::Number),
    Str(Seq<char>),
    Step(StepModel),
    Op(Operator, Box<ExprModel>, Box<ExprModel>),
}

/// The meaning of an expression.
pub open spec fn expr_model(e: ExpressionType) -> ExprModel
    decreases e,
{
    match e {
        ExpressionType::Number(n) => ExprModel::Number(n),
        ExpressionType::String(t) => ExprModel::Str(t@),
        ExpressionType::Ident(t) => ExprModel::Step(step_model(t)),
        ExpressionType::Op(op, l, r) => ExprModel::Op(op, Box::new(expr_model(*l)), Box::new(expr_model(*r))),
    }
}

/// What an action denotes.
pub enum ActionModel {
    Filter(Seq<StepModel>),
    Function(FunctionModel),
    Expression(ExprModel),
}

/// The meaning of an action.
pub open spec fn action_model(a: Action) -> ActionModel {
    match a {
        Action::Filter(f) => ActionModel::Filter(steps_model(f@)),
        Action::Function(f) => ActionModel::Function(function_model(f)),
        Action::Expression(e) => ActionModel::Expression(expr_model(e)),
    }
}

/// The meanings of a list of actions.
pub open spec fn actions_model(acts: Seq<Action>) -> Seq<ActionModel> {
    acts.map_values(|a: Action| action_model(a))
}

/// The meaning of a block: its actions and whether it collects.
pub open spec fn block_model(b: Block) -> (Seq<ActionModel>, bool) {
    match b.actions {
        Some(v) => (actions_model(v@), b.collect),
        None => (Seq::empty(), b.collect),
    }
}

/// The meanings of a list of blocks.
pub open spec fn blocks_model(bs: Seq<Block>) -> Seq<(Seq<ActionModel>, bool)> {
    bs.map_values(|b: Block| block_model(b))
}

/// A path step whose index, if any, is well formed.
pub open spec fn step_wf(t: Token) -> bool {
    t is Index ==> t->Index_0.wf()
}

/// Every index step and `has` argument of an expression is well formed.
pub open spec fn expr_wf(e: ExpressionType) -> bool
    decreases e,
{
    match e {
        ExpressionType::Ident(t) => step_wf(t),
        ExpressionType::Op(_, l, r) => expr_wf(*l) && expr_wf(*r),
        _ => true,
    }
}

/// Every index step and `has` argument of an action is well formed.
pub open spec fn action_wf(a: Action) -> bool {
    match a {
        Action::Filter(f) => steps_wf(f@),
        Action::Function(Function::Has(h)) => h.wf(),
        Action::Function(_) => true,
        Action::Expression(e) => expr_wf(e),
    }
}

/// Appending a well-formed block keeps a sequence well formed.
pub proof fn lemma_blocks_wf_push(bs: Seq<Block>, b: Block)
    requires
        blocks_wf(bs),
        blocks_wf(seq![b]),
    ensures
        blocks_wf(bs.push(b)),
{
    assert forall|i: int| 0 <= i < bs.push(b).len() implies match (#[trigger] bs.push(b)[i]).actions {
        Some(v) => forall|k: int| 0 <= k < v@.len() ==> action_wf(#[trigger] v@[k]),
        None => true,
    } by {
        if i < bs.len() {
            assert(bs.push(b)[i] == bs[i]);
        } else {
            assert(bs.push(b)[i] == seq![b][0]);
        }
    }
}

/// Every block is well formed in the same sense.
pub open spec fn blocks_wf(bs: Seq<Block>) -> bool {
    forall|i: int|
        0 <= i < bs.len() ==> match (#[trigger] bs[i]).actions {
            Some(v) => forall|k: int| 0 <= k < v@.len() ==> action_wf(#[trigger] v@[k]),
            None => true,
        }
}

/// An operator of the additive and comparison level at `p`: the longest
/// symbol first.
pub open spec fn sum_op_spec(s: Seq<char>, p: int) -> Option<(Operator, int)> {
    if lit_spec(s, p, ">="@) is Some {
        Some((Operator::Gte, lit_spec(s, p, ">="@)->Some_0))
    } else if lit_spec(s, p, "<="@) is Some {
        Some((Operator::Lte, lit_spec(s, p, "<="@)->Some_0))
    } else if lit_spec(s, p, "!="@) is Some {
        Some((Operator::NotEqual, lit_spec(s, p, "!="@)->Some_0))
    } else if lit_spec(s, p, "=="@) is Some {
        Some((Operator::Equal, lit_spec(s, p, "=="@)->Some_0))
    } else if lit_spec(s, p, "+"@) is Some {
        Some((Operator::Plus, lit_spec(s, p, "+"@)->Some_0))
    } else if lit_spec(s, p, "-"@) is Some {
        Some((Operator::Minus, lit_spec(s, p, "-"@)->Some_0))
    } else if lit_spec(s, p, "<"@) is Some {
        Some((Operator::Lt, lit_spec(s, p, "<"@)->Some_0))
    } else if lit_spec(s, p, ">"@) is Some {
        Some((Operator::Gt, lit_spec(s, p, ">"@)->Some_0))
    } else {
        None
    }
}

/// An operator of the multiplicative level at `p`.
pub open spec fn product_op_spec(s: Seq<char>, p: int) -> Option<(Operator, int)> {
    if lit_spec(s, p, "*"@) is Some {
        Some((Operator::Multiply, lit_spec(s, p, "*"@)->Some_0))
    } else if lit_spec(s, p, "/"@) is Some {
        Some((Operator::Divide, lit_spec(s, p, "/"@)->Some_0))
    } else {
        None
    }
}

/// `sum := product (op product)?`: when no right operand follows the
/// operator, the sum is the left operand alone.
pub open spec fn sum_spec(s: Seq<char>, pos: int) -> Option<(ExprModel, int)>
    decreases s.len() - pos, 2nat,
{
    if !(0 <= pos <= s.len()) {
        None
    } else {
        match product_spec(s, pos) {
            Some((l, e)) => match sum_op_spec(s, skip(s, e)) {
                Some((op, e2)) => {
                    let pb = skip(s, e2);
                    if pos < e2 && e2 <= pb <= s.len() {
                        match product_spec(s, pb) {
                            Some((r, e3)) => Some((ExprModel::Op(op, Box::new(l), Box::new(r)), e3)),
                            None => Some((l, e)),
                        }
                    } else {
                        Some((l, e))
                    }
                },
                None => Some((l, e)),
            },
            None => None,
        }
    }
}

/// `product := atom (op atom)?`, in the same way.
pub open spec fn product_spec(s: Seq<char>, pos: int) -> Option<(ExprModel, int)>
    decreases s.len() - pos, 1nat,
{
    if !(0 <= pos <= s.len()) {
        None
    } else {
        match atom_spec(s, pos) {
            Some((l, e)) => match product_op_spec(s, skip(s, e)) {
                Some((op, e2)) => {
                    let pb = skip(s, e2);
                    if pos < e2 && e2 <= pb <= s.len() {
                        match atom_spec(s, pb) {
                            Some((r, e3)) => Some((ExprModel::Op(op, Box::new(l), Box::new(r)), e3)),
                            None => Some((l, e)),
                        }
                    } else {
                        Some((l, e))
                    }
                },
                None => Some((l, e)),
            },
            None => None,
        }
    }
}

/// `atom := number | string | key | ( sum )`, the first that matches.
pub open spec fn atom_spec(s: Seq<char>, pos: int) -> Option<(ExprModel, int)>
    decreases s.len() - pos, 0nat,
{
    if !(0 <= pos <= s.len()) {
        None
    } else if number_end_spec(s, pos) is Some {
        let e = number_end_spec(s, pos)->Some_0;
        match number_of_text(literal_text(s, pos, e)) {
            Some(n) => Some((ExprModel::Number(n), e)),
            None => None,
        }
    } else if string_spec(s, pos) is Some {
        Some((ExprModel::Str(string_spec(s, pos)->Some_0.0), string_spec(s, pos)->Some_0.1))
    } else if key_spec(s, pos) is Some {
        Some((ExprModel::Step(key_spec(s, pos)->Some_0.0), key_spec(s, pos)->Some_0.1))
    } else if at(s, pos, '(') {
        let p = skip(s, pos + 1);
        if pos < p <= s.len() {
            match sum_spec(s, p) {
                Some((inner, e)) => {
                    let e2 = skip(s, e);
                    if at(s, e2, ')') {
                        Some((inner, e2 + 1))
                    } else {
                        None
                    }
                },
                None => None,
            }
        } else {
            None
        }
    } else {
        None
    }
}

/// A path, a function call or an expression, the first that matches.
pub open spec fn action_text_spec(s: Seq<char>, pos: int) -> Option<(ActionModel, int)> {
    if filter_text_spec(s, pos) is Some {
        Some((ActionModel::Filter(filter_text_spec(s, pos)->Some_0.0), filter_text_spec(s, pos)->Some_0.1))
    } else if function_text_spec(s, pos) is Some {
        Some((ActionModel::Function(function_text_spec(s, pos)->Some_0.0), function_text_spec(s, pos)->Some_0.1))
    } else {
        match sum_spec(s, pos) {
            Some((m, e)) => Some((ActionModel::Expression(m), e)),
            None => None,
        }
    }
}

/// Further `,action` from `p`: the actions and their end; the walk stops
/// where no comma and action follow.
pub open spec fn more_actions(s: Seq<char>, p: int) -> (Seq<ActionModel>, int)
    decreases s.len() - p,
{
    if at(s, p, ',') {
        match action_text_spec(s, p + 1) {
            Some((m, e)) => if p < e <= s.len() {
                let (ms, f) = more_actions(s, e);
                (seq![m] + ms, f)
            } else {
                (Seq::empty(), p)
            },
            None => (Seq::empty(), p),
        }
    } else {
        (Seq::empty(), p)
    }
}

/// One or more actions separated by `,`.
pub open spec fn actions_text_spec(s: Seq<char>, pos: int) -> Option<(Seq<ActionModel>, int)> {
    match action_text_spec(s, pos) {
        Some((m, e)) => {
            let (ms, f) = more_actions(s, e);
            Some((seq![m] + ms, f))
        },
        None => None,
    }
}

/// Actions, or actions in brackets (which collect), with blanks around.
pub open spec fn block_text_spec(s: Seq<char>, pos: int) -> Option<((Seq<ActionModel>, bool), int)> {
    let p = skip(s, pos);
    match actions_text_spec(s, p) {
        Some((ms, e)) => Some(((ms, false), skip(s, e))),
        None => if at(s, p, '[') {
            match actions_text_spec(s, skip(s, p + 1)) {
                Some((ms, e)) => {
                    let e1 = skip(s, e);
                    if at(s, e1, ']') {
                        Some(((ms, true), skip(s, e1 + 1)))
                    } else {
                        None
                    }
                },
                None => None,
            }
        } else {
            None
        },
    }
}

/// Further `|block` from `p`: the blocks and their end.
pub open spec fn more_blocks(s: Seq<char>, p: int) -> (Seq<(Seq<ActionModel>, bool)>, int)
    decreases s.len() - p,
{
    if at(s, p, '|') {
        match block_text_spec(s, p + 1) {
            Some((b, e)) => if p < e <= s.len() {
                let (bs, f) = more_blocks(s, e);
                (seq![b] + bs, f)
            } else {
                (Seq::empty(), p)
            },
            None => (Seq::empty(), p),
        }
    } else {
        (Seq::empty(), p)
    }
}

/// The query grammar: blocks separated by `|` that cover the whole text;
/// the empty text has no blocks. `None` where the text does not match.
pub open spec fn query_text_spec(s: Seq<char>) -> Option<Seq<(Seq<ActionModel>, bool)>> {
    if s.len() == 0 {
        Some(Seq::empty())
    } else {
        match block_text_spec(s, 0) {
            Some((b, e)) => {
                let (bs, f) = more_blocks(s, e);
                if f == s.len() {
                    Some(seq![b] + bs)
                } else {
                    None
                }
            },
            None => None,
        }
    }
}

/// An operator of the additive and comparison level.
fn sum_op(s: &Vec<char>, pos: usize) -> (r: Option<(Operator, usize)>)
    requires
        pos <= s.len(),
    ensures
        moved(r, pos, s.len() as int),
        match sum_op_spec(s@, pos as int) {
            Some((op, e)) => r is Some && r->Some_0.0 == op && r->Some_0.1 == e,
            None => r is None,
        },
{
    if let Some(e) = lit(s, pos, ">=") {
        return Some((Operator::Gte, e));
    }
    if let Some(e) = lit(s, pos, "<=") {
        return Some((Operator::Lte, e));
    }
    if let Some(e) = lit(s, pos, "!=") {
        return Some((Operator::NotEqual, e));
    }
    if let Some(e) = lit(s, pos, "==") {
        return Some((Operator::Equal, e));
    }
    if let Some(e) = lit(s, pos, "+") {
        return Some((Operator::Plus, e));
    }
    if let Some(e) = lit(s, pos, "-") {
        return Some((Operator::Minus, e));
    }
    if let Some(e) = lit(s, pos, "<") {
        return Some((Operator::Lt, e));
    }
    if let Some(e) = lit(s, pos, ">") {
        return Some((Operator::Gt, e));
    }
    None
}

/// An operator of the multiplicative level.
fn product_op(s: &Vec<char>, pos: usize) -> (r: Option<(Operator, usize)>)
    requires
        pos <= s.len(),
    ensures
        moved(r, pos, s.len() as int),
        match product_op_spec(s@, pos as int) {
            Some((op, e)) => r is Some && r->Some_0.0 == op && r->Some_0.1 == e,
            None => r is None,
        },
{
    if let Some(e) = lit(s, pos, "*") {
        return Some((Operator::Multiply, e));
    }
    if let Some(e) = lit(s, pos, "/") {
        return Some((Operator::Divide, e));
    }
    None
}

/// An expression of the additive level, as `sum_spec` states.
fn sum(q: &str, s: &Vec<char>, pos: usize) -> (r: Option<(ExpressionType, usize)>)
    requires
        pos <= s.len(),
        s@ == q@,
    ensures
        moved(r, pos, s.len() as int),
        match sum_spec(s@, pos as int) {
            Some((m, e)) => r is Some && expr_model(r->Some_0.0) == m && expr_wf(r->Some_0.0) && r->Some_0.1
                == e,
            None => r is None,
        },
    decreases s.len() - pos, 2nat,
{
    let (left, e) = match product(q, s, pos) {
        Some(x) => x,
        None => {
            return None;
        },
    };
    let p = ws(s, e);
    if let Some((op, e2)) = sum_op(s, p) {
        if e2 > pos {
            let pb = ws(s, e2);
            if let Some((right, e3)) = product(q, s, pb) {
                return Some((ExpressionType::Op(op, Box::new(left), Box::new(right)), e3));
            }
        }
    }
    Some((left, e))
}

/// An expression of the multiplicative level, as `product_spec` states.
fn product(q: &str, s: &Vec<char>, pos: usize) -> (r: Option<(ExpressionType, usize)>)
    requires
        pos <= s.len(),
        s@ == q@,
    ensures
        moved(r, pos, s.len() as int),
        match product_spec(s@, pos as int) {
            Some((m, e)) => r is Some && expr_model(r->Some_0.0) == m && expr_wf(r->Some_0.0) && r->Some_0.1
                == e,
            None => r is None,
        },
    decreases s.len() - pos, 1nat,
{
    let (left, e) = match atom(q, s, pos) {
        Some(x) => x,
        None => {
            return None;
        },
    };
    let p = ws(s, e);
    if let Some((op, e2)) = product_op(s, p) {
        if e2 > pos {
            let pb = ws(s, e2);
            if let Some((right, e3)) = atom(q, s, pb) {
                return Some((ExpressionType::Op(op, Box::new(left), Box::new(right)), e3));
            }
        }
    }
    Some((left, e))
}

/// An operand, as `atom_spec` states.
fn atom(q: &str, s: &Vec<char>, pos: usize) -> (r: Option<(ExpressionType, usize)>)
    requires
        pos <= s.len(),
        s@ == q@,
    ensures
        moved(r, pos, s.len() as int),
        match atom_spec(s@, pos as int) {
            Some((m, e)) => r is Some && expr_model(r->Some_0.0) == m && expr_wf(r->Some_0.0) && r->Some_0.1
                == e,
            None => r is None,
        },
    decreases s.len() - pos, 0nat,
{
    if let Some(e) = number_end(s, pos) {
        return match number_literal(s, pos, e) {
            Some(n) => Some((ExpressionType::Number(n), e)),
            None => None,
        };
    }
    if let Some((text, e)) = string(q, s, pos) {
        return Some((ExpressionType::String(text), e));
    }
    if let Some((t, e)) = key(q, s, pos) {
        return Some((ExpressionType::Ident(t), e));
    }
    if peek(s, pos, '(') {
        let p = ws(s, pos + 1);
        if let Some((inner, e)) = sum(q, s, p) {
            let e = ws(s, e);
            if peek(s, e, ')') {
                return Some((inner, e + 1));
            }
        }
    }
    None
}

/// A path, a function or an expression, as `action_text_spec` states.
fn action(q: &str, s: &Vec<char>, pos: usize) -> (r: Option<(Action, usize)>)
    requires
        pos <= s.len(),
        s@ == q@,
    ensures
        moved(r, pos, s.len() as int),
        match action_text_spec(s@, pos as int) {
            Some((m, e)) => r is Some && action_model(r->Some_0.0) == m && action_wf(r->Some_0.0) && r->Some_0.1
                == e,
            None => r is None,
        },
{
    if let Some(a) = filter(q, s, pos) {
        return Some(a);
    }
    if let Some(a) = function(q, s, pos) {
        return Some(a);
    }
    match sum(q, s, pos) {
        Some((e, p)) => Some((Action::Expression(e), p)),
        None => None,
    }
}

/// One or more actions separated by `,`, as `actions_text_spec` states.
#[verifier::rlimit(40)]
fn actions(q: &str, s: &Vec<char>, pos: usize) -> (r: Option<(Vec<Action>, usize)>)
    requires
        pos <= s.len(),
        s@ == q@,
    ensures
        moved(r, pos, s.len() as int),
        match actions_text_spec(s@, pos as int) {
            Some((ms, e)) => r is Some && actions_model(r->Some_0.0@) == ms && (forall|k: int|
                0 <= k < r->Some_0.0@.len() ==> action_wf(#[trigger] r->Some_0.0@[k])) && r->Some_0.1 == e,
            None => r is None,
        },
{
    let (first, mut p) = match action(q, s, pos) {
        Some(a) => a,
        None => {
            return None;
        },
    };
    let first_end = p;
    let mut list: Vec<Action> = Vec::new();
    list.push(first);
    assert(actions_model(list@).drop_first() + more_actions(s@, p as int).0 =~= more_actions(s@, p as int).0);
    loop
        invariant
            pos <= first_end <= p <= s.len(),
            s@ == q@,
            list@.len() >= 1,
            forall|k: int| 0 <= k < list@.len() ==> action_wf(#[trigger] list@[k]),
            action_text_spec(s@, pos as int) is Some,
            actions_model(list@)[0] == action_text_spec(s@, pos as int)->Some_0.0,
            first_end == action_text_spec(s@, pos as int)->Some_0.1,
            more_actions(s@, first_end as int) == (
            actions_model(list@).drop_first() + more_actions(s@, p as int).0,
            more_actions(s@, p as int).1,
            ),
        ensures
            pos <= p <= s.len(),
            list@.len() >= 1,
            forall|k: int| 0 <= k < list@.len() ==> action_wf(#[trigger] list@[k]),
            actions_model(list@)[0] == action_text_spec(s@, pos as int)->Some_0.0,
            more_actions(s@, first_end as int) == (
            actions_model(list@).drop_first() + more_actions(s@, p as int).0,
            more_actions(s@, p as int).1,
            ),
            more_actions(s@, p as int) == (Seq::<ActionModel>::empty(), p as int),
        decreases s.len() - p,
    {
        if !peek(s, p, ',') {
            break;
        }
        match action(q, s, p + 1) {
            Some((a, e)) => {
                let ghost before = list@;
                let ghost m = action_model(a);
                list.push(a);
                proof {
                    assert(actions_model(list@) =~= actions_model(before).push(m));
                    let (ms, f) = more_actions(s@, e as int);
                    assert(actions_model(list@).drop_first() + ms =~= actions_model(before).drop_first() + (seq![m] + ms));
                }
                p = e;
            },
            None => {
                break;
            },
        }
    }
    assert(actions_model(list@).drop_first() + Seq::<ActionModel>::empty() =~= actions_model(list@).drop_first());
    assert(actions_model(list@) =~= seq![actions_model(list@)[0]] + actions_model(list@).drop_first());
    Some((list, p))
}

/// Actions, or actions in brackets, as `block_text_spec` states.
fn block(q: &str, s: &Vec<char>, pos: usize) -> (r: Option<(Block, usize)>)
    requires
        pos <= s.len(),
        s@ == q@,
    ensures
        moved(r, pos, s.len() as int),
        match block_text_spec(s@, pos as int) {
            Some((m, e)) => r is Some && r->Some_0.0.actions is Some && block_model(r->Some_0.0) == m
                && blocks_wf(seq![r->Some_0.0]) && r->Some_0.1 == e,
            None => r is None,
        },
{
    let p = ws(s, pos);
    if let Some((list, e)) = actions(q, s, p) {
        return Some((Block { actions: Some(list), collect: false }, ws(s, e)));
    }
    if !peek(s, p, '[') {
        return None;
    }
    let p = ws(s, p + 1);
    let (list, e) = match actions(q, s, p) {
        Some(x) => x,
        None => {
            return None;
        },
    };
    let e = ws(s, e);
    if !peek(s, e, ']') {
        return None;
    }
    Some((Block { actions: Some(list), collect: true }, ws(s, e + 1)))
}

/// The characters of `input`.
fn chars_of(input: &str) -> (s: Vec<char>)
    ensures
        s@ == input@,
{
    let n = input.unicode_len();
    let mut s: Vec<char> = Vec::new();
    let mut i: usize = 0;
    while i < n
        invariant
            i <= n,
            n == input@.len(),
            s@ =~= input@.take(i as int),
        decreases n - i,
    {
        s.push(input.get_char(i));
        i = i + 1;
    }
    assert(s@ =~= input@);
    s
}

/// The query `.` is one block with one path, the identity step.
pub proof fn lemma_identity_text()
    ensures
        query_text_spec("."@) == Some(seq![(seq![ActionModel::Filter(seq![StepModel::Identity])], false)]),
{
    reveal_strlit(".");
    let s = "."@;
    assert(s.len() == 1 && s[0] == '.');
    assert(run_end(s, 0, |c: char| is_blank(c)) == 0);
    assert(run_end(s, 1, |c: char| is_blank(c)) == 1);
    assert(skip(s, 0) == 0);
    assert(skip(s, 1) == 1);
    assert(name_spec(s, 1) is None);
    assert(string_spec(s, 1) is None);
    assert(identifier_spec(s, 0) is None);
    assert(index_step_spec(s, 0) is None);
    assert(range_spec(s, 0) is None);
    assert(identity_spec(s, 0) == Some(1int));
    assert(key_spec(s, 0) == Some((StepModel::Identity, 1int)));
    assert(identifier_spec(s, 1) is None);
    assert(index_step_spec(s, 1) is None);
    assert(range_spec(s, 1) is None);
    assert(identity_spec(s, 1) is None);
    assert(key_spec(s, 1) is None);
    assert(more_keys(s, 1) == (Seq::<StepModel>::empty(), 1int));
    assert(seq![StepModel::Identity] + Seq::<StepModel>::empty() =~= seq![StepModel::Identity]);
    assert(filter_text_spec(s, 0) == Some((seq![StepModel::Identity], 1int)));
    let a = ActionModel::Filter(seq![StepModel::Identity]);
    assert(action_text_spec(s, 0) == Some((a, 1int)));
    assert(more_actions(s, 1) == (Seq::<ActionModel>::empty(), 1int));
    assert(seq![a] + Seq::<ActionModel>::empty() =~= seq![a]);
    assert(actions_text_spec(s, 0) == Some((seq![a], 1int)));
    assert(block_text_spec(s, 0) == Some(((seq![a], false), 1int)));
    assert(more_blocks(s, 1) == (Seq::<(Seq<ActionModel>, bool)>::empty(), 1int));
    assert(seq![(seq![a], false)] + Seq::<(Seq<ActionModel>, bool)>::empty() =~= seq![(seq![a], false)]);
}

/// What a rule read, when it read the whole text of length `n`.
pub open spec fn covers<M>(m: Option<(M, int)>, n: int) -> Option<M> {
    match m {
        Some((x, e)) => if e == n {
            Some(x)
        } else {
            None
        },
        None => None,
    }
}

/// The result of one grammar rule, which must cover the whole text.
fn whole<T>(r: Option<(T, usize)>, n: usize) -> (out: Result<T, JQError>)
    ensures
        out is Err ==> out->Err_0 is ParseError,
        match r {
            Some((t, e)) => if e == n {
                out == Ok::<T, JQError>(t)
            } else {
                out is Err
            },
            None => out is Err,
        },
{
    match r {
        Some((t, e)) => if e == n {
            Ok(t)
        } else {
            Err(JQError::ParseError)
        },
        None => Err(JQError::ParseError),
    }
}

/// Reads the whole text as one path step.
pub fn parse_key(input: &str) -> (r: Result<Token, JQError>)
    ensures
        match covers(key_spec(input@, 0), input@.len() as int) {
            Some(m) => r is Ok && step_model(r->Ok_0) == m,
            None => r is Err && r->Err_0 is ParseError,
        },
{
    let s = chars_of(input);
    whole(key(input, &s, 0), s.len())
}

/// Reads the whole text as an index step (`["key"]` or `[n, ...]`).
pub fn parse_index(input: &str) -> (r: Result<Token, JQError>)
    ensures
        match covers(index_step_spec(input@, 0), input@.len() as int) {
            Some(m) => r is Ok && step_model(r->Ok_0) == m && r->Ok_0->Index_0.wf(),
            None => r is Err && r->Err_0 is ParseError,
        },
{
    let s = chars_of(input);
    whole(index(input, &s, 0), s.len())
}

/// Reads the whole text as a range step.
pub fn parse_range(input: &str) -> (r: Result<Token, JQError>)
    ensures
        match covers(range_spec(input@, 0), input@.len() as int) {
            Some(g) => r == Ok::<Token, JQError>(Token::Range(g)),
            None => r is Err && r->Err_0 is ParseError,
        },
{
    let s = chars_of(input);
    whole(range(&s, 0), s.len())
}

/// Reads the whole text as a field step (`.name` or `."name"`).
pub fn parse_identifier(input: &str) -> (r: Result<Token, JQError>)
    ensures
        match covers(identifier_spec(input@, 0), input@.len() as int) {
            Some(m) => r is Ok && step_model(r->Ok_0) == m,
            None => r is Err && r->Err_0 is ParseError,
        },
{
    let s = chars_of(input);
    whole(identifier(input, &s, 0), s.len())
}

/// Reads the whole text as a field name.
pub fn parse_ident(input: &str) -> (r: Result<Token, JQError>)
    ensures
        match name_spec(input@, 0) {
            Some((name, silent, e)) => if e == input@.len() {
                r is Ok && r->Ok_0 is Ident && r->Ok_0->Ident_0@ == name && r->Ok_0->Ident_1 == silent
            } else {
                r is Err && r->Err_0 is ParseError
            },
            None => r is Err && r->Err_0 is ParseError,
        },
{
    let s = chars_of(input);
    whole(ident(input, &s, 0), s.len())
}

/// Reads the whole text as a quoted string, giving its contents.
pub fn parse_string(input: &str) -> (r: Result<String, JQError>)
    ensures
        match covers(string_spec(input@, 0), input@.len() as int) {
            Some(c) => r is Ok && r->Ok_0@ == c,
            None => r is Err && r->Err_0 is ParseError,
        },
{
    let s = chars_of(input);
    whole(string(input, &s, 0), s.len())
}

/// Reads the whole text as a number literal.
pub fn parse_number(input: &str) -> (r: Result<serde_json::Number, JQError>)
    ensures
        match number_end_spec(input@, 0) {
            Some(e) => if e == input@.len() {
                match number_of_text(literal_text(input@, 0, e)) {
                    Some(n) => r == Ok::<serde_json::Number, JQError>(n),
                    None => r is Err && r->Err_0 is ParseError,
                }
            } else {
                r is Err && r->Err_0 is ParseError
            },
            None => r is Err && r->Err_0 is ParseError,
        },
{
    let s = chars_of(input);
    match number_end(&s, 0) {
        Some(e) => if e == s.len() {
            match number_literal(&s, 0, e) {
                Some(n) => Ok(n),
                None => Err(JQError::ParseError),
            }
        } else {
            Err(JQError::ParseError)
        },
        None => Err(JQError::ParseError),
    }
}

/// Reads the whole text as an operator symbol.
pub fn parse_operator(input: &str) -> (r: Result<Operator, JQError>)
    ensures
        match (if sum_op_spec(input@, 0) is Some { sum_op_spec(input@, 0) } else { product_op_spec(input@, 0) }) {
            Some((op, e)) => if e == input@.len() {
                r == Ok::<Operator, JQError>(op)
            } else {
                r is Err && r->Err_0 is ParseError
            },
            None => r is Err && r->Err_0 is ParseError,
        },
{
    let s = chars_of(input);
    match sum_op(&s, 0) {
        Some((op, e)) => whole(Some((op, e)), s.len()),
        None => whole(product_op(&s, 0), s.len()),
    }
}

/// Reads the whole text as a path.
pub fn parse_filter(input: &str) -> (r: Result<Action, JQError>)
    ensures
        match covers(filter_text_spec(input@, 0), input@.len() as int) {
            Some(ms) => r is Ok && r->Ok_0 is Filter && steps_model(r->Ok_0->Filter_0@) == ms,
            None => r is Err && r->Err_0 is ParseError,
        },
{
    let s = chars_of(input);
    whole(filter(input, &s, 0), s.len())
}

/// Reads the whole text as a built-in function call.
pub fn parse_function(input: &str) -> (r: Result<Action, JQError>)
    ensures
        match covers(function_text_spec(input@, 0), input@.len() as int) {
            Some(m) => r is Ok && r->Ok_0 is Function && function_model(r->Ok_0->Function_0) == m,
            None => r is Err && r->Err_0 is ParseError,
        },
{
    let s = chars_of(input);
    whole(function(input, &s, 0), s.len())
}

/// Reads the whole text as one block.
pub fn parse_block(input: &str) -> (r: Result<Block, JQError>)
    ensures
        match covers(block_text_spec(input@, 0), input@.len() as int) {
            Some(m) => r is Ok && block_model(r->Ok_0) == m,
            None => r is Err && r->Err_0 is ParseError,
        },
{
    let s = chars_of(input);
    whole(block(input, &s, 0), s.len())
}

/// Parses a query: blocks separated by `|`, covering the whole text, as
/// `query_text_spec` states. Any mismatch is a `ParseError`; the empty
/// query has no blocks.
#[verifier::rlimit(40)]
pub fn parse(input: &str) -> (r: Result<Vec<Block>, JQError>)
    ensures
        match query_text_spec(input@) {
            Some(bms) => r is Ok && blocks_model(r->Ok_0@) == bms && blocks_wf(r->Ok_0@) && (forall|i: int|
                0 <= i < r->Ok_0@.len() ==> (#[trigger] r->Ok_0@[i]).actions is Some),
            None => r is Err && r->Err_0 is ParseError,
        },
        input@.len() == 0 ==> r is Ok && r->Ok_0@.len() == 0,
{
    let s = chars_of(input);
    let mut blocks: Vec<Block> = Vec::new();
    if s.len() == 0 {
        assert(blocks_model(blocks@) =~= Seq::<(Seq<ActionModel>, bool)>::empty());
        return Ok(blocks);
    }
    let (b, first_end) = match block(input, &s, 0) {
        Some(x) => x,
        None => {
            return Err(JQError::ParseError);
        },
    };
    proof {
        lemma_blocks_wf_push(blocks@, b);
    }
    blocks.push(b);
    let mut p = first_end;
    assert(blocks_model(blocks@).drop_first() + more_blocks(s@, p as int).0 =~= more_blocks(s@, p as int).0);
    loop
        invariant
            first_end <= p <= s.len(),
            s@ == input@,
            blocks@.len() >= 1,
            blocks_wf(blocks@),
            forall|i: int| 0 <= i < blocks@.len() ==> (#[trigger] blocks@[i]).actions is Some,
            block_text_spec(s@, 0) is Some,
            blocks_model(blocks@)[0] == block_text_spec(s@, 0)->Some_0.0,
            first_end == block_text_spec(s@, 0)->Some_0.1,
            more_blocks(s@, first_end as int) == (
            blocks_model(blocks@).drop_first() + more_blocks(s@, p as int).0,
            more_blocks(s@, p as int).1,
            ),
        ensures
            p <= s.len(),
            blocks@.len() >= 1,
            blocks_wf(blocks@),
            forall|i: int| 0 <= i < blocks@.len() ==> (#[trigger] blocks@[i]).actions is Some,
            blocks_model(blocks@)[0] == block_text_spec(s@, 0)->Some_0.0,
            more_blocks(s@, first_end as int) == (
            blocks_model(blocks@).drop_first() + more_blocks(s@, p as int).0,
            more_blocks(s@, p as int).1,
            ),
            more_blocks(s@, p as int) == (Seq::<(Seq<ActionModel>, bool)>::empty(), p as int),
        decreases s.len() - p,
    {
        if !peek(&s, p, '|') {
            break;
        }
        match block(input, &s, p + 1) {
            Some((b, e)) => {
                let ghost before = blocks@;
                let ghost m = block_model(b);
                proof {
                    lemma_blocks_wf_push(before, b);
                }
                blocks.push(b);
                proof {
                    assert(blocks_model(blocks@) =~= blocks_model(before).push(m));
                    let (ms, f) = more_blocks(s@, e as int);
                    assert(blocks_model(blocks@).drop_first() + ms =~= blocks_model(before).drop_first() + (seq![m] + ms));
                }
                p = e;
            },
            None => {
                break;
            },
        }
    }
    if p != s.len() {
        return Err(JQError::ParseError);
    }
    assert(blocks_model(blocks@).drop_first() + Seq::<(Seq<ActionModel>, bool)>::empty() =~= blocks_model(blocks@).drop_first());
    assert(blocks_model(blocks@) =~= seq![blocks_model(blocks@)[0]] + blocks_model(blocks@).drop_first());
    Ok(blocks)
}

} // verus!
