//! A small jq-style query engine: a query string is parsed into a pipeline
//! of blocks, which is then evaluated against an in-memory JSON value.

pub mod action;
pub mod block;
pub mod command;
pub mod errors;
pub mod eval;
pub mod evaluate;
pub mod expression_type;
pub mod function;
pub mod has;
pub mod has_type;
pub mod index_type;
pub mod key_type;
pub mod keys;
pub mod laws;
pub mod length;
pub mod number;
pub mod operator;
pub mod parser;
pub mod pipeline;
pub mod pretty_print;
pub mod query;
pub mod range;
pub mod range_type;
pub mod recurse;
pub mod token;
pub mod value;

pub use action::{Action, Filter};
pub use block::Block;
pub use command::Command;
pub use errors::JQError;
pub use eval::{
    add_array, add_bool, add_null, add_number, add_object, add_string, add_value, divide_number,
    divide_value, equality_value, equate_value, multiply_number, multiply_value, subtract_array,
    subtract_bool, subtract_null, subtract_number, subtract_object, subtract_string, subtract_value,
};
pub use evaluate::fn_evaluate;
pub use expression_type::ExpressionType;
pub use function::Function;
pub use has::fn_has;
pub use has_type::HasType;
pub use index_type::IndexType;
pub use key_type::KeyType;
pub use keys::fn_keys;
pub use length::fn_length;
pub use operator::Operator;
pub use parser::{
    parse, parse_block, parse_filter, parse_function, parse_ident, parse_identifier, parse_index,
    parse_key, parse_number, parse_operator, parse_range, parse_string,
};
pub use pipeline::{query, query_block, query_filter, query_function, query_single_token};
pub use pretty_print::PrettyPrint;
pub use query::{
    query_array_index, query_ident, query_identity, query_index, query_object_ident,
    query_object_index, query_range,
};
pub use range::Range;
pub use range_type::RangeType;
pub use recurse::fn_recurse;
pub use token::Token;
pub use value::{Kind, Value};

use laws::lemma_identity_query;
use parser::{blocks_model, blocks_wf, lemma_identity_text, query_text_spec};
use pipeline::query_spec;
use query::rview;
use value::views;
use vstd::prelude::*;

verus! {

/// Parses `query_str` and evaluates it against `value`: a text that the
/// grammar refuses is a `ParseError`; otherwise the result is the
/// evaluation, on the one-value batch `[value]`, of the blocks that the
/// grammar reads. The empty query and `.` return the value itself.
pub fn jq_from_value(value: &Value, query_str: &str) -> (r: Result<Vec<Value>, JQError>)
    ensures
        query_text_spec(query_str@) is None ==> r is Err && r->Err_0 is ParseError,
        query_text_spec(query_str@) is Some ==> exists|bs: Seq<Block>|
            blocks_model(bs) == query_text_spec(query_str@)->Some_0 && blocks_wf(bs) && (forall|i: int|
                0 <= i < bs.len() ==> (#[trigger] bs[i]).actions is Some) && #[trigger] query_spec(
                seq![value@],
                bs,
            ) == rview(r),
        query_str@.len() == 0 ==> r is Ok && views(r->Ok_0@) == seq![value@],
        query_str@ == "."@ ==> r is Ok && views(r->Ok_0@) == seq![value@],
{
    let blocks = match parse(query_str) {
        Ok(b) => b,
        Err(e) => {
            proof {
                if query_str@ == "."@ {
                    lemma_identity_text();
                }
            }
            return Err(e);
        },
    };
    let ghost bs = blocks@;
    proof {
        if query_str@ == "."@ {
            lemma_identity_text();
            lemma_identity_query(value@, bs);
        }
    }
    let input = vec![value.deep_clone()];
    assert(views(input@) =~= seq![value@]);
    let r = query(input.as_slice(), blocks);
    assert(blocks_model(bs) == query_text_spec(query_str@)->Some_0 && blocks_wf(bs) && (forall|i: int|
        0 <= i < bs.len() ==> (#[trigger] bs[i]).actions is Some) && query_spec(seq![value@], bs) == rview(r));
    r
}

} // verus!
