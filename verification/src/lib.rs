pub mod ast;
pub mod parser;

use vstd::prelude::*;

verus! {

use crate::ast::{spec_eval, ArithmeticFault};
use crate::parser::{spec_parse_expr, ParseFailure};

/// Everything a `expr_eval` call can fail with: either the grammar did not
/// match, or the matched expression faulted during evaluation.
#[derive(Debug, PartialEq, Eq, Clone, Copy)]
pub enum CalcError {
    Parse(ParseFailure),
    Arithmetic(ArithmeticFault),
}

/// The value of an input text: parse the longest `expr` prefix, discard any
/// unconsumed suffix, and evaluate the tree.
pub open spec fn spec_expr_eval(s: Seq<char>) -> Result<int, CalcError> {
    match spec_parse_expr(s, 0) {
        Err(f) => Err(CalcError::Parse(f)),
        Ok((e, _)) => match spec_eval(e) {
            Ok(v) => Ok(v),
            Err(f) => Err(CalcError::Arithmetic(f)),
        },
    }
}

/// Exact agreement of an executable entry-point result with its mathematical
/// counterpart.
pub open spec fn calc_result_matches(r: Result<i32, CalcError>, sr: Result<int, CalcError>) -> bool {
    match (r, sr) {
        (Ok(v), Ok(sv)) => v as int == sv,
        (Err(f), Err(sf)) => f == sf,
        _ => false,
    }
}

/// Parse `s` and evaluate the resulting tree.  Trailing input past the
/// matched prefix is silently discarded.
pub fn expr_eval(s: &str) -> (r: Result<i32, CalcError>)
    ensures
        calc_result_matches(r, spec_expr_eval(s@)),
{
    match crate::parser::expr_parser(s, 0) {
        Err(f) => Err(CalcError::Parse(f)),
        Ok((e, _)) => match e.eval() {
            Ok(v) => Ok(v),
            Err(f) => Err(CalcError::Arithmetic(f)),
        },
    }
}

/// Evaluation is deterministic: two results that both satisfy the
/// entry-point contract for the same text are equal.
pub proof fn lemma_expr_eval_deterministic(
    s: Seq<char>,
    r1: Result<i32, CalcError>,
    r2: Result<i32, CalcError>,
)
    requires
        calc_result_matches(r1, spec_expr_eval(s)),
        calc_result_matches(r2, spec_expr_eval(s)),
    ensures
        r1 == r2,
{
}

} // verus!
