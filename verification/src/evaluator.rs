//! An alternate entry point to the evaluator that keeps the historical name:
//! evaluation with canonical renaming of the result.

use vstd::prelude::*;

use crate::error::LambdaError;
use crate::evaluate::{msg_step_limit, spec_evaluate_raw};
use crate::expr::Expression;
use crate::normalize::spec_normalize;

verus! {

/// Evaluate a term through the canonical pipeline, as [`crate::evaluate::evaluate`]
/// does: normalize, beta-reduce to normal form, normalize the result.
pub fn evaluate(expr: Expression) -> (r: Result<Expression, LambdaError>)
    ensures
        spec_evaluate_raw(spec_normalize(expr@)) matches Some(v) ==> (r matches Ok(e) && e@
            == spec_normalize(v)),
        spec_evaluate_raw(spec_normalize(expr@)) is None ==> (r matches Err(
            LambdaError::RuntimeError(m),
        ) && m@ == msg_step_limit()),
{
    crate::evaluate::evaluate(expr)
}

} // verus!
