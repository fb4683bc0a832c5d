//! An alternate entry point to the evaluator that keeps the historical name:
//! evaluation without any renaming, so results keep their original variable
//! names.

use vstd::prelude::*;

use crate::error::LambdaError;
use crate::evaluate::{evaluate_no_normalization, msg_step_limit, spec_evaluate_raw};
use crate::expr::Expression;

verus! {

/// Evaluate a term as it stands, as [`evaluate_no_normalization`] does: the
/// result keeps the source's own variable names.
pub fn evaluate(expr: Expression) -> (r: Result<Expression, LambdaError>)
    ensures
        spec_evaluate_raw(expr@) matches Some(v) ==> (r matches Ok(e) && e@ == v),
        spec_evaluate_raw(expr@) is None ==> (r matches Err(LambdaError::RuntimeError(m)) && m@
            == msg_step_limit()),
{
    evaluate_no_normalization(expr)
}

} // verus!
