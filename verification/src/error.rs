//! Errors a lambda expression can produce.

use vstd::prelude::*;

verus! {

/// An error with a lambda expression: a lexing or parsing failure, or an
/// evaluation that did not finish within the step limit.
#[derive(Debug, Clone)]
pub enum LambdaError {
    SyntaxError(String),
    RuntimeError(String),
}

impl LambdaError {
    /// The error rendered as `SyntaxError: <message>` or
    /// `RuntimeError: <message>`.
    pub fn to_display_string(&self) -> (r: String)
        ensures
            self matches LambdaError::SyntaxError(m) ==> r@ == "SyntaxError: "@ + m@,
            self matches LambdaError::RuntimeError(m) ==> r@ == "RuntimeError: "@ + m@,
    {
        match self {
            LambdaError::SyntaxError(m) => {
                let mut s = String::from_str("SyntaxError: ");
                s.append(m.as_str());
                s
            },
            LambdaError::RuntimeError(m) => {
                let mut s = String::from_str("RuntimeError: ");
                s.append(m.as_str());
                s
            },
        }
    }
}

} // verus!
