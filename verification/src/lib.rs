//! An untyped lambda-calculus front end and evaluator.
//!
//! Source text is lexed into tokens, parsed into an [`Expression`] tree,
//! reduced to normal form under beta-reduction, and canonically renamed so
//! that alpha-equivalent terms compare equal structurally.

pub mod constants;
pub mod error;
pub mod evaluate;
pub mod evaluator;
pub mod expr;
pub mod interpret;
pub mod lexer;
pub mod normalize;
pub mod parser;
pub mod scope;
pub mod token;

pub use constants::church;
pub use error::LambdaError;
pub use evaluate::{evaluate, evaluate_no_normalization, evaluate_normalized};
pub use expr::Expression;
pub use normalize::normalize_variables;
pub use parser::ParseResult;
