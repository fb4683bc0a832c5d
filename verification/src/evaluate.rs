//! The evaluator: beta-reduction to normal form.
//!
//! Substitution goes through an environment from variable name to
//! already-evaluated replacement, with save/restore shadowing, rather than
//! literal tree substitution. Reduction is leftmost-outermost-like: the
//! argument is evaluated first, a left side that is an application is
//! evaluated to expose a possible function, and the result of each
//! beta-reduction is evaluated once more because it may itself be a redex.
//!
//! A term without a normal form (such as `(λx.x x) (λx.x x)`) cannot be
//! reduced to one; evaluation stops after a fixed number of beta-reduction
//! steps and reports a runtime error instead of recursing forever.

use vstd::prelude::*;

use crate::error::LambdaError;
use crate::expr::{Expression, SpecExpr};
use crate::normalize::{normalize_variables, spec_normalize};
use crate::scope::{scope_map, Scope};

verus! {

/// How many beta-reduction steps an evaluation may take before it is declared
/// non-terminating. Each step spends native stack as well, so the limit also
/// keeps a divergent term from exhausting the stack before it is reported.
pub const EVALUATION_STEP_LIMIT: u64 = 5000;

/// The message reported when evaluation runs out of steps.
pub open spec fn msg_step_limit() -> Seq<char> {
    "Evaluation did not terminate within the step limit."@
}

/// What evaluating `e` under `env` yields with `fuel` beta-reduction steps
/// left: the reduced term, or `None` when the steps run out.
///
/// A bound variable reads its replacement; a free one stays. An abstraction's
/// body is evaluated with the parameter unbound, so enclosing substitutions
/// reach under the binder while the parameter itself is left alone. For an
/// application the argument is evaluated first; a left side that is itself an
/// application is evaluated to expose a possible function; a function left
/// side beta-reduces, and the result is evaluated once more; anything else is
/// a stuck application and is returned abstract.
pub open spec fn spec_eval(e: SpecExpr, env: Map<Seq<char>, SpecExpr>, fuel: nat) -> Option<
    SpecExpr,
>
    decreases fuel, e,
{
    match e {
        SpecExpr::Var { name } => Option::Some(
            if env.contains_key(name) {
                env[name]
            } else {
                e
            },
        ),
        SpecExpr::Abs { param, body } => match spec_eval(*body, env.remove(param), fuel) {
            Option::Some(b) => Option::Some(SpecExpr::Abs { param, body: Box::new(b) }),
            Option::None => Option::None,
        },
        SpecExpr::App { lhs, rhs } => match spec_eval(*rhs, env, fuel) {
            Option::None => Option::None,
            Option::Some(arg) => {
                if *lhs is App {
                    match spec_eval(*lhs, env, fuel) {
                        Option::None => Option::None,
                        Option::Some(l1) => match l1 {
                            SpecExpr::Abs { param, body } => if fuel == 0 {
                                Option::None
                            } else {
                                match spec_eval(
                                    *body,
                                    env.insert(param, arg),
                                    (fuel - 1) as nat,
                                ) {
                                    Option::None => Option::None,
                                    Option::Some(res) => spec_eval(res, env, (fuel - 1) as nat),
                                }
                            },
                            _ => if fuel == 0 {
                                Option::None
                            } else {
                                match spec_eval(l1, env, (fuel - 1) as nat) {
                                    Option::None => Option::None,
                                    Option::Some(l2) => Option::Some(
                                        SpecExpr::App { lhs: Box::new(l2), rhs: Box::new(arg) },
                                    ),
                                }
                            },
                        },
                    }
                } else {
                    match *lhs {
                        SpecExpr::Abs { param, body } => if fuel == 0 {
                            Option::None
                        } else {
                            match spec_eval(*body, env.insert(param, arg), (fuel - 1) as nat) {
                                Option::None => Option::None,
                                Option::Some(res) => spec_eval(res, env, (fuel - 1) as nat),
                            }
                        },
                        _ => match spec_eval(*lhs, env, fuel) {
                            Option::None => Option::None,
                            Option::Some(l2) => Option::Some(
                                SpecExpr::App { lhs: Box::new(l2), rhs: Box::new(arg) },
                            ),
                        },
                    }
                }
            },
        },
    }
}

/// Build the runtime error for an evaluation that ran out of steps.
fn step_limit_error() -> (r: LambdaError)
    ensures
        r matches LambdaError::RuntimeError(m) && m@ == msg_step_limit(),
{
    LambdaError::RuntimeError(
        String::from_str("Evaluation did not terminate within the step limit."),
    )
}

/// Evaluate under the bindings `bindings` with `fuel` beta-reduction steps
/// left; [`spec_eval`] says exactly which term comes out, and the bindings are
/// restored on every path.
fn eval_with_bindings(expr: Expression, bindings: &mut Scope<Expression>, fuel: u64) -> (r: Result<
    Expression,
    LambdaError,
>)
    ensures
        spec_eval(expr@, scope_map(old(bindings)@), fuel as nat) matches Some(v) ==> (r matches Ok(
            e,
        ) && e@ == v),
        spec_eval(expr@, scope_map(old(bindings)@), fuel as nat) is None ==> (r matches Err(
            LambdaError::RuntimeError(m),
        ) && m@ == msg_step_limit()),
        final(bindings)@ == old(bindings)@,
    decreases fuel, expr,
{
    match expr {
        Expression::Variable(label) => {
            match bindings.get(&label) {
                Some(bound) => Ok(bound.clone()),
                None => Ok(Expression::Variable(label)),
            }
        },
        Expression::Function(param, body) => {
            let ghost bindings0 = bindings@;
            let param_for_scope = param.clone();
            bindings.mask(param_for_scope);
            proof {
                assert(bindings@.drop_last() =~= bindings0);
            }
            let evaluated_body = eval_with_bindings(*body, bindings, fuel);
            bindings.pop();
            match evaluated_body {
                Ok(b) => Ok(Expression::Function(param, Box::new(b))),
                Err(e) => Err(e),
            }
        },
        Expression::Application(lhs, rhs) => {
            let arg = match eval_with_bindings(*rhs, bindings, fuel) {
                Ok(v) => v,
                Err(e) => {
                    return Err(e);
                },
            };
            let lhs_inner = *lhs;
            let lhs_is_app = match &lhs_inner {
                Expression::Application(_, _) => true,
                _ => false,
            };
            if lhs_is_app {
                let l1 = match eval_with_bindings(lhs_inner, bindings, fuel) {
                    Ok(v) => v,
                    Err(e) => {
                        return Err(e);
                    },
                };
                match l1 {
                    Expression::Function(param, body) => {
                        if fuel == 0 {
                            return Err(step_limit_error());
                        }
                        let ghost bindings0 = bindings@;
                        bindings.push(param, arg);
                        proof {
                            assert(bindings@.drop_last() =~= bindings0);
                        }
                        let reduced = eval_with_bindings(*body, bindings, fuel - 1);
                        bindings.pop();
                        match reduced {
                            Ok(res) => eval_with_bindings(res, bindings, fuel - 1),
                            Err(e) => Err(e),
                        }
                    },
                    stuck => {
                        if fuel == 0 {
                            return Err(step_limit_error());
                        }
                        match eval_with_bindings(stuck, bindings, fuel - 1) {
                            Ok(l2) => Ok(Expression::Application(Box::new(l2), Box::new(arg))),
                            Err(e) => Err(e),
                        }
                    },
                }
            } else {
                match lhs_inner {
                    Expression::Function(param, body) => {
                        if fuel == 0 {
                            return Err(step_limit_error());
                        }
                        let ghost bindings0 = bindings@;
                        bindings.push(param, arg);
                        proof {
                            assert(bindings@.drop_last() =~= bindings0);
                        }
                        let reduced = eval_with_bindings(*body, bindings, fuel - 1);
                        bindings.pop();
                        match reduced {
                            Ok(res) => eval_with_bindings(res, bindings, fuel - 1),
                            Err(e) => Err(e),
                        }
                    },
                    stuck => {
                        match eval_with_bindings(stuck, bindings, fuel) {
                            Ok(l2) => Ok(Expression::Application(Box::new(l2), Box::new(arg))),
                            Err(e) => Err(e),
                        }
                    },
                }
            }
        },
    }
}

/// What evaluating a term with the full step allowance yields.
pub open spec fn spec_evaluate_raw(e: SpecExpr) -> Option<SpecExpr> {
    spec_eval(e, Map::empty(), EVALUATION_STEP_LIMIT as nat)
}

/// Evaluate a term as it stands, without renaming anything: beta-reduce to
/// normal form, or report the runtime error when the step limit runs out.
/// [`spec_eval`] says exactly which term comes out.
pub fn evaluate_no_normalization(expr: Expression) -> (r: Result<Expression, LambdaError>)
    ensures
        spec_evaluate_raw(expr@) matches Some(v) ==> (r matches Ok(e) && e@ == v),
        spec_evaluate_raw(expr@) is None ==> (r matches Err(LambdaError::RuntimeError(m)) && m@
            == msg_step_limit()),
{
    let mut bindings: Scope<Expression> = Scope::new();
    eval_with_bindings(expr, &mut bindings, EVALUATION_STEP_LIMIT)
}

/// Evaluate a term that is assumed free of name shadowing (for example one
/// that [`normalize_variables`] produced), then normalize the result so that
/// any shadowing the substitutions introduced is renamed away.
pub fn evaluate_normalized(expr: Expression) -> (r: Result<Expression, LambdaError>)
    ensures
        spec_evaluate_raw(expr@) matches Some(v) ==> (r matches Ok(e) && e@ == spec_normalize(v)),
        spec_evaluate_raw(expr@) is None ==> (r matches Err(LambdaError::RuntimeError(m)) && m@
            == msg_step_limit()),
{
    match evaluate_no_normalization(expr) {
        Ok(e) => Ok(normalize_variables(e)),
        Err(e) => Err(e),
    }
}

/// Normalize a term, beta-reduce it to normal form, and normalize the result:
/// the canonical evaluation pipeline. The evaluated tree comes out with
/// canonical names, or the runtime error when the step limit runs out.
pub fn evaluate(expr: Expression) -> (r: Result<Expression, LambdaError>)
    ensures
        spec_evaluate_raw(spec_normalize(expr@)) matches Some(v) ==> (r matches Ok(e) && e@
            == spec_normalize(v)),
        spec_evaluate_raw(spec_normalize(expr@)) is None ==> (r matches Err(
            LambdaError::RuntimeError(m),
        ) && m@ == msg_step_limit()),
{
    evaluate_normalized(normalize_variables(expr))
}

impl Expression {
    /// Evaluate the term, as [`evaluate`] does.
    pub fn evaluate(self) -> (r: Result<Expression, LambdaError>)
        ensures
            spec_evaluate_raw(spec_normalize(self@)) matches Some(v) ==> (r matches Ok(e) && e@
                == spec_normalize(v)),
            spec_evaluate_raw(spec_normalize(self@)) is None ==> (r matches Err(
                LambdaError::RuntimeError(m),
            ) && m@ == msg_step_limit()),
    {
        evaluate(self)
    }

    /// Normalize the term's bound-variable names, as [`normalize_variables`]
    /// does.
    pub fn normalize(self) -> (r: Expression)
        ensures
            r@ == spec_normalize(self@),
    {
        normalize_variables(self)
    }
}

} // verus!
