//! Church numerals and arithmetic combinators, both as source text and as
//! ready-built trees.

use vstd::prelude::*;

use crate::expr::{Expression, SpecExpr};

verus! {

pub const ZERO: &'static str = "λf.λx.x";

pub const ONE: &'static str = "λf.λx.f x";

pub const TWO: &'static str = "λf.λx.f (f x)";

pub const THREE: &'static str = "λf.λx.f (f (f x))";

pub const SUCC: &'static str = "λn.λf.λx.f (n f x)";

pub const PRED: &'static str = "λn.λf.λx.n (λg.λh.h (g f)) (λu.x) (λu.u)";

pub const ADD: &'static str = "λm.λn.λf.λx.m f (n f x)";

pub const MUL: &'static str = "λm.λn.λf.m (n f)";

pub const POW: &'static str = "λb.λe.e b";

/// The tree `λf.λx.x` stands for.
pub open spec fn spec_zero() -> SpecExpr {
    SpecExpr::Abs {
        param: "f"@,
        body: Box::new(SpecExpr::Abs {
            param: "x"@,
            body: Box::new(SpecExpr::Var { name: "x"@ }),
        }),
    }
}

/// The term `λf.λx.x`, built directly.
pub fn zero() -> (r: Expression)
    ensures
        r@ == spec_zero(),
{
    Expression::new_function(
        String::from_str("f"),
        Expression::new_function(
            String::from_str("x"),
            Expression::new_variable("x"),
        ),
    )
}

/// The tree `λf.λx.f x` stands for.
pub open spec fn spec_one() -> SpecExpr {
    SpecExpr::Abs {
        param: "f"@,
        body: Box::new(SpecExpr::Abs {
            param: "x"@,
            body: Box::new(SpecExpr::App {
                lhs: Box::new(SpecExpr::Var { name: "f"@ }),
                rhs: Box::new(SpecExpr::Var { name: "x"@ }),
            }),
        }),
    }
}

/// The term `λf.λx.f x`, built directly.
pub fn one() -> (r: Expression)
    ensures
        r@ == spec_one(),
{
    Expression::new_function(
        String::from_str("f"),
        Expression::new_function(
            String::from_str("x"),
            Expression::new_application(
                Expression::new_variable("f"),
                Expression::new_variable("x"),
            ),
        ),
    )
}

/// The tree `λf.λx.f (f x)` stands for.
pub open spec fn spec_two() -> SpecExpr {
    SpecExpr::Abs {
        param: "f"@,
        body: Box::new(SpecExpr::Abs {
            param: "x"@,
            body: Box::new(SpecExpr::App {
                lhs: Box::new(SpecExpr::Var { name: "f"@ }),
                rhs: Box::new(SpecExpr::App {
                    lhs: Box::new(SpecExpr::Var { name: "f"@ }),
                    rhs: Box::new(SpecExpr::Var { name: "x"@ }),
                }),
            }),
        }),
    }
}

/// The term `λf.λx.f (f x)`, built directly.
pub fn two() -> (r: Expression)
    ensures
        r@ == spec_two(),
{
    Expression::new_function(
        String::from_str("f"),
        Expression::new_function(
            String::from_str("x"),
            Expression::new_application(
                Expression::new_variable("f"),
                Expression::new_application(
                    Expression::new_variable("f"),
                    Expression::new_variable("x"),
                ),
            ),
        ),
    )
}

/// The tree `λf.λx.f (f (f x))` stands for.
pub open spec fn spec_three() -> SpecExpr {
    SpecExpr::Abs {
        param: "f"@,
        body: Box::new(SpecExpr::Abs {
            param: "x"@,
            body: Box::new(SpecExpr::App {
                lhs: Box::new(SpecExpr::Var { name: "f"@ }),
                rhs: Box::new(SpecExpr::App {
                    lhs: Box::new(SpecExpr::Var { name: "f"@ }),
                    rhs: Box::new(SpecExpr::App {
                        lhs: Box::new(SpecExpr::Var { name: "f"@ }),
                        rhs: Box::new(SpecExpr::Var { name: "x"@ }),
                    }),
                }),
            }),
        }),
    }
}

/// The term `λf.λx.f (f (f x))`, built directly.
pub fn three() -> (r: Expression)
    ensures
        r@ == spec_three(),
{
    Expression::new_function(
        String::from_str("f"),
        Expression::new_function(
            String::from_str("x"),
            Expression::new_application(
                Expression::new_variable("f"),
                Expression::new_application(
                    Expression::new_variable("f"),
                    Expression::new_application(
                        Expression::new_variable("f"),
                        Expression::new_variable("x"),
                    ),
                ),
            ),
        ),
    )
}

/// The tree `λn.λf.λx.f (n f x)` stands for.
pub open spec fn spec_succ() -> SpecExpr {
    SpecExpr::Abs {
        param: "n"@,
        body: Box::new(SpecExpr::Abs {
            param: "f"@,
            body: Box::new(SpecExpr::Abs {
                param: "x"@,
                body: Box::new(SpecExpr::App {
                    lhs: Box::new(SpecExpr::Var { name: "f"@ }),
                    rhs: Box::new(SpecExpr::App {
                        lhs: Box::new(SpecExpr::App {
                            lhs: Box::new(SpecExpr::Var { name: "n"@ }),
                            rhs: Box::new(SpecExpr::Var { name: "f"@ }),
                        }),
                        rhs: Box::new(SpecExpr::Var { name: "x"@ }),
                    }),
                }),
            }),
        }),
    }
}

/// The term `λn.λf.λx.f (n f x)`, built directly.
pub fn succ() -> (r: Expression)
    ensures
        r@ == spec_succ(),
{
    Expression::new_function(
        String::from_str("n"),
        Expression::new_function(
            String::from_str("f"),
            Expression::new_function(
                String::from_str("x"),
                Expression::new_application(
                    Expression::new_variable("f"),
                    Expression::new_application(
                        Expression::new_application(
                            Expression::new_variable("n"),
                            Expression::new_variable("f"),
                        ),
                        Expression::new_variable("x"),
                    ),
                ),
            ),
        ),
    )
}

/// The tree `λn.λf.λx.n (λg.λh.h (g f)) (λu.x) (λu.u)` stands for.
pub open spec fn spec_pred() -> SpecExpr {
    SpecExpr::Abs {
        param: "n"@,
        body: Box::new(SpecExpr::Abs {
            param: "f"@,
            body: Box::new(SpecExpr::Abs {
                param: "x"@,
                body: Box::new(SpecExpr::App {
                    lhs: Box::new(SpecExpr::App {
                        lhs: Box::new(SpecExpr::App {
                            lhs: Box::new(SpecExpr::Var { name: "n"@ }),
                            rhs: Box::new(SpecExpr::Abs {
                                param: "g"@,
                                body: Box::new(SpecExpr::Abs {
                                    param: "h"@,
                                    body: Box::new(SpecExpr::App {
                                        lhs: Box::new(SpecExpr::Var { name: "h"@ }),
                                        rhs: Box::new(SpecExpr::App {
                                            lhs: Box::new(SpecExpr::Var { name: "g"@ }),
                                            rhs: Box::new(SpecExpr::Var { name: "f"@ }),
                                        }),
                                    }),
                                }),
                            }),
                        }),
                        rhs: Box::new(SpecExpr::Abs {
                            param: "u"@,
                            body: Box::new(SpecExpr::Var { name: "x"@ }),
                        }),
                    }),
                    rhs: Box::new(SpecExpr::Abs {
                        param: "u"@,
                        body: Box::new(SpecExpr::Var { name: "u"@ }),
                    }),
                }),
            }),
        }),
    }
}

/// The term `λn.λf.λx.n (λg.λh.h (g f)) (λu.x) (λu.u)`, built directly.
pub fn pred() -> (r: Expression)
    ensures
        r@ == spec_pred(),
{
    Expression::new_function(
        String::from_str("n"),
        Expression::new_function(
            String::from_str("f"),
            Expression::new_function(
                String::from_str("x"),
                Expression::new_application(
                    Expression::new_application(
                        Expression::new_application(
                            Expression::new_variable("n"),
                            Expression::new_function(
                                String::from_str("g"),
                                Expression::new_function(
                                    String::from_str("h"),
                                    Expression::new_application(
                                        Expression::new_variable("h"),
                                        Expression::new_application(
                                            Expression::new_variable("g"),
                                            Expression::new_variable("f"),
                                        ),
                                    ),
                                ),
                            ),
                        ),
                        Expression::new_function(
                            String::from_str("u"),
                            Expression::new_variable("x"),
                        ),
                    ),
                    Expression::new_function(
                        String::from_str("u"),
                        Expression::new_variable("u"),
                    ),
                ),
            ),
        ),
    )
}

/// The tree `λm.λn.λf.λx.m f (n f x)` stands for.
pub open spec fn spec_add() -> SpecExpr {
    SpecExpr::Abs {
        param: "m"@,
        body: Box::new(SpecExpr::Abs {
            param: "n"@,
            body: Box::new(SpecExpr::Abs {
                param: "f"@,
                body: Box::new(SpecExpr::Abs {
                    param: "x"@,
                    body: Box::new(SpecExpr::App {
                        lhs: Box::new(SpecExpr::App {
                            lhs: Box::new(SpecExpr::Var { name: "m"@ }),
                            rhs: Box::new(SpecExpr::Var { name: "f"@ }),
                        }),
                        rhs: Box::new(SpecExpr::App {
                            lhs: Box::new(SpecExpr::App {
                                lhs: Box::new(SpecExpr::Var { name: "n"@ }),
                                rhs: Box::new(SpecExpr::Var { name: "f"@ }),
                            }),
                            rhs: Box::new(SpecExpr::Var { name: "x"@ }),
                        }),
                    }),
                }),
            }),
        }),
    }
}

/// The term `λm.λn.λf.λx.m f (n f x)`, built directly.
pub fn add() -> (r: Expression)
    ensures
        r@ == spec_add(),
{
    Expression::new_function(
        String::from_str("m"),
        Expression::new_function(
            String::from_str("n"),
            Expression::new_function(
                String::from_str("f"),
                Expression::new_function(
                    String::from_str("x"),
                    Expression::new_application(
                        Expression::new_application(
                            Expression::new_variable("m"),
                            Expression::new_variable("f"),
                        ),
                        Expression::new_application(
                            Expression::new_application(
                                Expression::new_variable("n"),
                                Expression::new_variable("f"),
                            ),
                            Expression::new_variable("x"),
                        ),
                    ),
                ),
            ),
        ),
    )
}

/// The tree `λm.λn.λf.m (n f)` stands for.
pub open spec fn spec_mul() -> SpecExpr {
    SpecExpr::Abs {
        param: "m"@,
        body: Box::new(SpecExpr::Abs {
            param: "n"@,
            body: Box::new(SpecExpr::Abs {
                param: "f"@,
                body: Box::new(SpecExpr::App {
                    lhs: Box::new(SpecExpr::Var { name: "m"@ }),
                    rhs: Box::new(SpecExpr::App {
                        lhs: Box::new(SpecExpr::Var { name: "n"@ }),
                        rhs: Box::new(SpecExpr::Var { name: "f"@ }),
                    }),
                }),
            }),
        }),
    }
}

/// The term `λm.λn.λf.m (n f)`, built directly.
pub fn mul() -> (r: Expression)
    ensures
        r@ == spec_mul(),
{
    Expression::new_function(
        String::from_str("m"),
        Expression::new_function(
            String::from_str("n"),
            Expression::new_function(
                String::from_str("f"),
                Expression::new_application(
                    Expression::new_variable("m"),
                    Expression::new_application(
                        Expression::new_variable("n"),
                        Expression::new_variable("f"),
                    ),
                ),
            ),
        ),
    )
}

/// The tree `λb.λe.e b` stands for.
pub open spec fn spec_pow() -> SpecExpr {
    SpecExpr::Abs {
        param: "b"@,
        body: Box::new(SpecExpr::Abs {
            param: "e"@,
            body: Box::new(SpecExpr::App {
                lhs: Box::new(SpecExpr::Var { name: "e"@ }),
                rhs: Box::new(SpecExpr::Var { name: "b"@ }),
            }),
        }),
    }
}

/// The term `λb.λe.e b`, built directly.
pub fn pow() -> (r: Expression)
    ensures
        r@ == spec_pow(),
{
    Expression::new_function(
        String::from_str("b"),
        Expression::new_function(
            String::from_str("e"),
            Expression::new_application(
                Expression::new_variable("e"),
                Expression::new_variable("b"),
            ),
        ),
    )
}

} // verus!
