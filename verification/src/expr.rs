//! The abstract syntax tree of lambda terms, its mathematical model, and the
//! display form.

use vstd::prelude::*;

verus! {

/// The mathematical model of a lambda term: the same tree as [`Expression`],
/// with every name abstracted to a sequence of characters.
pub ghost enum SpecExpr {
    /// A reference to a name, bound or free.
    Var { name: Seq<char> },
    /// An abstraction binding `param` over `body`.
    Abs { param: Seq<char>, body: Box<SpecExpr> },
    /// Applying `lhs` to the argument `rhs`.
    App { lhs: Box<SpecExpr>, rhs: Box<SpecExpr> },
}

/// A lambda term: a variable, a single-parameter abstraction, or an
/// application. Multi-parameter abstractions are desugared by the parser into
/// nested `Function` nodes, so this type never holds more than one parameter
/// per node.
#[derive(Debug)]
pub enum Expression {
    Variable(String),
    Function(String, Box<Expression>),
    Application(Box<Expression>, Box<Expression>),
}

/// The model of an expression tree, label by label.
pub open spec fn expr_view(e: Expression) -> SpecExpr
    decreases e,
{
    match e {
        Expression::Variable(label) => SpecExpr::Var { name: label@ },
        Expression::Function(param, body) => SpecExpr::Abs {
            param: param@,
            body: Box::new(expr_view(*body)),
        },
        Expression::Application(lhs, rhs) => SpecExpr::App {
            lhs: Box::new(expr_view(*lhs)),
            rhs: Box::new(expr_view(*rhs)),
        },
    }
}

impl View for Expression {
    type V = SpecExpr;

    open spec fn view(&self) -> SpecExpr {
        expr_view(*self)
    }
}

impl Expression {
    /// Build a variable node from its name.
    pub fn new_variable(label: &str) -> (r: Self)
        ensures
            r@ == (SpecExpr::Var { name: label@ }),
    {
        Expression::Variable(label.to_owned())
    }

    /// Build an abstraction node binding `param` over `body`.
    pub fn new_function(param: String, body: Expression) -> (r: Self)
        ensures
            r@ == (SpecExpr::Abs { param: param@, body: Box::new(body@) }),
    {
        Expression::Function(param, Box::new(body))
    }

    /// Build an application node of `lhs` applied to `rhs`.
    pub fn new_application(lhs: Expression, rhs: Expression) -> (r: Self)
        ensures
            r@ == (SpecExpr::App { lhs: Box::new(lhs@), rhs: Box::new(rhs@) }),
    {
        Expression::Application(Box::new(lhs), Box::new(rhs))
    }

}

/// The display form of a term: a variable prints as its bare name, an
/// abstraction as `λ<param>.<body>`, and an application as `lhs rhs` where a
/// side is parenthesized if and only if it is not a bare variable.
pub open spec fn display_spec(e: SpecExpr) -> Seq<char>
    decreases e, 0int,
{
    match e {
        SpecExpr::Var { name } => name,
        SpecExpr::Abs { param, body } => seq!['\u{3bb}'] + param + seq!['.'] + display_spec(
            *body,
        ),
        SpecExpr::App { lhs, rhs } => display_side_spec(*lhs) + seq![' '] + display_side_spec(
            *rhs,
        ),
    }
}

/// The display form of one side of an application: parenthesized unless it is
/// a bare variable.
pub open spec fn display_side_spec(e: SpecExpr) -> Seq<char>
    decreases e, 1int,
{
    if e is Var {
        display_spec(e)
    } else {
        seq!['('] + display_spec(e) + seq![')']
    }
}

impl Expression {
    /// Render the term in the display format; [`display_spec`] says exactly
    /// which characters come out.
    pub fn to_string(&self) -> (r: String)
        ensures
            r@ == display_spec(self@),
        decreases self, 0int,
    {
        match self {
            Expression::Variable(label) => label.clone(),
            Expression::Function(param, body) => {
                proof {
                    reveal_strlit("\u{3bb}");
                    reveal_strlit(".");
                }
                let mut s = String::from_str("\u{3bb}");
                s.append(param.as_str());
                s.append(".");
                let b = body.to_string();
                s.append(b.as_str());
                proof {
                    assert(s@ =~= display_spec(self@));
                }
                s
            },
            Expression::Application(lhs, rhs) => {
                proof {
                    reveal_strlit(" ");
                }
                let mut s = lhs.to_side_string();
                s.append(" ");
                let r = rhs.to_side_string();
                s.append(r.as_str());
                proof {
                    assert(s@ =~= display_spec(self@));
                }
                s
            },
        }
    }

    /// Render one side of an application, parenthesizing anything that is not
    /// a bare variable.
    fn to_side_string(&self) -> (r: String)
        ensures
            r@ == display_side_spec(self@),
        decreases self, 1int,
    {
        match self {
            Expression::Variable(_) => self.to_string(),
            _ => {
                proof {
                    reveal_strlit("(");
                    reveal_strlit(")");
                }
                let mut s = String::from_str("(");
                let inner = self.to_string();
                s.append(inner.as_str());
                s.append(")");
                proof {
                    assert(s@ =~= display_side_spec(self@));
                }
                s
            },
        }
    }
}

impl std::ops::Mul<Expression> for Expression {
    type Output = Expression;

    /// `a * b` builds the application of `a` to `b`, so that combinator
    /// expressions can be written as products.
    fn mul(self, other: Expression) -> (r: Expression) {
        Expression::Application(Box::new(self), Box::new(other))
    }
}

impl vstd::std_specs::ops::MulSpecImpl<Expression> for Expression {
    open spec fn obeys_mul_spec() -> bool {
        true
    }

    open spec fn mul_req(self, other: Expression) -> bool {
        true
    }

    open spec fn mul_spec(self, other: Expression) -> Expression {
        Expression::Application(Box::new(self), Box::new(other))
    }
}

impl PartialEq for Expression {
    /// Structural equality: variant by variant, label by label. This is not
    /// alpha-equivalence unless both trees are already normalized.
    fn eq(&self, other: &Self) -> (r: bool)
        decreases self,
    {
        match (self, other) {
            (Expression::Variable(lhs), Expression::Variable(rhs)) => {
                let r = *lhs == *rhs;
                proof {
                    assert(r == (self@ == other@));
                }
                r
            },
            (
                Expression::Function(lhs_param, lhs_body),
                Expression::Function(rhs_param, rhs_body),
            ) => {
                let r = *lhs_param == *rhs_param && (**lhs_body).eq(&**rhs_body);
                proof {
                    assert(r == (self@ == other@));
                }
                r
            },
            (
                Expression::Application(lhs_lhs, lhs_rhs),
                Expression::Application(rhs_lhs, rhs_rhs),
            ) => {
                let r = (**lhs_lhs).eq(&**rhs_lhs) && (**lhs_rhs).eq(&**rhs_rhs);
                proof {
                    assert(r == (self@ == other@));
                }
                r
            },
            _ => {
                proof {
                    assert(self@ != other@);
                }
                false
            },
        }
    }
}

impl vstd::std_specs::cmp::PartialEqSpecImpl for Expression {
    open spec fn obeys_eq_spec() -> bool {
        true
    }

    open spec fn eq_spec(&self, other: &Expression) -> bool {
        self@ == other@
    }
}

impl Clone for Expression {
    /// Copy the tree; the copy has the same model.
    fn clone(&self) -> (r: Self)
        ensures
            r@ == self@,
        decreases self,
    {
        match self {
            Expression::Variable(label) => Expression::Variable(label.clone()),
            Expression::Function(param, body) => Expression::Function(
                param.clone(),
                Box::new((**body).clone()),
            ),
            Expression::Application(lhs, rhs) => Expression::Application(
                Box::new((**lhs).clone()),
                Box::new((**rhs).clone()),
            ),
        }
    }
}

/// The set of names that occur free in a term: a variable is free until an
/// enclosing abstraction binds its name.
pub open spec fn free_vars(e: SpecExpr) -> Set<Seq<char>>
    decreases e,
{
    match e {
        SpecExpr::Var { name } => set![name],
        SpecExpr::Abs { param, body } => free_vars(*body).remove(param),
        SpecExpr::App { lhs, rhs } => free_vars(*lhs).union(free_vars(*rhs)),
    }
}

/// Alpha-equivalence under binder maps: `b1` and `b2` give the binder depth at
/// which each bound name was introduced. Two variables agree when both are
/// bound at the same depth or both are free under the same name; abstractions
/// agree when their bodies do with the parameters bound at the current depth;
/// applications agree side by side.
pub open spec fn spec_alpha_eq_at(
    e1: SpecExpr,
    e2: SpecExpr,
    b1: Map<Seq<char>, nat>,
    b2: Map<Seq<char>, nat>,
    depth: nat,
) -> bool
    decreases e1,
{
    match (e1, e2) {
        (SpecExpr::Var { name: n1 }, SpecExpr::Var { name: n2 }) => if b1.contains_key(n1) {
            b2.contains_key(n2) && b1[n1] == b2[n2]
        } else {
            !b2.contains_key(n2) && n1 == n2
        },
        (
            SpecExpr::Abs { param: p1, body: body1 },
            SpecExpr::Abs { param: p2, body: body2 },
        ) => spec_alpha_eq_at(
            *body1,
            *body2,
            b1.insert(p1, depth),
            b2.insert(p2, depth),
            depth + 1,
        ),
        (
            SpecExpr::App { lhs: l1, rhs: r1 },
            SpecExpr::App { lhs: l2, rhs: r2 },
        ) => spec_alpha_eq_at(*l1, *l2, b1, b2, depth) && spec_alpha_eq_at(
            *r1,
            *r2,
            b1,
            b2,
            depth,
        ),
        _ => false,
    }
}

/// Alpha-equivalence of whole terms: one can be obtained from the other
/// purely by consistently renaming bound variables.
pub open spec fn spec_alpha_eq(e1: SpecExpr, e2: SpecExpr) -> bool {
    spec_alpha_eq_at(
        e1,
        e2,
        Map::<Seq<char>, nat>::empty(),
        Map::<Seq<char>, nat>::empty(),
        0,
    )
}

} // verus!
