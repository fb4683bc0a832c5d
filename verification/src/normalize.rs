//! The normalizer: canonical renaming of bound variables.
//!
//! Every bound variable is renamed to the decimal numeral of a counter that
//! starts at 1 and advances once per abstraction across the whole traversal,
//! so canonical names reflect binding order and are unique within one call.
//! Free variables keep their names. Two alpha-equivalent terms normalize to
//! the same tree, so structural equality of normalized terms is a sound test
//! of alpha-equivalence.

use vstd::prelude::*;

use crate::expr::{Expression, SpecExpr};
use crate::scope::{scope_map, Scope};

verus! {

/// The decimal digits of `n`, most significant first, as values `0..=9`.
pub open spec fn decimal(n: nat) -> Seq<u8>
    decreases n,
{
    if n < 10 {
        seq![n as u8]
    } else {
        decimal(n / 10).push((n % 10) as u8)
    }
}

/// The character a digit value prints as.
pub open spec fn digit_to_char(d: u8) -> char {
    if d == 0 {
        '0'
    } else if d == 1 {
        '1'
    } else if d == 2 {
        '2'
    } else if d == 3 {
        '3'
    } else if d == 4 {
        '4'
    } else if d == 5 {
        '5'
    } else if d == 6 {
        '6'
    } else if d == 7 {
        '7'
    } else if d == 8 {
        '8'
    } else {
        '9'
    }
}

/// Digit values rendered as characters.
pub open spec fn digits_chars(s: Seq<u8>) -> Seq<char> {
    s.map(|i: int, d: u8| digit_to_char(d))
}

/// The canonical name the counter value `n` issues: its decimal numeral.
pub open spec fn decimal_name(n: nat) -> Seq<char> {
    digits_chars(decimal(n))
}

/// A digit sequence advanced by one: the last digit is bumped, with carries
/// rippling left and a leading `1` appearing when every digit was `9`.
pub open spec fn inc_digits(s: Seq<u8>) -> Seq<u8>
    decreases s.len(),
{
    if s.len() == 0 {
        seq![1u8]
    } else if s.last() < 9 {
        s.update(s.len() - 1, (s.last() + 1) as u8)
    } else {
        inc_digits(s.drop_last()).push(0u8)
    }
}

/// Every decimal numeral is nonempty with digits at most `9`.
proof fn lemma_decimal_bounds(n: nat)
    ensures
        decimal(n).len() >= 1,
        forall|k: int| 0 <= k < decimal(n).len() ==> decimal(n)[k] <= 9,
    decreases n,
{
    if n >= 10 {
        lemma_decimal_bounds(n / 10);
    }
}

/// Advancing the numeral of `n` yields the numeral of `n + 1`.
proof fn lemma_inc_decimal(n: nat)
    ensures
        inc_digits(decimal(n)) == decimal(n + 1),
    decreases n,
{
    if n < 9 {
        assert(inc_digits(decimal(n)) =~= decimal(n + 1));
    } else if n == 9 {
        assert(decimal(9) =~= seq![9u8]);
        assert(seq![9u8].drop_last() =~= Seq::<u8>::empty());
        assert(inc_digits(Seq::<u8>::empty()) =~= seq![1u8]);
        assert(inc_digits(seq![9u8]) =~= seq![1u8, 0u8]);
        assert(decimal(1) =~= seq![1u8]);
        assert(decimal(10) =~= seq![1u8, 0u8]);
    } else {
        lemma_decimal_bounds(n / 10);
        if n % 10 < 9 {
            assert((n + 1) / 10 == n / 10 && (n + 1) % 10 == n % 10 + 1);
            assert(inc_digits(decimal(n)) =~= decimal(n + 1));
        } else {
            lemma_inc_decimal(n / 10);
            assert((n + 1) / 10 == n / 10 + 1 && (n + 1) % 10 == 0);
            assert(decimal(n).last() == 9);
            assert(decimal(n).drop_last() =~= decimal(n / 10));
            assert(inc_digits(decimal(n)) == inc_digits(decimal(n / 10)).push(0u8));
            assert(decimal(n + 1) == decimal(n / 10 + 1).push(0u8));
        }
    }
}

/// The counter issuing canonical names: the value it stands at, kept as the
/// decimal digits of the next name.
pub struct Counter {
    digits: Vec<u8>,
    value: Ghost<nat>,
}

impl Counter {
    /// The value the counter stands at.
    pub closed spec fn value(&self) -> nat {
        self.value@
    }

    /// A counter is well formed when its digits spell its value; every
    /// counter this module hands out stays well formed.
    pub closed spec fn wf(&self) -> bool {
        self.digits@ == decimal(self.value@)
    }

    /// A fresh counter standing at 1, where canonical numbering starts.
    pub fn new() -> (r: Self)
        ensures
            r.value() == 1nat,
            r.wf(),
    {
        let mut digits: Vec<u8> = Vec::new();
        digits.push(1);
        let r = Counter { digits, value: Ghost(1nat) };
        proof {
            assert(r.digits@ =~= decimal(1));
        }
        r
    }

    /// Issue the name the counter stands at and advance it by one.
    pub fn next_name(&mut self) -> (r: String)
        requires
            old(self).wf(),
        ensures
            r@ == decimal_name(old(self).value()),
            final(self).value() == old(self).value() + 1,
            final(self).wf(),
    {
        proof {
            lemma_decimal_bounds(self.value@);
        }
        let name = digits_to_string(&self.digits);
        inc_vec(&mut self.digits);
        proof {
            lemma_inc_decimal(self.value@);
        }
        self.value = Ghost(self.value@ + 1);
        name
    }
}

/// Render digit values as a string of digit characters.
fn digits_to_string(digits: &Vec<u8>) -> (r: String)
    ensures
        r@ == digits_chars(digits@),
{
    let n = digits.len();
    let mut s = String::new();
    let mut i: usize = 0;
    while i < n
        invariant
            n == digits@.len(),
            0 <= i <= n,
            s@ == digits_chars(digits@.take(i as int)),
        decreases n - i,
    {
        let d = digits[i];
        let piece: &str = if d == 0 {
            "0"
        } else if d == 1 {
            "1"
        } else if d == 2 {
            "2"
        } else if d == 3 {
            "3"
        } else if d == 4 {
            "4"
        } else if d == 5 {
            "5"
        } else if d == 6 {
            "6"
        } else if d == 7 {
            "7"
        } else if d == 8 {
            "8"
        } else {
            "9"
        };
        proof {
            reveal_strlit("0");
            reveal_strlit("1");
            reveal_strlit("2");
            reveal_strlit("3");
            reveal_strlit("4");
            reveal_strlit("5");
            reveal_strlit("6");
            reveal_strlit("7");
            reveal_strlit("8");
            reveal_strlit("9");
            assert(piece@ =~= seq![digit_to_char(d)]);
        }
        s.append(piece);
        proof {
            assert(s@ =~= digits_chars(digits@.take(i as int + 1)));
        }
        i = i + 1;
    }
    proof {
        assert(digits@.take(n as int) =~= digits@);
    }
    s
}

/// Advance a digit sequence by one, as [`inc_digits`] says.
fn inc_vec(digits: &mut Vec<u8>)
    requires
        forall|k: int| 0 <= k < old(digits)@.len() ==> old(digits)@[k] <= 9,
    ensures
        final(digits)@ == inc_digits(old(digits)@),
    decreases old(digits)@.len(),
{
    let n = digits.len();
    if n == 0 {
        digits.push(1);
        proof {
            assert(final(digits)@ =~= inc_digits(old(digits)@));
        }
    } else {
        let last = digits[n - 1];
        if last < 9 {
            digits.pop();
            digits.push(last + 1);
            proof {
                assert(final(digits)@ =~= inc_digits(old(digits)@));
            }
        } else {
            digits.pop();
            proof {
                assert(digits@ =~= old(digits)@.drop_last());
            }
            inc_vec(digits);
            digits.push(0);
            proof {
                assert(final(digits)@ =~= inc_digits(old(digits)@));
            }
        }
    }
}

/// What normalizing `e` yields under the renames `names` with the counter at
/// `c`: the renamed tree, and where the counter stands afterwards. A bound
/// occurrence reads its rename; a free one keeps its name; each abstraction
/// takes the next canonical name, scoped exactly like the original binding.
pub open spec fn spec_normalize_from(
    e: SpecExpr,
    names: Map<Seq<char>, Seq<char>>,
    c: nat,
) -> (SpecExpr, nat)
    decreases e,
{
    match e {
        SpecExpr::Var { name } => (
            SpecExpr::Var {
                name: if names.contains_key(name) {
                    names[name]
                } else {
                    name
                },
            },
            c,
        ),
        SpecExpr::Abs { param, body } => {
            let fresh = decimal_name(c);
            let inner = spec_normalize_from(*body, names.insert(param, fresh), c + 1);
            (SpecExpr::Abs { param: fresh, body: Box::new(inner.0) }, inner.1)
        },
        SpecExpr::App { lhs, rhs } => {
            let left = spec_normalize_from(*lhs, names, c);
            let right = spec_normalize_from(*rhs, names, left.1);
            (SpecExpr::App { lhs: Box::new(left.0), rhs: Box::new(right.0) }, right.1)
        },
    }
}

/// What normalizing a whole term yields: no renames pending, counter at 1.
pub open spec fn spec_normalize(e: SpecExpr) -> SpecExpr {
    spec_normalize_from(e, Map::empty(), 1).0
}

/// Normalize under the renames `names` with the counter at `counter`;
/// [`spec_normalize_from`] says exactly which tree comes out and where the
/// counter and scope end up.
fn normalize_with_bindings(expr: Expression, names: &mut Scope<String>, counter: &mut Counter) -> (r:
    Expression)
    requires
        old(counter).wf(),
    ensures
        final(counter).wf(),
        r@ == spec_normalize_from(expr@, scope_map(old(names)@), old(counter).value()).0,
        final(counter).value() == spec_normalize_from(
            expr@,
            scope_map(old(names)@),
            old(counter).value(),
        ).1,
        final(names)@ == old(names)@,
    decreases expr,
{
    match expr {
        Expression::Variable(label) => {
            match names.get(&label) {
                Some(name) => Expression::Variable(name.clone()),
                None => Expression::Variable(label),
            }
        },
        Expression::Function(param, body) => {
            let ghost names0 = names@;
            let fresh = counter.next_name();
            let fresh_for_scope = fresh.clone();
            names.push(param, fresh_for_scope);
            proof {
                assert(names@.drop_last() =~= names0);
            }
            let normalized_body = normalize_with_bindings(*body, names, counter);
            names.pop();
            Expression::Function(fresh, Box::new(normalized_body))
        },
        Expression::Application(lhs, rhs) => {
            let left = normalize_with_bindings(*lhs, names, counter);
            let right = normalize_with_bindings(*rhs, names, counter);
            Expression::Application(Box::new(left), Box::new(right))
        },
    }
}

/// Rename all bound variables to canonical decimal names, issued outermost
/// first across the whole tree; free variables are untouched.
/// [`spec_normalize`] says exactly which tree comes out.
pub fn normalize_variables(expr: Expression) -> (r: Expression)
    ensures
        r@ == spec_normalize(expr@),
{
    let mut names: Scope<String> = Scope::new();
    let mut counter = Counter::new();
    normalize_with_bindings(expr, &mut names, &mut counter)
}

/// Renormalizing under a rename map that is the identity wherever it is
/// defined leaves a normalized tree and counter untouched: each abstraction
/// meets the counter at the same value and takes the same name again.
proof fn lemma_normalize_from_idempotent(
    e: SpecExpr,
    names: Map<Seq<char>, Seq<char>>,
    again: Map<Seq<char>, Seq<char>>,
    c: nat,
)
    requires
        forall|x: Seq<char>| #[trigger] again.contains_key(x) ==> again[x] == x,
    ensures
        spec_normalize_from(spec_normalize_from(e, names, c).0, again, c) == spec_normalize_from(
            e,
            names,
            c,
        ),
    decreases e,
{
    match e {
        SpecExpr::Var { name } => {
        },
        SpecExpr::Abs { param, body } => {
            let fresh = decimal_name(c);
            lemma_normalize_from_idempotent(
                *body,
                names.insert(param, fresh),
                again.insert(fresh, fresh),
                c + 1,
            );
        },
        SpecExpr::App { lhs, rhs } => {
            let c1 = spec_normalize_from(*lhs, names, c).1;
            lemma_normalize_from_idempotent(*lhs, names, again, c);
            lemma_normalize_from_idempotent(*rhs, names, again, c1);
        },
    }
}

/// Normalization is idempotent: normalizing a normalized term changes
/// nothing.
pub proof fn lemma_normalize_idempotent(e: SpecExpr)
    ensures
        spec_normalize(spec_normalize(e)) == spec_normalize(e),
{
    lemma_normalize_from_idempotent(
        e,
        Map::<Seq<char>, Seq<char>>::empty(),
        Map::<Seq<char>, Seq<char>>::empty(),
        1,
    );
}

/// Distinct numbers have distinct decimal digit sequences.
proof fn lemma_decimal_injective(a: nat, b: nat)
    requires
        decimal(a) == decimal(b),
    ensures
        a == b,
    decreases a,
{
    lemma_decimal_bounds(a);
    lemma_decimal_bounds(b);
    if a < 10 && b < 10 {
        assert(decimal(a)[0] == a as u8 && decimal(b)[0] == b as u8);
    } else if a < 10 {
        assert(decimal(b).len() >= 2) by {
            lemma_decimal_bounds(b / 10);
        }
        assert(decimal(a).len() == 1);
    } else if b < 10 {
        assert(decimal(a).len() >= 2) by {
            lemma_decimal_bounds(a / 10);
        }
        assert(decimal(b).len() == 1);
    } else {
        assert(decimal(a).last() == (a % 10) as u8 && decimal(b).last() == (b % 10) as u8);
        assert(decimal(a).drop_last() =~= decimal(a / 10));
        assert(decimal(b).drop_last() =~= decimal(b / 10));
        lemma_decimal_injective(a / 10, b / 10);
    }
}

/// Distinct numbers have distinct canonical names.
proof fn lemma_decimal_name_injective(a: nat, b: nat)
    requires
        decimal_name(a) == decimal_name(b),
    ensures
        a == b,
{
    lemma_decimal_bounds(a);
    lemma_decimal_bounds(b);
    assert(digits_chars(decimal(a)).len() == decimal(a).len());
    assert(digits_chars(decimal(b)).len() == decimal(b).len());
    assert forall|k: int| 0 <= k < decimal(a).len() implies decimal(a)[k] == decimal(b)[k] by {
        assert(digits_chars(decimal(a))[k] == digit_to_char(decimal(a)[k]));
        assert(digits_chars(decimal(b))[k] == digit_to_char(decimal(b)[k]));
        assert(digit_to_char(decimal(a)[k]) == digit_to_char(decimal(b)[k]));
    }
    assert(decimal(a) =~= decimal(b));
    lemma_decimal_injective(a, b);
}

/// Normalizing never moves the counter backwards.
proof fn lemma_normalize_counter_monotonic(e: SpecExpr, names: Map<Seq<char>, Seq<char>>, c: nat)
    ensures
        spec_normalize_from(e, names, c).1 >= c,
    decreases e,
{
    match e {
        SpecExpr::Var { name } => {
        },
        SpecExpr::Abs { param, body } => {
            lemma_normalize_counter_monotonic(
                *body,
                names.insert(param, decimal_name(c)),
                c + 1,
            );
        },
        SpecExpr::App { lhs, rhs } => {
            lemma_normalize_counter_monotonic(*lhs, names, c);
            lemma_normalize_counter_monotonic(*rhs, names, spec_normalize_from(*lhs, names, c).1);
        },
    }
}

/// The renaming maps follow the binder-depth maps: both sides bind the same
/// names, every recorded depth lies below `depth`, every issued rename is the
/// canonical name of a counter value below `c`, and two bound names were
/// renamed alike exactly when they were bound at the same depth.
spec fn renames_track_depths(
    b1: Map<Seq<char>, nat>,
    r1: Map<Seq<char>, Seq<char>>,
    b2: Map<Seq<char>, nat>,
    r2: Map<Seq<char>, Seq<char>>,
    depth: nat,
    c: nat,
) -> bool {
    &&& (forall|x: Seq<char>| b1.contains_key(x) <==> r1.contains_key(x))
    &&& (forall|x: Seq<char>| b2.contains_key(x) <==> r2.contains_key(x))
    &&& (forall|x: Seq<char>| #[trigger] b1.contains_key(x) ==> b1[x] < depth && (exists|k: nat|
        k < c && r1[x] == decimal_name(k)))
    &&& (forall|x: Seq<char>| #[trigger] b2.contains_key(x) ==> b2[x] < depth && (exists|k: nat|
        k < c && r2[x] == decimal_name(k)))
    &&& (forall|x: Seq<char>, y: Seq<char>|
        #[trigger] b1.contains_key(x) && #[trigger] b2.contains_key(y) ==> (b1[x] == b2[y] <==> r1[x]
            == r2[y]))
}

/// Alpha-equivalent terms normalize identically: under renaming maps that
/// track the binder depths, both traversals issue the same names at the same
/// places and move the counter the same way.
proof fn lemma_alpha_eq_normalize_from(
    e1: SpecExpr,
    e2: SpecExpr,
    b1: Map<Seq<char>, nat>,
    b2: Map<Seq<char>, nat>,
    depth: nat,
    r1: Map<Seq<char>, Seq<char>>,
    r2: Map<Seq<char>, Seq<char>>,
    c: nat,
)
    requires
        crate::expr::spec_alpha_eq_at(e1, e2, b1, b2, depth),
        renames_track_depths(b1, r1, b2, r2, depth, c),
    ensures
        spec_normalize_from(e1, r1, c) == spec_normalize_from(e2, r2, c),
    decreases e1,
{
    match (e1, e2) {
        (SpecExpr::Var { name: n1 }, SpecExpr::Var { name: n2 }) => {
        },
        (SpecExpr::Abs { param: p1, body: body1 }, SpecExpr::Abs { param: p2, body: body2 }) => {
            let fresh = decimal_name(c);
            let b1n = b1.insert(p1, depth);
            let b2n = b2.insert(p2, depth);
            let r1n = r1.insert(p1, fresh);
            let r2n = r2.insert(p2, fresh);
            assert(renames_track_depths(b1n, r1n, b2n, r2n, depth + 1, c + 1)) by {
                assert forall|x: Seq<char>, y: Seq<char>|
                    #[trigger] b1n.contains_key(x) && #[trigger] b2n.contains_key(y) implies (
                b1n[x] == b2n[y] <==> r1n[x] == r2n[y]) by {
                    if x == p1 && y == p2 {
                    } else if x == p1 {
                        let k = choose|k: nat| k < c && r2[y] == decimal_name(k);
                        if r1n[x] == r2n[y] {
                            lemma_decimal_name_injective(c, k);
                        }
                    } else if y == p2 {
                        let k = choose|k: nat| k < c && r1[x] == decimal_name(k);
                        if r1n[x] == r2n[y] {
                            lemma_decimal_name_injective(k, c);
                        }
                    } else {
                    }
                }
            }
            lemma_alpha_eq_normalize_from(*body1, *body2, b1n, b2n, depth + 1, r1n, r2n, c + 1);
        },
        (SpecExpr::App { lhs: l1, rhs: rr1 }, SpecExpr::App { lhs: l2, rhs: rr2 }) => {
            lemma_alpha_eq_normalize_from(*l1, *l2, b1, b2, depth, r1, r2, c);
            let c1 = spec_normalize_from(*l1, r1, c).1;
            lemma_normalize_counter_monotonic(*l1, r1, c);
            assert(renames_track_depths(b1, r1, b2, r2, depth, c1));
            lemma_alpha_eq_normalize_from(*rr1, *rr2, b1, b2, depth, r1, r2, c1);
        },
        _ => {
        },
    }
}

/// Alpha-equivalence soundness: two terms that differ only in the names of
/// their bound variables normalize to the very same tree, so structural
/// equality after normalization decides alpha-equivalence.
pub proof fn lemma_alpha_equivalent_normalize_equal(e1: SpecExpr, e2: SpecExpr)
    requires
        crate::expr::spec_alpha_eq(e1, e2),
    ensures
        spec_normalize(e1) == spec_normalize(e2),
{
    lemma_alpha_eq_normalize_from(
        e1,
        e2,
        Map::<Seq<char>, nat>::empty(),
        Map::<Seq<char>, nat>::empty(),
        0,
        Map::<Seq<char>, Seq<char>>::empty(),
        Map::<Seq<char>, Seq<char>>::empty(),
        1,
    );
}

/// A digit character.
pub open spec fn is_digit_char(c: char) -> bool {
    '0' <= c && c <= '9'
}

/// A name spelled entirely of digits — the shape canonical names take.
pub open spec fn all_digit_chars(s: Seq<char>) -> bool {
    forall|i: int| 0 <= i < s.len() ==> is_digit_char(#[trigger] s[i])
}

/// No variable or parameter name in the term is spelled entirely of digits,
/// so no original name can collide with an issued canonical name.
pub open spec fn no_numeral_names(e: SpecExpr) -> bool
    decreases e,
{
    match e {
        SpecExpr::Var { name } => !all_digit_chars(name),
        SpecExpr::Abs { param, body } => !all_digit_chars(param) && no_numeral_names(*body),
        SpecExpr::App { lhs, rhs } => no_numeral_names(*lhs) && no_numeral_names(*rhs),
    }
}

/// What a free occurrence of `x` reads as under the renames `m`.
pub open spec fn rename_of(x: Seq<char>, m: Map<Seq<char>, Seq<char>>) -> Seq<char> {
    if m.contains_key(x) {
        m[x]
    } else {
        x
    }
}

/// Canonical names are nonempty and spelled entirely of digits.
pub proof fn lemma_decimal_name_digits(n: nat)
    ensures
        decimal_name(n).len() >= 1,
        all_digit_chars(decimal_name(n)),
{
    lemma_decimal_bounds(n);
    assert forall|i: int| 0 <= i < decimal_name(n).len() implies is_digit_char(
        #[trigger] decimal_name(n)[i],
    ) by {
        assert(decimal_name(n)[i] == digit_to_char(decimal(n)[i]));
        assert(decimal(n)[i] <= 9);
    }
}

/// Every free variable of a term without numeral names has a non-digit
/// character in its name.
proof fn lemma_free_vars_not_numerals(e: SpecExpr)
    requires
        no_numeral_names(e),
    ensures
        forall|x: Seq<char>| crate::expr::free_vars(e).contains(x) ==> !all_digit_chars(x),
    decreases e,
{
    match e {
        SpecExpr::Var { name } => {
        },
        SpecExpr::Abs { param, body } => {
            lemma_free_vars_not_numerals(*body);
        },
        SpecExpr::App { lhs, rhs } => {
            lemma_free_vars_not_numerals(*lhs);
            lemma_free_vars_not_numerals(*rhs);
        },
    }
}

/// The free variables of a normalized term are exactly the renames of the
/// free variables of the original, as long as the renames issued so far are
/// canonical names below the counter and no original name is a numeral.
proof fn lemma_normalize_free_vars_from(e: SpecExpr, m: Map<Seq<char>, Seq<char>>, c: nat)
    requires
        no_numeral_names(e),
        forall|x: Seq<char>| #[trigger] m.contains_key(x) ==> exists|k: nat|
            k < c && m[x] == decimal_name(k),
    ensures
        forall|y: Seq<char>|
            #[trigger] crate::expr::free_vars(spec_normalize_from(e, m, c).0).contains(y) <==> (
            exists|x: Seq<char>| #[trigger] crate::expr::free_vars(e).contains(x) && y == rename_of(
                x,
                m,
            )),
    decreases e,
{
    let result = spec_normalize_from(e, m, c).0;
    match e {
        SpecExpr::Var { name } => {
            assert forall|y: Seq<char>| #[trigger] crate::expr::free_vars(result).contains(y)
                implies (exists|x: Seq<char>| #[trigger] crate::expr::free_vars(e).contains(x) && y
                == rename_of(x, m)) by {
                assert(crate::expr::free_vars(e).contains(name) && y == rename_of(name, m));
            }
        },
        SpecExpr::Abs { param, body } => {
            let fresh = decimal_name(c);
            let mn = m.insert(param, fresh);
            let inner = spec_normalize_from(*body, mn, c + 1).0;
            assert forall|x: Seq<char>| #[trigger] mn.contains_key(x) implies exists|k: nat|
                k < c + 1 && mn[x] == decimal_name(k) by {
                if x == param {
                    assert(c < c + 1 && mn[x] == decimal_name(c));
                } else {
                    let k = choose|k: nat| k < c && m[x] == decimal_name(k);
                    assert(k < c + 1 && mn[x] == decimal_name(k));
                }
            }
            lemma_normalize_free_vars_from(*body, mn, c + 1);
            lemma_free_vars_not_numerals(*body);
            lemma_decimal_name_digits(c);
            assert forall|y: Seq<char>| #[trigger] crate::expr::free_vars(result).contains(y)
                implies (exists|x: Seq<char>| #[trigger] crate::expr::free_vars(e).contains(x) && y
                == rename_of(x, m)) by {
                assert(crate::expr::free_vars(inner).contains(y) && y != fresh);
                let x = choose|x: Seq<char>| #[trigger] crate::expr::free_vars(*body).contains(x)
                    && y == rename_of(x, mn);
                assert(x != param);
                assert(rename_of(x, mn) == rename_of(x, m));
                assert(crate::expr::free_vars(e).contains(x) && y == rename_of(x, m));
            }
            assert forall|y: Seq<char>|
                (exists|x: Seq<char>| #[trigger] crate::expr::free_vars(e).contains(x) && y
                == rename_of(x, m)) implies #[trigger] crate::expr::free_vars(result).contains(
                y,
            ) by {
                let x = choose|x: Seq<char>| #[trigger] crate::expr::free_vars(e).contains(x) && y
                    == rename_of(x, m);
                assert(crate::expr::free_vars(*body).contains(x) && x != param);
                assert(rename_of(x, mn) == rename_of(x, m));
                assert(crate::expr::free_vars(inner).contains(y));
                if y == fresh {
                    if m.contains_key(x) {
                        let k = choose|k: nat| k < c && m[x] == decimal_name(k);
                        lemma_decimal_name_injective(k, c);
                        assert(false);
                    } else {
                        assert(!all_digit_chars(x));
                        assert(all_digit_chars(fresh));
                        assert(false);
                    }
                }
            }
        },
        SpecExpr::App { lhs, rhs } => {
            let c1 = spec_normalize_from(*lhs, m, c).1;
            lemma_normalize_counter_monotonic(*lhs, m, c);
            lemma_normalize_free_vars_from(*lhs, m, c);
            assert forall|x: Seq<char>| #[trigger] m.contains_key(x) implies exists|k: nat|
                k < c1 && m[x] == decimal_name(k) by {
                let k = choose|k: nat| k < c && m[x] == decimal_name(k);
                assert(k < c1 && m[x] == decimal_name(k));
            }
            lemma_normalize_free_vars_from(*rhs, m, c1);
            let left = spec_normalize_from(*lhs, m, c).0;
            let right = spec_normalize_from(*rhs, m, c1).0;
            assert forall|y: Seq<char>| #[trigger] crate::expr::free_vars(result).contains(y)
                implies (exists|x: Seq<char>| #[trigger] crate::expr::free_vars(e).contains(x) && y
                == rename_of(x, m)) by {
                if crate::expr::free_vars(left).contains(y) {
                    let x = choose|x: Seq<char>|
                        #[trigger] crate::expr::free_vars(*lhs).contains(x) && y == rename_of(x, m);
                    assert(crate::expr::free_vars(e).contains(x));
                } else {
                    assert(crate::expr::free_vars(right).contains(y));
                    let x = choose|x: Seq<char>|
                        #[trigger] crate::expr::free_vars(*rhs).contains(x) && y == rename_of(x, m);
                    assert(crate::expr::free_vars(e).contains(x));
                }
            }
            assert forall|y: Seq<char>|
                (exists|x: Seq<char>| #[trigger] crate::expr::free_vars(e).contains(x) && y
                == rename_of(x, m)) implies #[trigger] crate::expr::free_vars(result).contains(
                y,
            ) by {
                let x = choose|x: Seq<char>| #[trigger] crate::expr::free_vars(e).contains(x) && y
                    == rename_of(x, m);
                if crate::expr::free_vars(*lhs).contains(x) {
                    assert(crate::expr::free_vars(left).contains(y));
                } else {
                    assert(crate::expr::free_vars(*rhs).contains(x));
                    assert(crate::expr::free_vars(right).contains(y));
                }
            }
        },
    }
}

/// Free-variable identity preservation: normalizing renames bound variables
/// only, so the free variables of the result are exactly those of the
/// original. The one proviso is that no name in the term is spelled entirely
/// of digits: a free variable of that shape could coincide with an issued
/// canonical name and be captured in the output.
pub proof fn lemma_normalize_preserves_free_vars(e: SpecExpr)
    requires
        no_numeral_names(e),
    ensures
        crate::expr::free_vars(spec_normalize(e)) == crate::expr::free_vars(e),
{
    lemma_normalize_free_vars_from(e, Map::<Seq<char>, Seq<char>>::empty(), 1);
    assert forall|y: Seq<char>| crate::expr::free_vars(spec_normalize(e)).contains(y)
        <==> crate::expr::free_vars(e).contains(y) by {
        if crate::expr::free_vars(e).contains(y) {
            assert(crate::expr::free_vars(e).contains(y) && y == rename_of(
                y,
                Map::<Seq<char>, Seq<char>>::empty(),
            ));
        }
        if crate::expr::free_vars(spec_normalize(e)).contains(y) {
            let x = choose|x: Seq<char>| #[trigger] crate::expr::free_vars(e).contains(x) && y
                == rename_of(x, Map::<Seq<char>, Seq<char>>::empty());
        }
    }
    assert(crate::expr::free_vars(spec_normalize(e)) =~= crate::expr::free_vars(e));
}

} // verus!
