//! The parser: tokens to an expression tree.
//!
//! Recursive descent over the token sequence. Application is left-associative,
//! a lambda binds as far right as possible (up to a closing parenthesis or the
//! end of input), and a lambda may bind several parameters at once, which
//! desugar into nested single-parameter abstractions.

use vstd::prelude::*;

use crate::error::LambdaError;
use crate::expr::{Expression, SpecExpr};
use crate::lexer::{
    illegal_char_msg, is_identifier, is_identifier_char, is_lambda_char, lex, spec_lex,
    spec_lex_rec,
};
use crate::token::{tokens_view, SpecToken, Token};

verus! {

/// The result of parsing: the expression, or the syntax error.
pub type ParseResult = Result<Expression, LambdaError>;

/// The message reported for a dot outside a lambda's parameter list.
pub open spec fn msg_unexpected_dot() -> Seq<char> {
    "Unexpected dot outside of function."@
}

/// The message reported when a lambda is not followed by a variable.
pub open spec fn msg_expected_variable() -> Seq<char> {
    "Expected variable after lambda."@
}

/// The message reported when a lambda's parameter is not followed by a dot.
pub open spec fn msg_expected_dot() -> Seq<char> {
    "Expected dot after parameter."@
}

/// The message reported when the tokens hold no expression at all.
pub open spec fn msg_no_expression() -> Seq<char> {
    "The code does not contain an expression."@
}

/// The message reported for an opening parenthesis that is never closed.
pub open spec fn msg_unexpected_end() -> Seq<char> {
    "Unexpected end of input."@
}

/// The message reported for a right parenthesis with no matching left one.
pub open spec fn msg_unexpected_right_paren() -> Seq<char> {
    "Unexpected right parenthesis."@
}

/// What parsing one term yields, starting at `i`: the term and the position
/// just past it, or the error. A term is a variable, a parenthesized
/// expression, or a lambda (whose body extends as far right as possible).
/// Meaningful when `0 <= i < ts.len()`.
pub open spec fn spec_parse_term(ts: Seq<SpecToken>, i: int) -> Result<
    (SpecExpr, int),
    Seq<char>,
>
    decreases ts.len() - i, 0int,
{
    if i < 0 || i >= ts.len() {
        Err(msg_no_expression())
    } else {
        match ts[i] {
            SpecToken::Variable(name) => Ok((SpecExpr::Var { name }, i + 1)),
            SpecToken::Dot => Err(msg_unexpected_dot()),
            SpecToken::RightParen => Err(msg_no_expression()),
            SpecToken::LeftParen => match spec_parse_seq(ts, i + 1, Option::None) {
                Err(m) => Err(m),
                Ok((e, j)) => if j < ts.len() && ts[j] is RightParen {
                    Ok((e, j + 1))
                } else {
                    Err(msg_unexpected_end())
                },
            },
            SpecToken::Lambda => spec_parse_lambda(ts, i + 1),
        }
    }
}

/// What parsing a lambda's parameters and body yields, with `i` standing at
/// the first parameter: one or more variables, then a dot, then the body,
/// folded right-to-left into nested abstractions.
pub open spec fn spec_parse_lambda(ts: Seq<SpecToken>, i: int) -> Result<
    (SpecExpr, int),
    Seq<char>,
>
    decreases ts.len() - i, 0int,
{
    if 0 <= i < ts.len() && ts[i] is Variable {
        let name = ts[i]->Variable_0;
        if i + 1 < ts.len() && ts[i + 1] is Variable {
            match spec_parse_lambda(ts, i + 1) {
                Err(m) => Err(m),
                Ok((body, j)) => Ok((SpecExpr::Abs { param: name, body: Box::new(body) }, j)),
            }
        } else if i + 1 < ts.len() && ts[i + 1] is Dot {
            match spec_parse_seq(ts, i + 2, Option::None) {
                Err(m) => Err(m),
                Ok((body, j)) => Ok((SpecExpr::Abs { param: name, body: Box::new(body) }, j)),
            }
        } else {
            Err(msg_expected_dot())
        }
    } else {
        Err(msg_expected_variable())
    }
}

/// What parsing a run of terms yields, starting at `i` with the terms already
/// parsed folded into `acc`: terms are consumed and folded left into
/// applications until a right parenthesis or the end of input, either of which
/// ends the run without being consumed.
pub open spec fn spec_parse_seq(ts: Seq<SpecToken>, i: int, acc: Option<SpecExpr>) -> Result<
    (SpecExpr, int),
    Seq<char>,
>
    decreases ts.len() - i, 1int,
{
    if i < 0 || i >= ts.len() || ts[i] is RightParen {
        match acc {
            Option::Some(e) => Ok((e, i)),
            Option::None => Err(msg_no_expression()),
        }
    } else {
        match spec_parse_term(ts, i) {
            Err(m) => Err(m),
            Ok((t, j)) => {
                let folded = match acc {
                    Option::None => t,
                    Option::Some(e) => SpecExpr::App { lhs: Box::new(e), rhs: Box::new(t) },
                };
                // A term always consumes at least one token and never runs
                // past the end, so this guard holds whenever the branch is
                // reached; it keeps the recursion visibly well-founded.
                if i < j <= ts.len() {
                    spec_parse_seq(ts, j, Option::Some(folded))
                } else {
                    Err(msg_no_expression())
                }
            },
        }
    }
}

/// What parsing a whole token sequence yields: the run of terms must reach the
/// end of input; a leftover right parenthesis is an error.
pub open spec fn spec_parse(ts: Seq<SpecToken>) -> Result<SpecExpr, Seq<char>> {
    match spec_parse_seq(ts, 0, Option::None) {
        Err(m) => Err(m),
        Ok((e, i)) => if i == ts.len() {
            Ok(e)
        } else {
            Err(msg_unexpected_right_paren())
        },
    }
}

/// What lexing and then parsing source text yields.
pub open spec fn spec_parse_str(s: Seq<char>) -> Result<SpecExpr, Seq<char>> {
    match spec_lex(s) {
        Err(c) => Err(illegal_char_msg(c)),
        Ok(ts) => spec_parse(ts),
    }
}

/// How an executable partial-parse result relates to its model: the same
/// position and tree on success, a syntax error with the same message on
/// failure.
pub open spec fn step_matches(
    r: Result<(Expression, usize), LambdaError>,
    s: Result<(SpecExpr, int), Seq<char>>,
) -> bool {
    match s {
        Ok((e, j)) => r matches Ok((expr, k)) && expr@ == e && k == j,
        Err(m) => r matches Err(LambdaError::SyntaxError(msg)) && msg@ == m,
    }
}

/// Build the syntax error carrying `text` as its message.
fn syntax_error(text: &str) -> (r: LambdaError)
    ensures
        r matches LambdaError::SyntaxError(m) && m@ == text@,
{
    LambdaError::SyntaxError(String::from_str(text))
}

/// Parse one term starting at `i`.
fn parse_term(tokens: &Vec<Token>, i: usize) -> (r: Result<(Expression, usize), LambdaError>)
    requires
        i < tokens@.len(),
    ensures
        step_matches(r, spec_parse_term(tokens_view(tokens@), i as int)),
        r matches Ok((e, j)) ==> i < j <= tokens@.len(),
    decreases tokens@.len() - i, 0int,
{
    let n = tokens.len();
    match &tokens[i] {
        Token::Variable(name) => Ok((Expression::Variable(name.clone()), i + 1)),
        Token::Dot => Err(syntax_error("Unexpected dot outside of function.")),
        Token::RightParen => Err(syntax_error("The code does not contain an expression.")),
        Token::LeftParen => {
            match parse_seq(tokens, i + 1, Option::None) {
                Err(m) => Err(m),
                Ok((e, j)) => {
                    if j < n {
                        match &tokens[j] {
                            Token::RightParen => Ok((e, j + 1)),
                            _ => Err(syntax_error("Unexpected end of input.")),
                        }
                    } else {
                        Err(syntax_error("Unexpected end of input."))
                    }
                },
            }
        },
        Token::Lambda => parse_lambda(tokens, i + 1),
    }
}

/// Parse a lambda's parameters and body, with `i` standing at the first
/// parameter.
fn parse_lambda(tokens: &Vec<Token>, i: usize) -> (r: Result<(Expression, usize), LambdaError>)
    ensures
        step_matches(r, spec_parse_lambda(tokens_view(tokens@), i as int)),
        r matches Ok((e, j)) ==> i < j <= tokens@.len(),
    decreases tokens@.len() - i, 0int,
{
    let n = tokens.len();
    if i < n {
        match &tokens[i] {
            Token::Variable(name) => {
                let param = name.clone();
                if i + 1 < n {
                    match &tokens[i + 1] {
                        Token::Variable(_) => {
                            match parse_lambda(tokens, i + 1) {
                                Err(m) => Err(m),
                                Ok((body, j)) => Ok(
                                    (Expression::Function(param, Box::new(body)), j),
                                ),
                            }
                        },
                        Token::Dot => {
                            match parse_seq(tokens, i + 2, Option::None) {
                                Err(m) => Err(m),
                                Ok((body, j)) => Ok(
                                    (Expression::Function(param, Box::new(body)), j),
                                ),
                            }
                        },
                        _ => Err(syntax_error("Expected dot after parameter.")),
                    }
                } else {
                    Err(syntax_error("Expected dot after parameter."))
                }
            },
            _ => Err(syntax_error("Expected variable after lambda.")),
        }
    } else {
        Err(syntax_error("Expected variable after lambda."))
    }
}

/// Parse a run of terms starting at `i`, folding them left into applications
/// onto `acc`, up to a right parenthesis or the end of input.
fn parse_seq(tokens: &Vec<Token>, i: usize, acc: Option<Expression>) -> (r: Result<
    (Expression, usize),
    LambdaError,
>)
    requires
        i <= tokens@.len(),
    ensures
        step_matches(
            r,
            spec_parse_seq(
                tokens_view(tokens@),
                i as int,
                match acc {
                    Option::Some(e) => Option::Some(e@),
                    Option::None => Option::None,
                },
            ),
        ),
        r matches Ok((e, j)) ==> i <= j <= tokens@.len(),
    decreases tokens@.len() - i, 1int,
{
    let stop = if i >= tokens.len() {
        true
    } else {
        match &tokens[i] {
            Token::RightParen => true,
            _ => false,
        }
    };
    if stop {
        match acc {
            Option::Some(e) => Ok((e, i)),
            Option::None => Err(syntax_error("The code does not contain an expression.")),
        }
    } else {
        match parse_term(tokens, i) {
            Err(m) => Err(m),
            Ok((t, j)) => {
                let folded = match acc {
                    Option::None => t,
                    Option::Some(e) => Expression::Application(Box::new(e), Box::new(t)),
                };
                parse_seq(tokens, j, Option::Some(folded))
            },
        }
    }
}

/// Parse a whole token sequence into an expression; [`spec_parse`] says
/// exactly which tree comes out, and on which sequences each syntax error is
/// reported instead.
pub fn parse_tokens(tokens: &Vec<Token>) -> (r: ParseResult)
    ensures
        spec_parse(tokens_view(tokens@)) matches Ok(e) ==> (r matches Ok(expr) && expr@ == e),
        spec_parse(tokens_view(tokens@)) matches Err(m) ==> (r matches Err(
            LambdaError::SyntaxError(msg),
        ) && msg@ == m),
{
    match parse_seq(tokens, 0, Option::None) {
        Err(m) => Err(m),
        Ok((e, j)) => {
            if j == tokens.len() {
                Ok(e)
            } else {
                Err(syntax_error("Unexpected right parenthesis."))
            }
        },
    }
}

/// Lex and parse source text; [`spec_parse_str`] says exactly which tree or
/// which error comes out.
pub fn parse_str(code: &str) -> (r: ParseResult)
    ensures
        spec_parse_str(code@) matches Ok(e) ==> (r matches Ok(expr) && expr@ == e),
        spec_parse_str(code@) matches Err(m) ==> (r matches Err(LambdaError::SyntaxError(msg))
            && msg@ == m),
{
    match lex(code) {
        Err(e) => Err(e),
        Ok(tokens) => parse_tokens(&tokens),
    }
}

impl core::str::FromStr for Expression {
    type Err = LambdaError;

    /// Lex and parse source text, as [`parse_str`] does.
    fn from_str(code: &str) -> Result<Expression, LambdaError> {
        parse_str(code)
    }
}

/// Every variable and parameter name in the term is an identifier the lexer
/// can read back.
pub open spec fn all_names_identifiers(e: SpecExpr) -> bool
    decreases e,
{
    match e {
        SpecExpr::Var { name } => is_identifier(name),
        SpecExpr::Abs { param, body } => is_identifier(param) && all_names_identifiers(*body),
        SpecExpr::App { lhs, rhs } => all_names_identifiers(*lhs) && all_names_identifiers(*rhs),
    }
}

/// The tokens the display form of a term lexes into.
pub open spec fn tokens_of(e: SpecExpr) -> Seq<SpecToken>
    decreases e, 0int,
{
    match e {
        SpecExpr::Var { name } => seq![SpecToken::Variable(name)],
        SpecExpr::Abs { param, body } => seq![
            SpecToken::Lambda,
            SpecToken::Variable(param),
            SpecToken::Dot,
        ] + tokens_of(*body),
        SpecExpr::App { lhs, rhs } => tokens_of_side(*lhs) + tokens_of_side(*rhs),
    }
}

/// The tokens one side of an application lexes into: parenthesized unless it
/// is a bare variable.
pub open spec fn tokens_of_side(e: SpecExpr) -> Seq<SpecToken>
    decreases e, 1int,
{
    if e is Var {
        tokens_of(e)
    } else {
        seq![SpecToken::LeftParen] + tokens_of(e) + seq![SpecToken::RightParen]
    }
}

/// Lexing the single character `c`, which stands for the token `t`, yields
/// exactly that token.
proof fn lemma_lex_single(c: char, t: SpecToken)
    requires
        !is_identifier_char(c),
        c == '.' ==> t is Dot,
        is_lambda_char(c) ==> t is Lambda,
        c == '(' ==> t is LeftParen,
        c == ')' ==> t is RightParen,
        c == '.' || is_lambda_char(c) || c == '(' || c == ')',
    ensures
        spec_lex_rec(seq![c], seq![]) == Ok::<Seq<SpecToken>, char>(seq![t]),
{
    let s: Seq<char> = seq![c];
    assert(s.drop_first() =~= Seq::<char>::empty());
    assert(spec_lex_rec(Seq::<char>::empty(), seq![]) == Ok::<Seq<SpecToken>, char>(
        Seq::<SpecToken>::empty(),
    ));
    assert(Seq::<SpecToken>::empty() + seq![t] + Seq::<SpecToken>::empty() =~= seq![t]);
}

/// Lexing a single whitespace character yields no token.
proof fn lemma_lex_single_space()
    ensures
        spec_lex_rec(seq![' '], seq![]) == Ok::<Seq<SpecToken>, char>(Seq::<SpecToken>::empty()),
{
    let s: Seq<char> = seq![' '];
    assert(s.drop_first() =~= Seq::<char>::empty());
    assert(spec_lex_rec(Seq::<char>::empty(), seq![]) == Ok::<Seq<SpecToken>, char>(
        Seq::<SpecToken>::empty(),
    ));
    assert(Seq::<SpecToken>::empty() + Seq::<SpecToken>::empty() + Seq::<SpecToken>::empty() =~= Seq::<
        SpecToken,
    >::empty());
}

/// Lexing the display form of a term yields exactly its tokens.
proof fn lemma_lex_display(e: SpecExpr)
    requires
        all_names_identifiers(e),
    ensures
        spec_lex_rec(crate::expr::display_spec(e), seq![]) == Ok::<Seq<SpecToken>, char>(
            tokens_of(e),
        ),
    decreases e, 0int,
{
    match e {
        SpecExpr::Var { name } => {
            crate::lexer::lemma_lex_rec_identifier(name);
        },
        SpecExpr::Abs { param, body } => {
            let lam: Seq<char> = seq!['\u{3bb}'];
            let dot: Seq<char> = seq!['.'];
            let inner = crate::expr::display_spec(*body);
            lemma_lex_display(*body);
            crate::lexer::lemma_lex_rec_identifier(param);
            lemma_lex_single('.', SpecToken::Dot);
            lemma_lex_single('\u{3bb}', SpecToken::Lambda);
            crate::lexer::lemma_lex_rec_append(dot, inner, seq![]);
            assert((param + (dot + inner))[0] == param[0]);
            crate::lexer::lemma_lex_rec_append(param, dot + inner, seq![]);
            crate::lexer::lemma_lex_rec_append(lam, param + (dot + inner), seq![]);
            assert(crate::expr::display_spec(e) =~= lam + (param + (dot + inner)));
            assert(seq![SpecToken::Lambda] + (seq![SpecToken::Variable(param)] + (seq![
                SpecToken::Dot,
            ] + tokens_of(*body))) =~= tokens_of(e));
        },
        SpecExpr::App { lhs, rhs } => {
            let sp: Seq<char> = seq![' '];
            let left = crate::expr::display_side_spec(*lhs);
            let right = crate::expr::display_side_spec(*rhs);
            lemma_lex_display_side(*lhs);
            lemma_lex_display_side(*rhs);
            lemma_lex_single_space();
            crate::lexer::lemma_lex_rec_append(sp, right, seq![]);
            assert((sp + right)[0] == ' ');
            crate::lexer::lemma_lex_rec_append(left, sp + right, seq![]);
            assert(crate::expr::display_spec(e) =~= left + (sp + right));
            assert(tokens_of_side(*lhs) + (Seq::<SpecToken>::empty() + tokens_of_side(*rhs))
                =~= tokens_of(e));
        },
    }
}

/// Lexing the display form of one application side yields exactly its tokens.
proof fn lemma_lex_display_side(e: SpecExpr)
    requires
        all_names_identifiers(e),
    ensures
        spec_lex_rec(crate::expr::display_side_spec(e), seq![]) == Ok::<Seq<SpecToken>, char>(
            tokens_of_side(e),
        ),
    decreases e, 1int,
{
    if e is Var {
        lemma_lex_display(e);
    } else {
        let lp: Seq<char> = seq!['('];
        let rp: Seq<char> = seq![')'];
        let inner = crate::expr::display_spec(e);
        lemma_lex_display(e);
        lemma_lex_single('(', SpecToken::LeftParen);
        lemma_lex_single(')', SpecToken::RightParen);
        crate::lexer::lemma_lex_rec_append(inner, rp, seq![]);
        crate::lexer::lemma_lex_rec_append(lp, inner + rp, seq![]);
        assert(crate::expr::display_side_spec(e) =~= lp + (inner + rp));
        assert(seq![SpecToken::LeftParen] + (tokens_of(e) + seq![SpecToken::RightParen])
            =~= tokens_of_side(e));
    }
}

/// A term's token form is never empty, and it never starts with a right
/// parenthesis, a dot, or a lambda when it stands as an application side.
proof fn lemma_tokens_of_lens(e: SpecExpr)
    ensures
        tokens_of(e).len() >= 1,
        tokens_of_side(e).len() >= 1,
        tokens_of_side(e)[0] is Variable || tokens_of_side(e)[0] is LeftParen,
    decreases e,
{
    match e {
        SpecExpr::Var { name } => {
        },
        SpecExpr::Abs { param, body } => {
        },
        SpecExpr::App { lhs, rhs } => {
            lemma_tokens_of_lens(*lhs);
            lemma_tokens_of_lens(*rhs);
        },
    }
}

/// Parsing one term whose token form stands at `i` yields exactly that term
/// and stops just past it.
proof fn lemma_parse_term_of(e: SpecExpr, ts: Seq<SpecToken>, i: int)
    requires
        0 <= i,
        i + tokens_of_side(e).len() <= ts.len(),
        ts.subrange(i, i + tokens_of_side(e).len() as int) == tokens_of_side(e),
    ensures
        spec_parse_term(ts, i) == Ok::<(SpecExpr, int), Seq<char>>(
            (e, i + tokens_of_side(e).len() as int),
        ),
    decreases e, 1int,
{
    lemma_tokens_of_lens(e);
    let side = tokens_of_side(e);
    assert(ts[i] == side[0]);
    match e {
        SpecExpr::Var { name } => {
            assert(ts[i] == SpecToken::Variable(name));
        },
        _ => {
            let inner = tokens_of(e);
            let j = i + 1 + inner.len() as int;
            assert(side[0] is LeftParen);
            assert(ts.subrange(i + 1, j) =~= inner) by {
                assert forall|k: int| 0 <= k < inner.len() implies ts.subrange(i + 1, j)[k]
                    == inner[k] by {
                    assert(ts.subrange(i + 1, j)[k] == ts[i + 1 + k]);
                    assert(ts[i + 1 + k] == side[1 + k]);
                    assert(side[1 + k] == inner[k]);
                }
            }
            assert(ts[j] == side[side.len() - 1]);
            assert(ts[j] is RightParen);
            lemma_parse_seq_of(e, ts, i + 1);
        },
    }
}

/// Parsing a run of terms that is exactly the token form of `e`, bounded by a
/// right parenthesis or the end of input, yields exactly `e`.
proof fn lemma_parse_seq_of(e: SpecExpr, ts: Seq<SpecToken>, i: int)
    requires
        0 <= i,
        i + tokens_of(e).len() <= ts.len(),
        ts.subrange(i, i + tokens_of(e).len() as int) == tokens_of(e),
        i + tokens_of(e).len() == ts.len() || ts[i + tokens_of(e).len() as int] is RightParen,
    ensures
        spec_parse_seq(ts, i, Option::None) == Ok::<(SpecExpr, int), Seq<char>>(
            (e, i + tokens_of(e).len() as int),
        ),
    decreases e, 0int,
{
    lemma_tokens_of_lens(e);
    let toks = tokens_of(e);
    let j = i + toks.len() as int;
    assert(ts[i] == toks[0]);
    assert(spec_parse_seq(ts, j, Option::Some(e)) == Ok::<(SpecExpr, int), Seq<char>>((e, j)));
    match e {
        SpecExpr::Var { name } => {
            assert(ts[i] == SpecToken::Variable(name));
            assert(spec_parse_term(ts, i) == Ok::<(SpecExpr, int), Seq<char>>((e, i + 1)));
        },
        SpecExpr::Abs { param, body } => {
            lemma_tokens_of_lens(*body);
            let inner = tokens_of(*body);
            assert(ts[i] is Lambda);
            assert(ts[i + 1] == toks[1] && toks[1] == SpecToken::Variable(param));
            assert(ts[i + 2] == toks[2] && toks[2] is Dot);
            assert(ts.subrange(i + 3, j) =~= inner) by {
                assert forall|k: int| 0 <= k < inner.len() implies ts.subrange(i + 3, j)[k]
                    == inner[k] by {
                    assert(ts.subrange(i + 3, j)[k] == ts[i + 3 + k]);
                    assert(ts[i + 3 + k] == toks[3 + k]);
                    assert(toks[3 + k] == inner[k]);
                }
            }
            lemma_parse_seq_of(*body, ts, i + 3);
            assert(spec_parse_lambda(ts, i + 1) == Ok::<(SpecExpr, int), Seq<char>>((e, j)));
            assert(spec_parse_term(ts, i) == Ok::<(SpecExpr, int), Seq<char>>((e, j)));
        },
        SpecExpr::App { lhs, rhs } => {
            lemma_tokens_of_lens(*lhs);
            lemma_tokens_of_lens(*rhs);
            let left = tokens_of_side(*lhs);
            let right = tokens_of_side(*rhs);
            let m = i + left.len() as int;
            assert(ts.subrange(i, m) =~= left) by {
                assert forall|k: int| 0 <= k < left.len() implies ts.subrange(i, m)[k] == left[k] by {
                    assert(ts.subrange(i, m)[k] == ts[i + k]);
                    assert(ts[i + k] == toks[k]);
                    assert(toks[k] == left[k]);
                }
            }
            assert(ts.subrange(m, j) =~= right) by {
                assert forall|k: int| 0 <= k < right.len() implies ts.subrange(m, j)[k]
                    == right[k] by {
                    assert(ts.subrange(m, j)[k] == ts[m + k]);
                    assert(ts[m + k] == toks[left.len() + k]);
                    assert(toks[left.len() + k] == right[k]);
                }
            }
            lemma_parse_term_of(*lhs, ts, i);
            lemma_parse_term_of(*rhs, ts, m);
            assert(ts[i] == left[0] && !(ts[i] is RightParen));
            assert(ts[m] == right[0] && !(ts[m] is RightParen));
            assert(spec_parse_term(ts, m) == Ok::<(SpecExpr, int), Seq<char>>((*rhs, j)));
            assert(spec_parse_seq(ts, m, Option::Some(*lhs)) == Ok::<(SpecExpr, int), Seq<char>>(
                (e, j),
            ));
            assert(spec_parse_term(ts, i) == Ok::<(SpecExpr, int), Seq<char>>((*lhs, m)));
        },
    }
}

/// Parsing the token form of any term gives the term back exactly.
pub proof fn lemma_parse_tokens_of(e: SpecExpr)
    ensures
        spec_parse(tokens_of(e)) == Ok::<SpecExpr, Seq<char>>(e),
{
    let ts = tokens_of(e);
    lemma_tokens_of_lens(e);
    assert(ts.subrange(0, ts.len() as int) =~= ts);
    lemma_parse_seq_of(e, ts, 0);
}

/// Round trip through the display form: printing any term whose names are
/// identifiers and parsing the text back gives the term back exactly — in
/// particular the result is alpha-equivalent to (indeed equal to) what was
/// printed.
pub proof fn lemma_display_parse_round_trip(e: SpecExpr)
    requires
        all_names_identifiers(e),
    ensures
        spec_parse_str(crate::expr::display_spec(e)) == Ok::<SpecExpr, Seq<char>>(e),
{
    lemma_lex_display(e);
    crate::lexer::lemma_lex_rec_agrees(crate::expr::display_spec(e));
    lemma_parse_tokens_of(e);
}

/// Canonical names are identifiers, so normalized terms print and parse back.
proof fn lemma_decimal_name_is_identifier(n: nat)
    ensures
        is_identifier(crate::normalize::decimal_name(n)),
{
    crate::normalize::lemma_decimal_name_digits(n);
    assert forall|i: int| 0 <= i < crate::normalize::decimal_name(n).len() implies is_identifier_char(
        #[trigger] crate::normalize::decimal_name(n)[i],
    ) by {
        assert(crate::normalize::is_digit_char(crate::normalize::decimal_name(n)[i]));
    }
}

/// Normalizing keeps every name an identifier: free names are untouched and
/// canonical names are numerals.
proof fn lemma_normalize_names_identifiers(
    e: SpecExpr,
    m: Map<Seq<char>, Seq<char>>,
    c: nat,
)
    requires
        all_names_identifiers(e),
        forall|x: Seq<char>| #[trigger] m.contains_key(x) ==> is_identifier(m[x]),
    ensures
        all_names_identifiers(crate::normalize::spec_normalize_from(e, m, c).0),
    decreases e,
{
    match e {
        SpecExpr::Var { name } => {
        },
        SpecExpr::Abs { param, body } => {
            lemma_decimal_name_is_identifier(c);
            lemma_normalize_names_identifiers(
                *body,
                m.insert(param, crate::normalize::decimal_name(c)),
                c + 1,
            );
        },
        SpecExpr::App { lhs, rhs } => {
            lemma_normalize_names_identifiers(*lhs, m, c);
            lemma_normalize_names_identifiers(
                *rhs,
                m,
                crate::normalize::spec_normalize_from(*lhs, m, c).1,
            );
        },
    }
}

/// Round trip through normalization: for a term whose names are identifiers,
/// printing its normal form and parsing the text back yields that normal form
/// exactly, so the re-parsed term is alpha-equivalent to the original.
pub proof fn lemma_round_trip_normalized(e: SpecExpr)
    requires
        all_names_identifiers(e),
    ensures
        spec_parse_str(crate::expr::display_spec(crate::normalize::spec_normalize(e))) == Ok::<
            SpecExpr,
            Seq<char>,
        >(crate::normalize::spec_normalize(e)),
{
    lemma_normalize_names_identifiers(e, Map::<Seq<char>, Seq<char>>::empty(), 1);
    lemma_display_parse_round_trip(crate::normalize::spec_normalize(e));
}

/// A term parsed from tokens with identifier names has identifier names
/// itself.
proof fn lemma_parse_term_names(ts: Seq<SpecToken>, i: int)
    requires
        crate::lexer::tokens_have_identifier_names(ts),
    ensures
        spec_parse_term(ts, i) matches Ok(p) ==> all_names_identifiers(p.0),
    decreases ts.len() - i, 0int,
{
    if i < 0 || i >= ts.len() {
    } else {
        match ts[i] {
            SpecToken::Variable(name) => {
            },
            SpecToken::Dot => {
            },
            SpecToken::RightParen => {
            },
            SpecToken::LeftParen => {
                lemma_parse_seq_names(ts, i + 1, Option::None);
            },
            SpecToken::Lambda => {
                lemma_parse_lambda_names(ts, i + 1);
            },
        }
    }
}

/// A lambda parsed from tokens with identifier names has identifier names.
proof fn lemma_parse_lambda_names(ts: Seq<SpecToken>, i: int)
    requires
        crate::lexer::tokens_have_identifier_names(ts),
    ensures
        spec_parse_lambda(ts, i) matches Ok(p) ==> all_names_identifiers(p.0),
    decreases ts.len() - i, 0int,
{
    if 0 <= i < ts.len() && ts[i] is Variable {
        if i + 1 < ts.len() && ts[i + 1] is Variable {
            lemma_parse_lambda_names(ts, i + 1);
        } else if i + 1 < ts.len() && ts[i + 1] is Dot {
            lemma_parse_seq_names(ts, i + 2, Option::None);
        }
    }
}

/// A run of terms parsed from tokens with identifier names, folded onto an
/// accumulator with identifier names, has identifier names.
proof fn lemma_parse_seq_names(ts: Seq<SpecToken>, i: int, acc: Option<SpecExpr>)
    requires
        crate::lexer::tokens_have_identifier_names(ts),
        acc matches Option::Some(e) ==> all_names_identifiers(e),
    ensures
        spec_parse_seq(ts, i, acc) matches Ok(p) ==> all_names_identifiers(p.0),
    decreases ts.len() - i, 1int,
{
    if i < 0 || i >= ts.len() || ts[i] is RightParen {
    } else {
        lemma_parse_term_names(ts, i);
        match spec_parse_term(ts, i) {
            Err(m) => {
            },
            Ok((t, j)) => {
                let folded = match acc {
                    Option::None => t,
                    Option::Some(e) => SpecExpr::App { lhs: Box::new(e), rhs: Box::new(t) },
                };
                if i < j <= ts.len() {
                    lemma_parse_seq_names(ts, j, Option::Some(folded));
                }
            },
        }
    }
}

/// Every syntactically valid term has identifier names: whatever text parses
/// successfully parses to a tree whose variable and parameter names the lexer
/// can read back.
pub proof fn lemma_parsed_names_are_identifiers(s: Seq<char>)
    ensures
        spec_parse_str(s) matches Ok(e) ==> all_names_identifiers(e),
{
    crate::lexer::lemma_lex_names(s);
    match spec_lex(s) {
        Err(_) => {
        },
        Ok(ts) => {
            lemma_parse_seq_names(ts, 0, Option::None);
        },
    }
}

/// Round trip, as it holds of every syntactically valid term: parse a text,
/// normalize the term, print it, and parse the print-out — the result is the
/// normal form itself, so it is alpha-equivalent to (structurally equal after
/// normalization with) the original term.
pub proof fn lemma_round_trip_of_source(s: Seq<char>, e: SpecExpr)
    requires
        spec_parse_str(s) == Ok::<SpecExpr, Seq<char>>(e),
    ensures
        spec_parse_str(crate::expr::display_spec(crate::normalize::spec_normalize(e))) == Ok::<
            SpecExpr,
            Seq<char>,
        >(crate::normalize::spec_normalize(e)),
{
    lemma_parsed_names_are_identifiers(s);
    lemma_round_trip_normalized(e);
}

} // verus!
