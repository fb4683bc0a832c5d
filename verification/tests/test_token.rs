use lambda::lexer::lex;
use lambda::token::{Token, TokenIterator};

#[test]
fn token_iterator_walks_in_order() {
    let tokens = lex("λx.x y").unwrap();
    let mut it = TokenIterator::new(&tokens);
    assert_eq!(it.index(), 0);
    assert!(matches!(it.peek(), Some(Token::Lambda)));
    assert!(matches!(it.next(), Some(Token::Lambda)));
    assert!(matches!(it.next(), Some(Token::Variable(_))));
    assert!(matches!(it.next(), Some(Token::Dot)));
    assert_eq!(it.index(), 3);
    assert!(matches!(it.next(), Some(Token::Variable(_))));
    assert!(matches!(it.next(), Some(Token::Variable(_))));
    assert!(it.peek().is_none());
    assert!(it.next().is_none());
    assert_eq!(it.index(), 5);
}

#[test]
fn end_of_expr_stops_past_unbalanced_right_paren() {
    // Inside "x y) z" the expression ends just past the right parenthesis.
    let tokens = lex("x y) z").unwrap();
    let it = TokenIterator::new(&tokens);
    assert_eq!(it.end_of_expr(), 3);
}

#[test]
fn end_of_expr_reaches_the_end_when_balanced() {
    let tokens = lex("x (y z) u").unwrap();
    let it = TokenIterator::new(&tokens);
    assert_eq!(it.end_of_expr(), tokens.len());
}

#[test]
fn error_display_strings() {
    let syntax: lambda::ParseResult = "@".parse();
    let msg = syntax.unwrap_err().to_display_string();
    assert_eq!(msg, "SyntaxError: Illegal character @");

    let omega: lambda::Expression = "(λx.x x) (λx.x x)".parse().unwrap();
    let runtime = lambda::evaluate(omega).unwrap_err().to_display_string();
    assert_eq!(
        runtime,
        "RuntimeError: Evaluation did not terminate within the step limit."
    );
}

#[test]
fn display_parenthesizes_non_variable_sides_only() {
    let expr: lambda::Expression = "(λx.x) ((x y) (λz.z u))".parse().unwrap();
    assert_eq!(expr.to_string(), "(λx.x) ((x y) (λz.z u))");
    let expr: lambda::Expression = "f x".parse().unwrap();
    assert_eq!(expr.to_string(), "f x");
}

#[test]
fn constructors_build_the_expected_trees() {
    let expr = lambda::Expression::new_application(
        lambda::Expression::new_function("x".to_string(), lambda::Expression::new_variable("x")),
        lambda::Expression::new_variable("y"),
    );
    assert_eq!(expr.to_string(), "(λx.x) y");
    assert_eq!(expr, "(λx.x) y".parse().unwrap());
}
