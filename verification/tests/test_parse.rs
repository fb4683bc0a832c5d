use lambda::LambdaError;
use lambda::ParseResult;

fn check_parsed_correctly(code: &str, expected: &str) {
    let expr: ParseResult = code.parse();
    assert!(expr.is_ok());
    assert_eq!(expr.unwrap().to_string(), expected);
}

fn check_syntax_error(code: &str) {
    let expr: ParseResult = code.parse();
    assert!(matches!(expr, Err(LambdaError::SyntaxError(_))));
}

#[test]
fn test_parse_single_variable() {
    check_parsed_correctly("x", "x");
}

#[test]
fn two_variable_application() {
    check_parsed_correctly("x y", "x y");
}

#[test]
fn variable_application_with_parens() {
    check_parsed_correctly("(x y)", "x y");
    check_parsed_correctly("(x (y))", "x y");
    check_parsed_correctly("z ((x (y)))", "z (x y)");
    check_parsed_correctly("(z ((x (y))))", "z (x y)");
    check_parsed_correctly("((z u) ((x (y))))", "(z u) (x y)");
    check_parsed_correctly("(x y) (u v)", "(x y) (u v)");
}

#[test]
fn left_associativity() {
    check_parsed_correctly("x y z", "(x y) z");
    check_parsed_correctly("x (y z)", "x (y z)");
    check_parsed_correctly("x (y z) u", "(x (y z)) u");
}

#[test]
fn lambdas() {
    check_parsed_correctly("λx.x", "λx.x");
    check_parsed_correctly("λx.λy.x (x y)", "λx.λy.x (x y)");
    check_parsed_correctly("λf.λx.f (f (f x))", "λf.λx.f (f (f x))");
    check_parsed_correctly("λf.λx.f (f (f x))", "λf.λx.f (f (f x))");
}

#[test]
fn combined_expressions() {
    check_parsed_correctly("(λx.x) (λy.y) z", "((λx.x) (λy.y)) z");
    check_parsed_correctly("λu.(λx.x) (λy.y)", "λu.(λx.x) (λy.y)");
    check_parsed_correctly(
        "(λh.(λx.h (x x)) (λx.h (x x))) g",
        "(λh.(λx.h (x x)) (λx.h (x x))) g",
    );
    check_parsed_correctly(
        "g (\n(λx.g(x x))(λx.g (  x   x)))",
        "g ((λx.g (x x)) (λx.g (x x)))",
    );
}

#[test]
fn multi_parameter_lambdas_desugar() {
    check_parsed_correctly("λx y.x y", "λx.λy.x y");
    check_parsed_correctly("λf x y.f (x y)", "λf.λx.λy.f (x y)");
}

#[test]
fn left_associativity_explicit_parens_agree() {
    let implicit: ParseResult = "x y z".parse();
    let explicit: ParseResult = "(x y) z".parse();
    assert_eq!(implicit.unwrap(), explicit.unwrap());
}

#[test]
fn syntax_error_cases() {
    // Missing dot after the parameter.
    check_syntax_error("λx");
    // Missing variable after the lambda.
    check_syntax_error("λ.x");
    // Unbalanced parentheses, both ways.
    check_syntax_error("(x");
    check_syntax_error("x)");
    // Illegal character.
    check_syntax_error("@");
    // Nothing to parse at all.
    check_syntax_error("");
    check_syntax_error("  ");
    check_syntax_error(")");
    check_syntax_error("()");
    // A dot outside a lambda's parameter list.
    check_syntax_error("x . y");
}

#[test]
fn round_trip_display_then_parse() {
    for code in [
        "x",
        "x y z",
        "λx.x y",
        "λu.(λx.x) (λy.y)",
        "(λh.(λx.h (x x)) (λx.h (x x))) g",
        "λm.λn.λf.λx.m f (n f x)",
    ] {
        let expr: lambda::Expression = code.parse().unwrap();
        let printed = expr.to_string();
        let reparsed: lambda::Expression = printed.parse().unwrap();
        assert_eq!(reparsed, expr);
        assert_eq!(reparsed.to_string(), printed);
    }
}

#[test]
fn round_trip_after_normalize_without_binders() {
    // Free variables survive normalization unchanged, so printing and
    // re-parsing a binder-free normalized term gives the term back.
    let expr: lambda::Expression = "x y z".parse().unwrap();
    let normalized = lambda::normalize_variables(expr);
    let printed = normalized.to_string();
    assert_eq!(printed, "(x y) z");
    let reparsed: lambda::Expression = printed.parse().unwrap();
    assert_eq!(lambda::normalize_variables(reparsed), normalized);
}
