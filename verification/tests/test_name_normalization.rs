use lambda::church;
use lambda::normalize_variables;
use lambda::Expression;

fn check_normalized_correctly(code: &str, expected: &str) {
    let expr: Expression = code
        .parse()
        .expect("Failed to parse expression before normalization.");
    let normalized = normalize_variables(expr);
    assert_eq!(normalized.to_string(), expected);
}

#[test]
fn single_lambda() {
    check_normalized_correctly("λx.x", "λ1.1");
    check_normalized_correctly("λx.λy.x y x y", "λ1.λ2.((1 2) 1) 2");
}

#[test]
fn free_variables_remain() {
    check_normalized_correctly("x", "x");
    check_normalized_correctly("x y", "x y");
    check_normalized_correctly("x y", "x y");
    check_normalized_correctly("λf.f (y x)", "λ1.1 (y x)");
}

#[test]
fn constants() {
    check_normalized_correctly(church::THREE, "λ1.λ2.1 (1 (1 2))");
    check_normalized_correctly(church::PRED, "λ1.λ2.λ3.((1 (λ4.λ5.5 (4 2))) (λ6.3)) (λ7.7)");
}

#[test]
fn compound_expressions() {
    check_normalized_correctly(
        "(λb.λe.e b) (λf.λx.f (f x)) (λf.λx.f (f x))",
        "((λ1.λ2.2 1) (λ3.λ4.3 (3 4))) (λ5.λ6.5 (5 6))",
    )
}

#[test]
fn alpha_equivalent_terms_normalize_to_the_same_tree() {
    let left: Expression = "λx.x".parse().unwrap();
    let right: Expression = "λy.y".parse().unwrap();
    assert_eq!(normalize_variables(left), normalize_variables(right));

    let left: Expression = "λf.λx.f (f x)".parse().unwrap();
    let right: Expression = "λg.λy.g (g y)".parse().unwrap();
    assert_eq!(normalize_variables(left), normalize_variables(right));
}

#[test]
fn normalization_is_idempotent() {
    for code in ["λx.x", "λx.λy.x y x y", church::PRED, "λf.f (y x)", "x y"] {
        let expr: Expression = code.parse().unwrap();
        let once = normalize_variables(expr);
        let twice = normalize_variables(once.clone());
        assert_eq!(once, twice);
    }
}

#[test]
fn ten_nested_binders_use_two_digit_names() {
    let expr: Expression = "λa.λb.λc.λd.λe.λf.λg.λh.λi.λj.j".parse().unwrap();
    let normalized = normalize_variables(expr);
    assert_eq!(
        normalized.to_string(),
        "λ1.λ2.λ3.λ4.λ5.λ6.λ7.λ8.λ9.λ10.10"
    );
}
