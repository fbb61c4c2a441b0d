use expr_eval::eval::{eval, EvalError, Expr, Order};
use expr_eval::tree::ExprTree;

fn to_expr(expr: &str) -> Expr {
    expr.split_whitespace().map(|s| s.to_string()).collect::<Vec<String>>()
}

#[test]
fn test_parse_builds_expected_tree() {
    let expected = ExprTree::Tree(
        '*',
        Box::new(ExprTree::Num(2)),
        Box::new(ExprTree::Num(1)),
    );
    assert_eq!(ExprTree::parse(Order::Post, to_expr("2 1 *")), Ok(expected));

    let expected = ExprTree::Tree(
        '+',
        Box::new(ExprTree::Num(40)),
        Box::new(ExprTree::Num(2)),
    );
    assert_eq!(ExprTree::parse(Order::Pre, to_expr("+ 40 2")), Ok(expected));
}

#[test]
fn test_parse_same_tree_from_both_orders() {
    let pre = ExprTree::parse(Order::Pre, to_expr("* / 2 1 + - 9 8 * 3 4")).unwrap();
    let post = ExprTree::parse(Order::Post, to_expr("2 1 / 9 8 - 3 4 * + *")).unwrap();
    assert_eq!(pre, post);
}

#[test]
fn test_eval_agrees_across_orders_on_same_tree() {
    // a postfix expression and its prefix transliteration evaluate alike
    let post = to_expr("2 1 / 9 8 - 3 4 * + *");
    let pre = to_expr("* / 2 1 + - 9 8 * 3 4");
    assert_eq!(eval(&Order::Post, post), eval(&Order::Pre, pre));
}

#[test]
fn test_parse_no_division_by_zero_at_build_time() {
    // the builder does not evaluate, so a zero divisor is fine here
    let expected = ExprTree::Tree(
        '/',
        Box::new(ExprTree::Num(2)),
        Box::new(ExprTree::Num(0)),
    );
    assert_eq!(ExprTree::parse(Order::Post, to_expr("2 0 /")), Ok(expected));
}

#[test]
fn test_parse_error_taxonomy_matches_eval() {
    assert_eq!(
        ExprTree::parse(Order::Post, to_expr("2 3 %")),
        Err(EvalError::InvalidSymbol(String::from("%")))
    );
    assert_eq!(
        ExprTree::parse(Order::Pre, to_expr("")),
        Err(EvalError::InvalidSyntax(Order::Pre))
    );
    assert_eq!(
        ExprTree::parse(Order::Post, to_expr("")),
        Err(EvalError::InvalidSyntax(Order::Post))
    );
    assert_eq!(
        ExprTree::parse(Order::Pre, to_expr("/ 2 3 4")),
        Err(EvalError::InvalidSyntax(Order::Pre))
    );
    assert_eq!(
        ExprTree::parse(Order::Post, to_expr("1 2 3 /")),
        Err(EvalError::InvalidSyntax(Order::Post))
    );
}

#[test]
fn test_render_higher_precedence_child_unparenthesized() {
    // + 1 * 2 3 prints without parentheses: * binds tighter than +
    let t = ExprTree::parse(Order::Pre, to_expr("+ 1 * 2 3")).unwrap();
    assert_eq!(t.render(), "1 + 2 * 3");
}

#[test]
fn test_render_lower_precedence_child_parenthesized() {
    // * + 1 2 3 needs parentheses: the child + binds less tightly than *
    let t = ExprTree::parse(Order::Pre, to_expr("* + 1 2 3")).unwrap();
    assert_eq!(t.render(), "( 1 + 2 ) * 3");
}

#[test]
fn test_render_nested_expression() {
    let t = ExprTree::parse(Order::Pre, to_expr("* / 2 1 + - 9 8 * 3 4")).unwrap();
    assert_eq!(t.render(), "2 / 1 * ( 9 - 8 + 3 * 4 )");
}

#[test]
fn test_render_negative_numbers() {
    let t = ExprTree::parse(Order::Post, to_expr("138 -2 /")).unwrap();
    assert_eq!(t.render(), "138 / -2");

    let t = ExprTree::parse(Order::Pre, to_expr("-2147483648")).unwrap();
    assert_eq!(t.render(), "-2147483648");
}

#[test]
fn test_render_equal_precedence_never_parenthesized() {
    // the printer compares precedence only, not associativity: both trees
    // print alike even though only the left-nested one is left-associated
    let left_nested = ExprTree::parse(Order::Pre, to_expr("- - 3 4 5")).unwrap();
    assert_eq!(left_nested.render(), "3 - 4 - 5");

    let right_nested = ExprTree::parse(Order::Pre, to_expr("- 3 - 4 5")).unwrap();
    assert_eq!(right_nested.render(), "3 - 4 - 5");
}

#[test]
fn test_render_deterministic() {
    let t = ExprTree::parse(Order::Post, to_expr("3 4 - 5 - 6 -")).unwrap();
    let first = t.render();
    let second = t.render();
    assert_eq!(first, second);
    assert_eq!(first, "3 - 4 - 5 - 6");
}

#[test]
fn test_is_wf_on_built_trees() {
    let t = ExprTree::parse(Order::Post, to_expr("2 0 /")).unwrap();
    assert!(t.is_wf());
    assert!(ExprTree::Num(7).is_wf());
    let bad = ExprTree::Tree(
        '%',
        Box::new(ExprTree::Num(1)),
        Box::new(ExprTree::Num(2)),
    );
    assert!(!bad.is_wf());
}
