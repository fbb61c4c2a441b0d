use expr_eval::driver::{Program, ProgramAction, ProgramError};
use expr_eval::eval::{eval, EvalError, Expr, Order};
use expr_eval::token::{classify_token, parse_int_token, TokenKind};

fn to_expr(expr: &str) -> Expr {
    expr.split_whitespace().map(|s| s.to_string()).collect::<Vec<String>>()
}

#[test]
fn test_parse_int_token_bounds() {
    assert_eq!(parse_int_token("2147483647"), Some(i32::MAX));
    assert_eq!(parse_int_token("2147483648"), None);
    assert_eq!(parse_int_token("-2147483648"), Some(i32::MIN));
    assert_eq!(parse_int_token("-2147483649"), None);
    assert_eq!(parse_int_token("99999999999999999999999"), None);
}

#[test]
fn test_parse_int_token_shapes() {
    assert_eq!(parse_int_token("0"), Some(0));
    assert_eq!(parse_int_token("-0"), Some(0));
    assert_eq!(parse_int_token("007"), Some(7));
    assert_eq!(parse_int_token(""), None);
    assert_eq!(parse_int_token("-"), None);
    assert_eq!(parse_int_token("+5"), None);
    assert_eq!(parse_int_token("12a"), None);
    assert_eq!(parse_int_token("1 2"), None);
    assert_eq!(parse_int_token("1.5"), None);
}

#[test]
fn test_classify_token_lone_minus_is_operator() {
    assert_eq!(classify_token("-"), TokenKind::Op('-'));
    assert_eq!(classify_token("-5"), TokenKind::Int(-5));
    assert_eq!(classify_token("%"), TokenKind::Bad);
}

#[test]
fn test_eval_truncating_division() {
    // integer division truncates toward zero
    assert_eq!(eval(&Order::Post, to_expr("2 3 /")), Ok(0));
    assert_eq!(eval(&Order::Post, to_expr("7 -2 /")), Ok(-3));
    assert_eq!(eval(&Order::Pre, to_expr("/ -7 2")), Ok(-3));
}

#[test]
fn test_eval_wrapping_arithmetic() {
    assert_eq!(eval(&Order::Post, to_expr("2147483647 1 +")), Ok(i32::MIN));
    assert_eq!(eval(&Order::Post, to_expr("-2147483648 -1 /")), Ok(i32::MIN));
    assert_eq!(eval(&Order::Post, to_expr("-2147483648 1 -")), Ok(i32::MAX));
}

#[test]
fn test_eval_rejects_oversized_literal() {
    assert_eq!(
        eval(&Order::Post, to_expr("2147483648")),
        Err(EvalError::InvalidSymbol(String::from("2147483648")))
    );
}

#[test]
fn test_eval_rejects_leading_plus_literal() {
    assert_eq!(
        eval(&Order::Post, to_expr("2 +3 +")),
        Err(EvalError::InvalidSymbol(String::from("+3")))
    );
}

#[test]
fn test_program_exit_flag() {
    let mut program = Program::new();
    assert!(!program.exit());
    program.request_exit();
    assert!(program.exit());
}

#[test]
fn test_parse_order_words() {
    assert_eq!(Program::parse_order(Some("pre")), Some(Order::Pre));
    assert_eq!(Program::parse_order(Some("post")), Some(Order::Post));
    assert_eq!(Program::parse_order(Some("sideways")), None);
    assert_eq!(Program::parse_order(None), None);
}

#[test]
fn test_parse_command_actions() {
    assert_eq!(Program::parse(to_expr("salir")), Ok(ProgramAction::Exit));
    assert_eq!(Program::parse(to_expr("salir extra")), Ok(ProgramAction::Exit));
    assert_eq!(
        Program::parse(to_expr("eval pre 1 2 +")),
        Ok(ProgramAction::Eval(Order::Pre, to_expr("1 2 +")))
    );
    assert_eq!(
        Program::parse(to_expr("mostrar post 1 2 +")),
        Ok(ProgramAction::Show(Order::Post, to_expr("1 2 +")))
    );
}

#[test]
fn test_parse_command_errors() {
    assert_eq!(Program::parse(to_expr("")), Err(ProgramError::NotEnoughActionArgs));
    assert_eq!(Program::parse(to_expr("hola")), Err(ProgramError::InvalidAction));
    assert_eq!(Program::parse(to_expr("eval")), Err(ProgramError::InvalidActionArgument));
    assert_eq!(
        Program::parse(to_expr("eval sideways 1")),
        Err(ProgramError::InvalidActionArgument)
    );
    assert_eq!(Program::parse(to_expr("mostrar")), Err(ProgramError::InvalidActionArgument));
}
