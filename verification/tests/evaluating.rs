use simple_math::ast::{Expression, Parser};
use simple_math::error::EvalError;
use simple_math::eval::{eval_assign, eval_expr, eval_operation, eval_program, Env};
use simple_math::lexer::tokenize;
use simple_math::number::Rational;

fn rat(num: i64, den: i64) -> Rational {
    Rational { num, den }
}

fn run_expr(src: &str) -> Result<Rational, EvalError> {
    let toks = tokenize(src).unwrap();
    let mut p = Parser::new(toks);
    let e = p.parse_expr_pratt(0).unwrap();
    eval_expr(&e, &Env::new())
}

fn run_program(src: &str) -> Result<Rational, EvalError> {
    let toks = tokenize(src).unwrap();
    let mut p = Parser::new(toks);
    let prog = p.parse_program().unwrap();
    eval_program(&prog)
}

#[test]
fn precedence_yields_seven_not_nine() {
    assert_eq!(run_expr("1 + 2 * 3"), Ok(rat(7, 1)));
}

#[test]
fn subtraction_is_left_associative() {
    assert_eq!(run_expr("10 - 2 - 3"), Ok(rat(5, 1)));
}

#[test]
fn parentheses_override_precedence() {
    assert_eq!(run_expr("(1 + 2) * 3"), Ok(rat(9, 1)));
}

#[test]
fn unary_minus_binds_tighter_than_any_binary_operator() {
    assert_eq!(run_expr("-2 + 3"), Ok(rat(1, 1)));
}

#[test]
fn unary_plus_is_the_identity() {
    assert_eq!(run_expr("+5"), Ok(rat(5, 1)));
}

#[test]
fn division_by_zero_is_an_error_not_a_value() {
    assert_eq!(run_expr("1 / 0"), Err(EvalError::ZeroDivisor));
}

#[test]
fn division_by_a_zero_valued_expression_is_caught() {
    assert_eq!(run_expr("1 / (2 - 2)"), Err(EvalError::ZeroDivisor));
}

#[test]
fn division_keeps_the_denominator_positive() {
    assert_eq!(run_expr("1 / -2"), Ok(rat(-1, 2)));
}

#[test]
fn results_are_exact_unreduced_rationals() {
    assert_eq!(run_expr("3.14"), Ok(rat(314, 100)));
    assert_eq!(run_expr("1 / 0.5"), Ok(rat(10, 5)));
    assert_eq!(run_expr("0.1 + 0.2"), Ok(rat(30, 100)));
}

#[test]
fn sequential_scoping_sees_earlier_assignments_only() {
    assert_eq!(run_program("a = 1\nb = a + 1\nresult = b * 2"), Ok(rat(4, 1)));
    assert_eq!(
        run_program("a = 1\nresult = b * 2\nb = a + 1"),
        Err(EvalError::VariableDoesNotExists("b".to_string()))
    );
}

#[test]
fn the_result_variable_wins_over_the_last_assignment() {
    assert_eq!(run_program("result = 7\nx = 100"), Ok(rat(7, 1)));
    assert_eq!(run_program("x = 100\ny = 3"), Ok(rat(3, 1)));
}

#[test]
fn an_empty_program_evaluates_to_zero() {
    assert_eq!(run_program(""), Ok(rat(0, 1)));
}

#[test]
fn later_assignments_overwrite_earlier_ones() {
    assert_eq!(run_program("a = 1\na = 2\nresult = a"), Ok(rat(2, 1)));
}

#[test]
fn a_wrong_operand_count_is_reported_for_each_operator() {
    let env = Env::new();
    let none: Vec<Expression> = vec![];
    assert_eq!(
        eval_operation(&"+".to_string(), &none, &env),
        Err(EvalError::InvalidSizeOfArgsFor("+".to_string()))
    );
    let one = vec![Expression::Num(rat(1, 1))];
    assert_eq!(
        eval_operation(&"*".to_string(), &one, &env),
        Err(EvalError::InvalidSizeOfArgsFor("*".to_string()))
    );
    assert_eq!(
        eval_operation(&"/".to_string(), &one, &env),
        Err(EvalError::InvalidSizeOfArgsFor("/".to_string()))
    );
    let three = vec![
        Expression::Num(rat(1, 1)),
        Expression::Num(rat(2, 1)),
        Expression::Num(rat(3, 1)),
    ];
    assert_eq!(
        eval_operation(&"-".to_string(), &three, &env),
        Err(EvalError::InvalidSizeOfArgsFor("-".to_string()))
    );
}

#[test]
fn an_unknown_operator_is_a_recoverable_error() {
    // `!` parses as a prefix operator when a token for it exists, but
    // evaluation knows no such operation
    let env = Env::new();
    let one = vec![Expression::Num(rat(5, 1))];
    assert_eq!(
        eval_operation(&"!".to_string(), &one, &env),
        Err(EvalError::UnexpectedOperator("!".to_string()))
    );
    let two = vec![Expression::Num(rat(1, 1)), Expression::Num(rat(2, 1))];
    assert_eq!(
        eval_operation(&"%".to_string(), &two, &env),
        Err(EvalError::UnexpectedOperator("%".to_string()))
    );
}

#[test]
fn a_sum_past_the_i64_range_does_not_wrap() {
    assert_eq!(
        run_expr("9223372036854775807 + 1"),
        Err(EvalError::ValueOutOfRange)
    );
}

#[test]
fn evaluating_one_assignment_leaves_the_merge_to_the_caller() {
    let toks = tokenize("a = 2 + 3").unwrap();
    let mut p = Parser::new(toks);
    let a = p.parse_assign().unwrap();
    let env = Env::new();
    assert_eq!(eval_assign(&a, &env), Ok(("a".to_string(), rat(5, 1))));
    // the environment itself is untouched
    assert_eq!(env.get("a"), None);
}

#[test]
fn the_environment_returns_the_last_binding() {
    let mut env = Env::new();
    env.insert("a".to_string(), rat(1, 1));
    env.insert("b".to_string(), rat(2, 1));
    env.insert("a".to_string(), rat(3, 1));
    assert_eq!(env.get("a"), Some(rat(3, 1)));
    assert_eq!(env.get("b"), Some(rat(2, 1)));
    assert_eq!(env.get("c"), None);
}

#[test]
fn rational_arithmetic_is_exact_and_checked() {
    assert_eq!(rat(1, 2).add(rat(1, 3)), Some(rat(5, 6)));
    assert_eq!(rat(1, 2).sub(rat(1, 3)), Some(rat(1, 6)));
    assert_eq!(rat(2, 3).mul(rat(3, 4)), Some(rat(6, 12)));
    assert_eq!(rat(1, 2).div(rat(-2, 3)), Some(rat(-3, 4)));
    assert_eq!(rat(5, 1).neg(), Some(rat(-5, 1)));
    assert_eq!(rat(i64::MAX, 1).add(rat(1, 1)), None);
    assert_eq!(Rational::zero(), rat(0, 1));
    assert_eq!(Rational::from_int(-4), rat(-4, 1));
    assert!(rat(0, 7).is_zero());
    assert!(!rat(1, 7).is_zero());
}

#[test]
fn eval_error_messages_render() {
    assert_eq!(
        EvalError::ZeroDivisor.message(),
        "dividing by zero is not allowed"
    );
    assert_eq!(
        EvalError::VariableDoesNotExists("b".to_string()).message(),
        "variable not defined: b"
    );
    assert_eq!(
        EvalError::UnexpectedOperator("%".to_string()).message(),
        "unexpected operator %"
    );
    assert_eq!(EvalError::ValueOutOfRange.message(), "value out of range");
}
