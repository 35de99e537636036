use simple_math::ast::{Assign, Expression, Parser};
use simple_math::error::ParsingError;
use simple_math::lexer::tokenize;
use simple_math::number::Rational;

fn parse_expr_src(src: &str) -> Result<Expression, ParsingError> {
    let toks = tokenize(src).unwrap();
    let mut p = Parser::new(toks);
    p.parse_expr_pratt(0)
}

fn parse_assign_src(src: &str) -> Result<Assign, ParsingError> {
    let toks = tokenize(src).unwrap();
    let mut p = Parser::new(toks);
    p.parse_assign()
}

fn expect_var(e: &Expression, name: &str) {
    match e {
        Expression::Var(n) => assert_eq!(n, name),
        other => panic!("expected a variable, got {:?}", other),
    }
}

fn expect_num(e: &Expression, num: i64, den: i64) {
    match e {
        Expression::Num(r) => assert_eq!(*r, Rational { num, den }),
        other => panic!("expected a number, got {:?}", other),
    }
}

#[test]
fn a_binary_form_keeps_operator_and_operand_order() {
    // the structural round trip: `x + 1` parses to exactly (+ x 1)
    match parse_expr_src("x+1").unwrap() {
        Expression::Operation(op, args) => {
            assert_eq!(op, "+");
            assert_eq!(args.len(), 2);
            expect_var(&args[0], "x");
            expect_num(&args[1], 1, 1);
        },
        other => panic!("expected an operation, got {:?}", other),
    }
}

#[test]
fn multiplication_binds_tighter_than_addition() {
    // `1 + 2 * 3` parses as (+ 1 (* 2 3))
    match parse_expr_src("1+2*3").unwrap() {
        Expression::Operation(plus, args) => {
            assert_eq!(plus, "+");
            expect_num(&args[0], 1, 1);
            match &args[1] {
                Expression::Operation(times, inner) => {
                    assert_eq!(times, "*");
                    expect_num(&inner[0], 2, 1);
                    expect_num(&inner[1], 3, 1);
                },
                other => panic!("expected a product, got {:?}", other),
            }
        },
        other => panic!("expected an operation, got {:?}", other),
    }
}

#[test]
fn same_tier_chains_nest_to_the_left() {
    // `10 - 2 - 3` parses as (- (- 10 2) 3)
    match parse_expr_src("10-2-3").unwrap() {
        Expression::Operation(outer, args) => {
            assert_eq!(outer, "-");
            expect_num(&args[1], 3, 1);
            match &args[0] {
                Expression::Operation(inner_op, inner) => {
                    assert_eq!(inner_op, "-");
                    expect_num(&inner[0], 10, 1);
                    expect_num(&inner[1], 2, 1);
                },
                other => panic!("expected a nested difference, got {:?}", other),
            }
        },
        other => panic!("expected an operation, got {:?}", other),
    }
}

#[test]
fn parentheses_are_kept_as_their_own_node() {
    match parse_expr_src("(1)").unwrap() {
        Expression::Parenthed(inner) => expect_num(&inner, 1, 1),
        other => panic!("expected a parenthesized node, got {:?}", other),
    }
}

#[test]
fn a_prefix_minus_takes_only_its_operand() {
    // `-2 + 3` parses as (+ (- 2) 3)
    match parse_expr_src("-2+3").unwrap() {
        Expression::Operation(plus, args) => {
            assert_eq!(plus, "+");
            expect_num(&args[1], 3, 1);
            match &args[0] {
                Expression::Operation(minus, inner) => {
                    assert_eq!(minus, "-");
                    assert_eq!(inner.len(), 1);
                    expect_num(&inner[0], 2, 1);
                },
                other => panic!("expected a negation, got {:?}", other),
            }
        },
        other => panic!("expected an operation, got {:?}", other),
    }
}

#[test]
fn an_assignment_is_a_name_and_its_expression() {
    let Assign(name, value) = parse_assign_src("a = 1 + 2").unwrap();
    assert_eq!(name, "a");
    assert!(matches!(value, Expression::Operation(_, _)));
}

#[test]
fn empty_input_is_an_unexpected_end() {
    assert!(matches!(parse_expr_src(""), Err(ParsingError::UnexpectedEof)));
}

#[test]
fn a_missing_equals_sign_is_an_invalid_assignment() {
    assert!(matches!(
        parse_assign_src("a 1"),
        Err(ParsingError::InvalidAssignment)
    ));
}

#[test]
fn a_statement_must_start_with_an_identifier() {
    match parse_assign_src("1 = 2") {
        Err(ParsingError::Expected(exp, found)) => {
            assert_eq!(exp, "any identifier");
            assert_eq!(found, "a number");
        },
        other => panic!("expected an expected-identifier error, got {:?}", other),
    }
}

#[test]
fn an_unclosed_parenthesis_names_what_was_missing() {
    match parse_expr_src("(1") {
        Err(ParsingError::Expected(exp, found)) => {
            assert_eq!(exp, "')'");
            assert_eq!(found, "end of input");
        },
        other => panic!("expected a missing-parenthesis error, got {:?}", other),
    }
}

#[test]
fn a_value_after_a_closed_group_wants_an_operator() {
    match parse_expr_src("(1)2") {
        Err(ParsingError::InvalidExpression(msg)) => {
            assert_eq!(msg, "expecting an operator, but found: a number");
        },
        other => panic!("expected an operator-expected error, got {:?}", other),
    }
}

#[test]
fn a_leading_binary_operator_is_rejected() {
    match parse_expr_src("*1") {
        Err(ParsingError::InvalidExpression(msg)) => {
            assert_eq!(msg, "unexpected token: operator '*'");
        },
        other => panic!("expected an invalid-expression error, got {:?}", other),
    }
}

#[test]
fn a_program_statement_must_end_with_a_statement_end() {
    let toks = tokenize("a = 1)b").unwrap();
    let mut p = Parser::new(toks);
    match p.parse_program() {
        Err(ParsingError::Expected(exp, found)) => {
            assert_eq!(exp, "end of statement");
            assert_eq!(found, "')'");
        },
        other => panic!("expected an expected-statement-end error, got {:?}", other),
    }
}

#[test]
fn a_program_collects_assignments_in_source_order() {
    let toks = tokenize("a = 1\n\nb = 2\n").unwrap();
    let mut p = Parser::new(toks);
    let prog = p.parse_program().unwrap();
    assert_eq!(prog.body.len(), 2);
    assert_eq!(prog.body[0].0, "a");
    assert_eq!(prog.body[1].0, "b");
}

#[test]
fn parsing_error_messages_render() {
    assert_eq!(
        ParsingError::InvalidAssignment.message(),
        "invalid assignment"
    );
    assert_eq!(
        ParsingError::UnexpectedEof.message(),
        "unexpected end of file"
    );
    assert_eq!(
        ParsingError::Expected("')'".to_string(), "a number".to_string()).message(),
        "expected ')', but found a number"
    );
}

#[test]
fn expressions_render_in_prefix_form() {
    let e = parse_expr_src("x + (2 * 3.5)").unwrap();
    assert_eq!(e.render(), "(+ var 'x' ((* 2 35/10)))");
}

#[test]
fn negative_and_fractional_numbers_render() {
    assert_eq!(Rational { num: -17, den: 1 }.to_text(), "-17");
    assert_eq!(Rational { num: 314, den: 100 }.to_text(), "314/100");
    assert_eq!(Rational { num: 0, den: 1 }.to_text(), "0");
    assert_eq!(Rational { num: i64::MIN, den: 1 }.to_text(), "-9223372036854775808");
}

#[test]
fn deep_nesting_parses_and_evaluates() {
    match parse_expr_src("((((1))))").unwrap() {
        Expression::Parenthed(_) => {},
        other => panic!("expected a parenthesized node, got {:?}", other),
    }
}

#[test]
fn the_trailing_newline_is_optional_at_the_end() {
    let toks = tokenize("a = 1\nb = 2").unwrap();
    let mut p = Parser::new(toks);
    assert_eq!(p.parse_program().unwrap().body.len(), 2);
}
