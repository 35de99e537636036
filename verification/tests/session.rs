use simple_math::error::{EvalError, LexerError, ParsingError};
use simple_math::lexer::TokenType;
use simple_math::number::Rational;
use simple_math::repl::{LineOutcome, REPL};

fn rat(num: i64, den: i64) -> Rational {
    Rational { num, den }
}

#[test]
fn a_session_keeps_its_variables_between_lines() {
    let mut s = REPL::new();
    match s.step_line("a = 2") {
        LineOutcome::Assigned(name, v) => {
            assert_eq!(name, "a");
            assert_eq!(v, rat(2, 1));
        },
        other => panic!("expected an assignment, got {:?}", other),
    }
    assert!(matches!(s.step_line("a"), LineOutcome::Value(v) if v == rat(2, 1)));
    assert!(matches!(s.step_line("a * 3"), LineOutcome::Value(v) if v == rat(6, 1)));
}

#[test]
fn a_bare_undefined_identifier_is_a_lookup_failure_not_a_parse_error() {
    let mut s = REPL::new();
    match s.step_line("qq") {
        LineOutcome::EvalFailed(EvalError::VariableDoesNotExists(name)) => {
            assert_eq!(name, "qq");
        },
        other => panic!("expected a variable-lookup failure, got {:?}", other),
    }
}

#[test]
fn the_exit_line_ends_the_session() {
    let mut s = REPL::new();
    assert!(matches!(s.step_line("exit"), LineOutcome::Exit));
}

#[test]
fn a_failing_line_leaves_earlier_state_intact() {
    let mut s = REPL::new();
    assert!(matches!(s.step_line("a = 2"), LineOutcome::Assigned(_, _)));
    assert!(matches!(
        s.step_line("3.1.4"),
        LineOutcome::LexerFailed(LexerError::InvalidNumber(_))
    ));
    assert!(matches!(
        s.step_line("a = = 1"),
        LineOutcome::ParseFailed(_)
    ));
    assert!(matches!(
        s.step_line("b + 1"),
        LineOutcome::EvalFailed(EvalError::VariableDoesNotExists(_))
    ));
    // the earlier binding is still there
    assert!(matches!(s.step_line("a"), LineOutcome::Value(v) if v == rat(2, 1)));
}

#[test]
fn a_line_with_an_equals_sign_is_one_assignment() {
    let mut s = REPL::new();
    assert!(matches!(
        s.step_line("= 1"),
        LineOutcome::ParseFailed(ParsingError::Expected(_, _))
    ));
    match s.step_line("x = 1 + 2 * 3") {
        LineOutcome::Assigned(name, v) => {
            assert_eq!(name, "x");
            assert_eq!(v, rat(7, 1));
        },
        other => panic!("expected an assignment, got {:?}", other),
    }
}

#[test]
fn the_session_lexes_lines_like_the_lexer() {
    let s = REPL::new();
    let toks = s.tokenize("1+2").unwrap();
    assert_eq!(toks.len(), 3);
    assert_eq!(toks[1].token_type, TokenType::Op("+".to_string()));
    assert!(s.tokenize("#").is_err());
}

#[test]
fn token_kinds_describe_themselves() {
    assert_eq!(TokenType::EndExpr.describe(), "end of statement");
    assert_eq!(TokenType::Op("*".to_string()).describe(), "operator '*'");
    assert_eq!(TokenType::Ident("ab".to_string()).describe(), "identifier 'ab'");
    assert_eq!(TokenType::Assign.describe(), "'='");
}

#[test]
fn an_empty_line_is_an_empty_variable_lookup() {
    let mut s = REPL::new();
    assert!(matches!(
        s.step_line(""),
        LineOutcome::EvalFailed(EvalError::VariableDoesNotExists(n)) if n.is_empty()
    ));
}
