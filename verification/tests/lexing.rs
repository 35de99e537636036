use simple_math::error::LexerError;
use simple_math::lexer::{
    binding_power, is_valid_unary, tokenize, unary_binding_power, Lexer, Token, TokenType,
};
use simple_math::number::Rational;

fn rat(num: i64, den: i64) -> Rational {
    Rational { num, den }
}

#[test]
fn lexes_a_plain_decimal_as_one_number_token() {
    let toks = tokenize("3.14").unwrap();
    assert_eq!(
        toks,
        vec![Token { line: 0, token_type: TokenType::Number(rat(314, 100)) }]
    );
}

#[test]
fn a_second_decimal_point_is_a_lexical_error() {
    match tokenize("3.1.4") {
        Err(LexerError::InvalidNumber(s)) => assert_eq!(s, "3.1"),
        other => panic!("expected an invalid-number error, got {:?}", other),
    }
}

#[test]
fn blanks_are_stripped_before_scanning() {
    // spaces and tabs vanish before scanning, so `1 2` is the number 12
    let toks = tokenize("1 \t2").unwrap();
    assert_eq!(
        toks,
        vec![Token { line: 0, token_type: TokenType::Number(rat(12, 1)) }]
    );
}

#[test]
fn integer_and_trailing_dot_literals() {
    let toks = tokenize("7").unwrap();
    assert_eq!(toks[0].token_type, TokenType::Number(rat(7, 1)));
    let toks = tokenize("3.").unwrap();
    assert_eq!(toks[0].token_type, TokenType::Number(rat(3, 1)));
    let toks = tokenize(".5").unwrap();
    assert_eq!(toks[0].token_type, TokenType::Number(rat(5, 10)));
}

#[test]
fn a_lone_dot_is_not_a_number() {
    match tokenize(".") {
        Err(LexerError::ParseError(raw, _)) => assert_eq!(raw, "."),
        other => panic!("expected a parse error, got {:?}", other),
    }
}

#[test]
fn a_mantissa_too_large_for_i64_is_an_error() {
    match tokenize("99999999999999999999") {
        Err(LexerError::ParseError(raw, _)) => assert_eq!(raw, "99999999999999999999"),
        other => panic!("expected a parse error, got {:?}", other),
    }
}

#[test]
fn too_many_fraction_digits_is_an_error() {
    assert!(matches!(
        tokenize("0.1234567890123456789"),
        Err(LexerError::ParseError(_, _))
    ));
}

#[test]
fn an_unrecognized_character_is_surfaced() {
    assert_eq!(tokenize("@"), Err(LexerError::UnrecognizedChar('@')));
}

#[test]
fn every_token_class_lexes() {
    let toks = tokenize("x1_y = (2+3)*4/5-6\n").unwrap();
    let kinds: Vec<TokenType> = toks.into_iter().map(|t| t.token_type).collect();
    assert_eq!(
        kinds,
        vec![
            TokenType::Ident("x1_y".to_string()),
            TokenType::Assign,
            TokenType::LParen,
            TokenType::Number(rat(2, 1)),
            TokenType::Op("+".to_string()),
            TokenType::Number(rat(3, 1)),
            TokenType::RParen,
            TokenType::Op("*".to_string()),
            TokenType::Number(rat(4, 1)),
            TokenType::Op("/".to_string()),
            TokenType::Number(rat(5, 1)),
            TokenType::Op("-".to_string()),
            TokenType::Number(rat(6, 1)),
            TokenType::EndExpr,
        ]
    );
}

#[test]
fn newlines_advance_the_line_counter() {
    let toks = tokenize("a=1\nb=2").unwrap();
    assert_eq!(toks[0].line, 0); // a
    assert_eq!(toks[2].line, 0); // 1
    assert_eq!(toks[3].line, 1); // the statement end is stamped with the new line
    assert_eq!(toks[4].line, 1); // b
    assert_eq!(toks[6].line, 1); // 2
}

#[test]
fn the_lexer_hands_out_one_token_per_call() {
    let mut lx = Lexer::new("a=1");
    assert_eq!(
        lx.next(),
        Some(Ok(Token { line: 0, token_type: TokenType::Ident("a".to_string()) }))
    );
    assert_eq!(
        lx.next(),
        Some(Ok(Token { line: 0, token_type: TokenType::Assign }))
    );
    assert_eq!(
        lx.next(),
        Some(Ok(Token { line: 0, token_type: TokenType::Number(rat(1, 1)) }))
    );
    assert_eq!(lx.next(), None);
}

#[test]
fn binding_powers_have_two_tiers_and_a_fallback() {
    assert_eq!(binding_power("+"), (10, 11));
    assert_eq!(binding_power("-"), (10, 11));
    assert_eq!(binding_power("*"), (20, 21));
    assert_eq!(binding_power("/"), (20, 21));
    assert_eq!(binding_power("%"), (30, 31));
}

#[test]
fn unary_operators_are_plus_minus_bang() {
    assert!(is_valid_unary("+"));
    assert!(is_valid_unary("-"));
    assert!(is_valid_unary("!"));
    assert!(!is_valid_unary("*"));
    assert!(!is_valid_unary("/"));
    assert_eq!(unary_binding_power("-"), (30, 31));
}

#[test]
fn lexer_error_messages_render() {
    assert_eq!(
        LexerError::UnrecognizedChar('@').message(),
        "couldn't recognize character '@'"
    );
    assert_eq!(
        LexerError::InvalidNumber("3.1".to_string()).message(),
        "invalid number '3.1' has more than one decimal point"
    );
}
