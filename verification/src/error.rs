//! The three error taxonomies, one per stage of the pipeline. Every error is
//! structured: it carries the data a caller needs to reconstruct a message,
//! and `message` renders one. No stage ever panics on malformed input.

use vstd::prelude::*;
use vstd::string::StringExecFns;
use crate::text::push_char;

verus! {

// ===================================
// Lexer errors
// ===================================
/// Mathematical value of a `LexerError`.
pub ghost enum LexErrV {
    /// A numeric run with more than one decimal point; carries the run up to
    /// the offending point.
    InvalidNumber(Seq<char>),
    /// A character no token class accepts.
    UnrecognizedChar(char),
    /// A numeric run that does not denote a representable number; carries the
    /// run and the reason.
    ParseError(Seq<char>, Seq<char>),
}

/// An error found while turning source text into tokens.
#[derive(Debug, Clone, PartialEq)]
pub enum LexerError {
    /// A numeric run with more than one decimal point.
    InvalidNumber(String),
    /// A character no token class accepts.
    UnrecognizedChar(char),
    /// A numeric run that does not denote a representable number: the raw
    /// text and the reason.
    ParseError(String, String),
}

impl View for LexerError {
    type V = LexErrV;

    open spec fn view(&self) -> LexErrV {
        match self {
            LexerError::InvalidNumber(s) => LexErrV::InvalidNumber(s@),
            LexerError::UnrecognizedChar(c) => LexErrV::UnrecognizedChar(*c),
            LexerError::ParseError(v, m) => LexErrV::ParseError(v@, m@),
        }
    }
}

/// The rendering of a lexer error as text.
pub open spec fn lex_error_text(e: LexErrV) -> Seq<char> {
    match e {
        LexErrV::InvalidNumber(s) => "invalid number '"@ + s + "' has more than one decimal point"@,
        LexErrV::UnrecognizedChar(c) => "couldn't recognize character '"@.push(c) + "'"@,
        LexErrV::ParseError(v, m) => "failed analysing '"@ + v + "' - "@ + m,
    }
}

impl LexerError {
    /// Renders the error as a human-readable message.
    pub fn message(&self) -> (r: String)
        ensures
            r@ == lex_error_text(self@),
    {
        match self {
            LexerError::InvalidNumber(s) => {
                let mut out = String::from_str("invalid number '");
                out.append(s.as_str());
                out.append("' has more than one decimal point");
                out
            },
            LexerError::UnrecognizedChar(c) => {
                let mut out = String::from_str("couldn't recognize character '");
                push_char(&mut out, *c);
                out.append("'");
                out
            },
            LexerError::ParseError(v, m) => {
                let mut out = String::from_str("failed analysing '");
                out.append(v.as_str());
                out.append("' - ");
                out.append(m.as_str());
                out
            },
        }
    }
}

// ===================================
// Parsing errors
// ===================================
/// Mathematical value of a `ParsingError`.
pub ghost enum ParseErrV {
    /// A token that fits nowhere; carries a description of it.
    Unexpected(Seq<char>),
    /// A specific token was required; carries what was expected and what was
    /// found.
    Expected(Seq<char>, Seq<char>),
    /// The token stream ended where a token was required.
    UnexpectedEof,
    /// A statement that does not start `identifier =`.
    InvalidAssignment,
    /// An expression position holding something that is no expression;
    /// carries a description.
    InvalidExpression(Seq<char>),
}

/// An error found while parsing the token stream.
#[derive(Debug, Clone, PartialEq)]
pub enum ParsingError {
    /// A token that fits nowhere.
    Unexpected(String),
    /// A specific token was required: what was expected, and what was found.
    Expected(String, String),
    /// The token stream ended where a token was required.
    UnexpectedEof,
    /// A statement that does not start `identifier =`.
    InvalidAssignment,
    /// An expression position holding something that is no expression.
    InvalidExpression(String),
}

impl View for ParsingError {
    type V = ParseErrV;

    open spec fn view(&self) -> ParseErrV {
        match self {
            ParsingError::Unexpected(s) => ParseErrV::Unexpected(s@),
            ParsingError::Expected(e, f) => ParseErrV::Expected(e@, f@),
            ParsingError::UnexpectedEof => ParseErrV::UnexpectedEof,
            ParsingError::InvalidAssignment => ParseErrV::InvalidAssignment,
            ParsingError::InvalidExpression(s) => ParseErrV::InvalidExpression(s@),
        }
    }
}

/// The rendering of a parsing error as text.
pub open spec fn parse_error_text(e: ParseErrV) -> Seq<char> {
    match e {
        ParseErrV::Unexpected(s) => "unexpected - "@ + s,
        ParseErrV::Expected(exp, found) => "expected "@ + exp + ", but found "@ + found,
        ParseErrV::UnexpectedEof => "unexpected end of file"@,
        ParseErrV::InvalidAssignment => "invalid assignment"@,
        ParseErrV::InvalidExpression(s) => "invalid expression - "@ + s,
    }
}

impl ParsingError {
    /// Renders the error as a human-readable message.
    pub fn message(&self) -> (r: String)
        ensures
            r@ == parse_error_text(self@),
    {
        match self {
            ParsingError::Unexpected(s) => {
                let mut out = String::from_str("unexpected - ");
                out.append(s.as_str());
                out
            },
            ParsingError::Expected(e, f) => {
                let mut out = String::from_str("expected ");
                out.append(e.as_str());
                out.append(", but found ");
                out.append(f.as_str());
                out
            },
            ParsingError::UnexpectedEof => String::from_str("unexpected end of file"),
            ParsingError::InvalidAssignment => String::from_str("invalid assignment"),
            ParsingError::InvalidExpression(s) => {
                let mut out = String::from_str("invalid expression - ");
                out.append(s.as_str());
                out
            },
        }
    }
}

// ===================================
// Evaluation errors
// ===================================
/// Mathematical value of an `EvalError`.
pub ghost enum EvalErrV {
    /// A variable read before any assignment gave it a value; carries the
    /// name.
    VariableDoesNotExists(Seq<char>),
    /// An operation node whose operand count its operator does not take;
    /// carries the operator.
    InvalidSizeOfArgsFor(Seq<char>),
    /// An operator the evaluator does not know; carries its text.
    UnexpectedOperator(Seq<char>),
    /// A division whose divisor evaluates to exactly zero.
    ZeroDivisor,
    /// An exact result whose numerator or denominator does not fit in `i64`.
    ValueOutOfRange,
}

/// An error found while evaluating a program or an expression.
#[derive(Debug, Clone, PartialEq)]
pub enum EvalError {
    /// A variable read before any assignment gave it a value.
    VariableDoesNotExists(String),
    /// An operation node whose operand count its operator does not take.
    InvalidSizeOfArgsFor(String),
    /// An operator the evaluator does not know.
    UnexpectedOperator(String),
    /// A division whose divisor evaluates to exactly zero.
    ZeroDivisor,
    /// An exact result whose numerator or denominator does not fit in `i64`.
    ValueOutOfRange,
}

impl View for EvalError {
    type V = EvalErrV;

    open spec fn view(&self) -> EvalErrV {
        match self {
            EvalError::VariableDoesNotExists(s) => EvalErrV::VariableDoesNotExists(s@),
            EvalError::InvalidSizeOfArgsFor(s) => EvalErrV::InvalidSizeOfArgsFor(s@),
            EvalError::UnexpectedOperator(s) => EvalErrV::UnexpectedOperator(s@),
            EvalError::ZeroDivisor => EvalErrV::ZeroDivisor,
            EvalError::ValueOutOfRange => EvalErrV::ValueOutOfRange,
        }
    }
}

/// The rendering of an evaluation error as text.
pub open spec fn eval_error_text(e: EvalErrV) -> Seq<char> {
    match e {
        EvalErrV::VariableDoesNotExists(s) => "variable not defined: "@ + s,
        EvalErrV::InvalidSizeOfArgsFor(s) => "invalid size of args for "@ + s,
        EvalErrV::UnexpectedOperator(s) => "unexpected operator "@ + s,
        EvalErrV::ZeroDivisor => "dividing by zero is not allowed"@,
        EvalErrV::ValueOutOfRange => "value out of range"@,
    }
}

impl EvalError {
    /// Renders the error as a human-readable message.
    pub fn message(&self) -> (r: String)
        ensures
            r@ == eval_error_text(self@),
    {
        match self {
            EvalError::VariableDoesNotExists(s) => {
                let mut out = String::from_str("variable not defined: ");
                out.append(s.as_str());
                out
            },
            EvalError::InvalidSizeOfArgsFor(s) => {
                let mut out = String::from_str("invalid size of args for ");
                out.append(s.as_str());
                out
            },
            EvalError::UnexpectedOperator(s) => {
                let mut out = String::from_str("unexpected operator ");
                out.append(s.as_str());
                out
            },
            EvalError::ZeroDivisor => String::from_str("dividing by zero is not allowed"),
            EvalError::ValueOutOfRange => String::from_str("value out of range"),
        }
    }
}

} // verus!
