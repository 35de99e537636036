//! The interactive session: the decision core of the read-eval-print loop.
//! The session owns the persisted variable environment; `step_line` takes
//! one line of input and says what happened — the caller does the reading
//! and the printing. A line reading `exit` ends the session; a line with an
//! `=` is one assignment; a line of name characters is a variable lookup,
//! whose failure is a lookup failure and never a parse error; anything else
//! is a standalone expression.

use vstd::prelude::*;
use vstd::string::StringExecFns;
use crate::ast::{parse_assign_spec, parse_expr_spec, Parser};
use crate::error::{EvalErrV, EvalError, LexErrV, LexerError, ParseErrV, ParsingError};
use crate::eval::{eval_assign, eval_expr, eval_expr_spec, Env};
use crate::lexer::{lex_all, strip_blanks, tokenize, Token};
use crate::number::Rational;
use crate::text::{alphabetic_char, is_alphabetic_char, str_eqs};

verus! {

/// Mathematical value of a `LineOutcome`.
pub ghost enum OutcomeV {
    /// The session was asked to end.
    Exit,
    /// The line does not lex.
    LexerFailed(LexErrV),
    /// The line does not parse.
    ParseFailed(ParseErrV),
    /// The line does not evaluate.
    EvalFailed(EvalErrV),
    /// An assignment ran: the name now holds the value.
    Assigned(Seq<char>, Rational),
    /// A lookup or an expression produced a value.
    Value(Rational),
}

/// What one line of input did to the session.
#[derive(Debug)]
pub enum LineOutcome {
    /// The session was asked to end.
    Exit,
    /// The line does not lex.
    LexerFailed(LexerError),
    /// The line does not parse.
    ParseFailed(ParsingError),
    /// The line does not evaluate.
    EvalFailed(EvalError),
    /// An assignment ran: the name now holds the value.
    Assigned(String, Rational),
    /// A lookup or an expression produced a value.
    Value(Rational),
}

impl View for LineOutcome {
    type V = OutcomeV;

    open spec fn view(&self) -> OutcomeV {
        match self {
            LineOutcome::Exit => OutcomeV::Exit,
            LineOutcome::LexerFailed(e) => OutcomeV::LexerFailed(e@),
            LineOutcome::ParseFailed(e) => OutcomeV::ParseFailed(e@),
            LineOutcome::EvalFailed(e) => OutcomeV::EvalFailed(e@),
            LineOutcome::Assigned(n, v) => OutcomeV::Assigned(n@, *v),
            LineOutcome::Value(v) => OutcomeV::Value(*v),
        }
    }
}

/// Whether some character of `s` is `c`.
pub open spec fn has_char(s: Seq<char>, c: char) -> bool {
    exists|i: int| 0 <= i < s.len() && s[i] == c
}

/// Whether every character of `s` could stand in a variable name looked up
/// bare: alphabetic or `_`.
pub open spec fn lookup_name(s: Seq<char>) -> bool {
    forall|i: int| 0 <= i < s.len() ==> alphabetic_char(#[trigger] s[i]) || s[i] == '_'
}

/// What one step of the session does: the outcome of the line, and the
/// environment afterwards (only an assignment changes it).
pub ghost struct StepV {
    pub out: OutcomeV,
    pub env2: Map<Seq<char>, Rational>,
}

/// The session's step function over one line against the environment.
pub open spec fn step_line_spec(line: Seq<char>, env: Map<Seq<char>, Rational>) -> StepV {
    if line == "exit"@ {
        StepV { out: OutcomeV::Exit, env2: env }
    } else {
        match lex_all(strip_blanks(line), 0, 0) {
            Err(e) => StepV { out: OutcomeV::LexerFailed(e), env2: env },
            Ok(toks) => {
                if has_char(line, '=') {
                    let a = parse_assign_spec(toks, 0);
                    match a.res {
                        Err(e) => StepV { out: OutcomeV::ParseFailed(e), env2: env },
                        Ok(av) => match eval_expr_spec(av.value, env) {
                            Err(e) => StepV { out: OutcomeV::EvalFailed(e), env2: env },
                            Ok(v) => StepV {
                                out: OutcomeV::Assigned(av.name, v),
                                env2: env.insert(av.name, v),
                            },
                        },
                    }
                } else if lookup_name(line) {
                    if env.contains_key(line) {
                        StepV { out: OutcomeV::Value(env[line]), env2: env }
                    } else {
                        StepV {
                            out: OutcomeV::EvalFailed(EvalErrV::VariableDoesNotExists(line)),
                            env2: env,
                        }
                    }
                } else {
                    let p = parse_expr_spec(toks, 0, 0);
                    match p.res {
                        Err(e) => StepV { out: OutcomeV::ParseFailed(e), env2: env },
                        Ok(ev) => match eval_expr_spec(ev, env) {
                            Err(e) => StepV { out: OutcomeV::EvalFailed(e), env2: env },
                            Ok(v) => StepV { out: OutcomeV::Value(v), env2: env },
                        },
                    }
                }
            },
        }
    }
}

/// Whether `s` holds the character `c` anywhere.
fn contains_char(s: &str, c: char) -> (r: bool)
    ensures
        r == has_char(s@, c),
{
    let n = s.unicode_len();
    let mut i: usize = 0;
    while i < n
        invariant
            n == s@.len(),
            i <= n,
            forall|j: int| 0 <= j < i ==> s@[j] != c,
        decreases n - i,
    {
        if s.get_char(i) == c {
            return true;
        }
        i += 1;
    }
    false
}

/// Whether every character of `s` is alphabetic or `_`.
fn all_name_chars(s: &str) -> (r: bool)
    ensures
        r == lookup_name(s@),
{
    let n = s.unicode_len();
    let mut i: usize = 0;
    while i < n
        invariant
            n == s@.len(),
            i <= n,
            forall|j: int| 0 <= j < i ==> alphabetic_char(#[trigger] s@[j]) || s@[j] == '_',
        decreases n - i,
    {
        let c = s.get_char(i);
        if !is_alphabetic_char(c) && c != '_' {
            return false;
        }
        i += 1;
    }
    true
}

/// An interactive session: the variable environment that persists from one
/// line to the next.
pub struct REPL {
    vars: Env,
}

impl View for REPL {
    type V = Map<Seq<char>, Rational>;

    closed spec fn view(&self) -> Map<Seq<char>, Rational> {
        self.vars@
    }
}

impl REPL {
    /// Makes a session with no variables yet.
    pub fn new() -> (r: REPL)
        ensures
            r@ == Map::<Seq<char>, Rational>::empty(),
    {
        REPL { vars: Env::new() }
    }

    /// Lexes one line into tokens, stopping at the first lexical error.
    pub fn tokenize(&self, s: &str) -> (r: Result<Vec<Token>, LexerError>)
        ensures
            (match r {
                Ok(v) => lex_all(strip_blanks(s@), 0, 0) == Ok::<_, LexErrV>(
                    crate::lexer::token_views(v@),
                ),
                Err(e) => lex_all(strip_blanks(s@), 0, 0) == Err::<Seq<crate::lexer::TokenV>, _>(
                    e@,
                ),
            }),
    {
        tokenize(s)
    }

    /// Runs one line of input, exactly as `step_line_spec` describes: the
    /// outcome says what happened, and only a successful assignment changes
    /// the session's variables.
    pub fn step_line(&mut self, line: &str) -> (r: LineOutcome)
        ensures
            r@ == step_line_spec(line@, old(self)@).out,
            final(self)@ == step_line_spec(line@, old(self)@).env2,
    {
        if str_eqs(line, "exit") {
            return LineOutcome::Exit;
        }
        let toks = match tokenize(line) {
            Ok(t) => t,
            Err(e) => {
                return LineOutcome::LexerFailed(e);
            },
        };
        if contains_char(line, '=') {
            let mut parser = Parser::new(toks);
            match parser.parse_assign() {
                Err(e) => LineOutcome::ParseFailed(e),
                Ok(a) => match eval_assign(&a, &self.vars) {
                    Err(e) => LineOutcome::EvalFailed(e),
                    Ok(p) => {
                        let shown = p.0.clone();
                        let value = p.1;
                        self.vars.insert(p.0, p.1);
                        LineOutcome::Assigned(shown, value)
                    },
                },
            }
        } else if all_name_chars(line) {
            match self.vars.get(line) {
                Some(v) => LineOutcome::Value(v),
                None => LineOutcome::EvalFailed(
                    EvalError::VariableDoesNotExists(String::from_str(line)),
                ),
            }
        } else {
            let mut parser = Parser::new(toks);
            match parser.parse_expr_pratt(0) {
                Err(e) => LineOutcome::ParseFailed(e),
                Ok(expr) => match eval_expr(&expr, &self.vars) {
                    Err(e) => LineOutcome::EvalFailed(e),
                    Ok(v) => LineOutcome::Value(v),
                },
            }
        }
    }
}

} // verus!
