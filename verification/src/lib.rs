//! A tiny arithmetic scripting language: a lexer that turns source text into
//! tokens, a precedence-climbing (Pratt) parser that builds a program of
//! assignment statements, and an evaluator that runs the assignments in order
//! against an accumulating variable environment.
//!
//! Numbers are exact rationals (`number::Rational`), so every arithmetic
//! result is either an exact value or an explicit error; no result is ever
//! rounded, infinite or NaN.

pub mod ast;
pub mod error;
pub mod eval;
pub mod lexer;
pub mod number;
pub mod repl;
pub mod text;
