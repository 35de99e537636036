//! The evaluator: walks a program's assignments in order against an
//! accumulating variable environment and produces the program's value. The
//! spec-level model is `eval_expr_spec` / `eval_op_spec` (one expression),
//! and `run_program_spec` / `eval_program_spec` (a whole program); the
//! executable evaluator follows the model exactly, value for value and error
//! for error. Nothing here panics on malformed input: a wrong operand count,
//! an unknown operator, an undefined variable, a zero divisor and an
//! overflowing result are all ordinary errors.

use vstd::prelude::*;
use vstd::string::StringExecFns;
use crate::ast::{
    exprs_view, expr_view, exprv_list_size, exprv_size, lemma_exprs_view_index,
    lemma_exprv_list_size_ge, Assign, ExprV, Expression, Program,
};
use crate::error::{EvalErrV, EvalError};
use crate::number::{rat_add, rat_div, rat_fits, rat_mul, rat_neg, rat_sub, RatV, Rational};
use crate::text::str_eqs;

verus! {

// ===================================
// The variable environment
// ===================================
/// The mapping a sequence of bindings denotes: later bindings win.
pub open spec fn map_of(entries: Seq<(String, Rational)>) -> Map<Seq<char>, Rational>
    decreases entries.len(),
{
    if entries.len() == 0 {
        Map::empty()
    } else {
        map_of(entries.drop_last()).insert(entries.last().0@, entries.last().1)
    }
}

/// The variable environment: each name's last-assigned value.
pub struct Env {
    entries: Vec<(String, Rational)>,
}

impl View for Env {
    type V = Map<Seq<char>, Rational>;

    closed spec fn view(&self) -> Map<Seq<char>, Rational> {
        map_of(self.entries@)
    }
}

impl Env {
    /// Makes an empty environment.
    pub fn new() -> (r: Env)
        ensures
            r@ == Map::<Seq<char>, Rational>::empty(),
    {
        Env { entries: Vec::new() }
    }

    /// Binds `name` to `value`, overwriting any earlier binding.
    pub fn insert(&mut self, name: String, value: Rational)
        ensures
            final(self)@ == old(self)@.insert(name@, value),
    {
        let ghost prev = self.entries@;
        self.entries.push((name, value));
        proof {
            assert(self.entries@.drop_last() =~= prev);
        }
    }

    /// Looks a name up: its last-assigned value, or `None` when it was never
    /// assigned.
    pub fn get(&self, name: &str) -> (r: Option<Rational>)
        ensures
            (match r {
                Some(v) => self@.contains_key(name@) && self@[name@] == v,
                None => !self@.contains_key(name@),
            }),
    {
        let mut found: Option<Rational> = None;
        let mut i: usize = 0;
        while i < self.entries.len()
            invariant
                i <= self.entries@.len(),
                (match found {
                    Some(v) => map_of(self.entries@.take(i as int)).contains_key(name@) && map_of(
                        self.entries@.take(i as int),
                    )[name@] == v,
                    None => !map_of(self.entries@.take(i as int)).contains_key(name@),
                }),
            decreases self.entries@.len() - i,
        {
            proof {
                assert(self.entries@.take(i + 1).drop_last() =~= self.entries@.take(i as int));
                assert(self.entries@.take(i + 1).last() == self.entries@[i as int]);
            }
            let e = &self.entries[i];
            if str_eqs(e.0.as_str(), name) {
                found = Some(e.1);
            }
            i += 1;
        }
        proof {
            assert(self.entries@.take(self.entries@.len() as int) =~= self.entries@);
        }
        found
    }
}

// ===================================
// The spec-level evaluator
// ===================================
/// Packs an exact result back into a `Rational`, or reports that it does not
/// fit.
pub open spec fn fit(v: RatV) -> Result<Rational, EvalErrV> {
    if rat_fits(v) {
        Ok(Rational { num: v.num as i64, den: v.den as i64 })
    } else {
        Err(EvalErrV::ValueOutOfRange)
    }
}

/// Evaluates one expression against an environment: a variable reads its
/// binding (absent means `VariableDoesNotExists`), a literal is its value, a
/// parenthesized node is its inner node, and an operation is `eval_op_spec`.
pub open spec fn eval_expr_spec(e: ExprV, env: Map<Seq<char>, Rational>) -> Result<
    Rational,
    EvalErrV,
>
    decreases e, 0int,
{
    match e {
        ExprV::Var(name) => if env.contains_key(name) {
            Ok(env[name])
        } else {
            Err(EvalErrV::VariableDoesNotExists(name))
        },
        ExprV::Num(n) => Ok(n),
        ExprV::Parenthed(b) => eval_expr_spec(*b, env),
        ExprV::Operation(op, args) => eval_op_spec(op, args, env),
    }
}

/// Evaluates one operation: `+` and `-` take one operand (identity and
/// negation) or two (sum and difference), `*` and `/` take exactly two; a
/// division whose divisor evaluates to zero is `ZeroDivisor`, checked before
/// the division; every other operand count is `InvalidSizeOfArgsFor`, every
/// other operator `UnexpectedOperator`, and an exact result that does not
/// fit back into `i64` fields is `ValueOutOfRange`.
pub open spec fn eval_op_spec(
    op: Seq<char>,
    args: Seq<ExprV>,
    env: Map<Seq<char>, Rational>,
) -> Result<Rational, EvalErrV>
    decreases args, 1int,
{
    if op == "+"@ {
        if args.len() == 1 {
            eval_expr_spec(args[0], env)
        } else if args.len() == 2 {
            match eval_expr_spec(args[0], env) {
                Err(e) => Err(e),
                Ok(a) => match eval_expr_spec(args[1], env) {
                    Err(e) => Err(e),
                    Ok(b) => fit(rat_add(a@, b@)),
                },
            }
        } else {
            Err(EvalErrV::InvalidSizeOfArgsFor("+"@))
        }
    } else if op == "-"@ {
        if args.len() == 1 {
            match eval_expr_spec(args[0], env) {
                Err(e) => Err(e),
                Ok(a) => fit(rat_neg(a@)),
            }
        } else if args.len() == 2 {
            match eval_expr_spec(args[0], env) {
                Err(e) => Err(e),
                Ok(a) => match eval_expr_spec(args[1], env) {
                    Err(e) => Err(e),
                    Ok(b) => fit(rat_sub(a@, b@)),
                },
            }
        } else {
            Err(EvalErrV::InvalidSizeOfArgsFor("-"@))
        }
    } else if op == "*"@ {
        if args.len() == 2 {
            match eval_expr_spec(args[0], env) {
                Err(e) => Err(e),
                Ok(a) => match eval_expr_spec(args[1], env) {
                    Err(e) => Err(e),
                    Ok(b) => fit(rat_mul(a@, b@)),
                },
            }
        } else {
            Err(EvalErrV::InvalidSizeOfArgsFor("*"@))
        }
    } else if op == "/"@ {
        if args.len() == 2 {
            match eval_expr_spec(args[1], env) {
                Ok(d) => if d@.num == 0 {
                    Err(EvalErrV::ZeroDivisor)
                } else {
                    match eval_expr_spec(args[0], env) {
                        Err(e) => Err(e),
                        Ok(n) => fit(rat_div(n@, d@)),
                    }
                },
                Err(de) => match eval_expr_spec(args[0], env) {
                    Err(e) => Err(e),
                    Ok(_) => Err(de),
                },
            }
        } else {
            Err(EvalErrV::InvalidSizeOfArgsFor("/"@))
        }
    } else {
        Err(EvalErrV::UnexpectedOperator(op))
    }
}

/// Runs assignments in order: each value is bound to its name in the
/// environment, and the last value is remembered; the first error stops the
/// run.
pub open spec fn run_program_spec(
    assigns: Seq<crate::ast::AssignV>,
    env: Map<Seq<char>, Rational>,
    last: Option<Rational>,
) -> Result<(Map<Seq<char>, Rational>, Option<Rational>), EvalErrV>
    decreases assigns.len(),
{
    if assigns.len() == 0 {
        Ok((env, last))
    } else {
        match eval_expr_spec(assigns[0].value, env) {
            Err(e) => Err(e),
            Ok(v) => run_program_spec(
                assigns.subrange(1, assigns.len() as int),
                env.insert(assigns[0].name, v),
                Some(v),
            ),
        }
    }
}

/// The value of a whole program: after all assignments, the final value of a
/// variable literally named `result` when one was assigned, otherwise the
/// value of the last assignment, and zero for the empty program.
pub open spec fn eval_program_spec(prog: Seq<crate::ast::AssignV>) -> Result<Rational, EvalErrV> {
    match run_program_spec(prog, Map::empty(), None) {
        Err(e) => Err(e),
        Ok((env, last)) => if env.contains_key("result"@) {
            Ok(env["result"@])
        } else {
            match last {
                Some(v) => Ok(v),
                None => Ok(Rational { num: 0, den: 1 }),
            }
        },
    }
}

// ===================================
// The executable evaluator
// ===================================
/// Result type of the evaluator.
pub type EvalResult<T> = Result<T, EvalError>;

/// Evaluates one expression against an environment, exactly as
/// `eval_expr_spec` describes.
pub fn eval_expr(e: &Expression, vars: &Env) -> (r: EvalResult<Rational>)
    ensures
        (match (r, eval_expr_spec(expr_view(*e), vars@)) {
            (Ok(v), Ok(sv)) => v == sv,
            (Err(er), Err(ev)) => er@ == ev,
            _ => false,
        }),
    decreases exprv_size(expr_view(*e)), 0int,
{
    match e {
        Expression::Var(v) => match vars.get(v.as_str()) {
            Some(i) => Ok(i),
            None => Err(EvalError::VariableDoesNotExists(v.clone())),
        },
        Expression::Num(i) => Ok(*i),
        Expression::Parenthed(f) => eval_expr(f, vars),
        Expression::Operation(op, exprs) => {
            proof {
                assert(exprv_size(expr_view(*e)) == 1 + exprv_list_size(
                    exprs_view(exprs@),
                ));
            }
            eval_operation(op, exprs, vars)
        },
    }
}

/// Evaluates one operation node, exactly as `eval_op_spec` describes.
pub fn eval_operation(op: &String, exprs: &Vec<Expression>, vars: &Env) -> (r: EvalResult<
    Rational,
>)
    ensures
        (match (r, eval_op_spec(op@, exprs_view(exprs@), vars@)) {
            (Ok(v), Ok(sv)) => v == sv,
            (Err(er), Err(ev)) => er@ == ev,
            _ => false,
        }),
    decreases exprv_list_size(exprs_view(exprs@)), 1int,
{
    let ghost argsv = exprs_view(exprs@);
    proof {
        lemma_exprs_view_index(exprs@);
        if argsv.len() > 0 {
            lemma_exprv_list_size_ge(argsv, 0);
        }
        if argsv.len() > 1 {
            lemma_exprv_list_size_ge(argsv, 1);
        }
    }
    if str_eqs(op.as_str(), "+") {
        if exprs.len() == 1 {
            eval_expr(&exprs[0], vars)
        } else if exprs.len() == 2 {
            let a = match eval_expr(&exprs[0], vars) {
                Ok(a) => a,
                Err(e) => {
                    return Err(e);
                },
            };
            let b = match eval_expr(&exprs[1], vars) {
                Ok(b) => b,
                Err(e) => {
                    return Err(e);
                },
            };
            match a.add(b) {
                Some(v) => Ok(v),
                None => Err(EvalError::ValueOutOfRange),
            }
        } else {
            Err(EvalError::InvalidSizeOfArgsFor(String::from_str("+")))
        }
    } else if str_eqs(op.as_str(), "-") {
        if exprs.len() == 1 {
            let a = match eval_expr(&exprs[0], vars) {
                Ok(a) => a,
                Err(e) => {
                    return Err(e);
                },
            };
            match a.neg() {
                Some(v) => Ok(v),
                None => Err(EvalError::ValueOutOfRange),
            }
        } else if exprs.len() == 2 {
            let a = match eval_expr(&exprs[0], vars) {
                Ok(a) => a,
                Err(e) => {
                    return Err(e);
                },
            };
            let b = match eval_expr(&exprs[1], vars) {
                Ok(b) => b,
                Err(e) => {
                    return Err(e);
                },
            };
            match a.sub(b) {
                Some(v) => Ok(v),
                None => Err(EvalError::ValueOutOfRange),
            }
        } else {
            Err(EvalError::InvalidSizeOfArgsFor(String::from_str("-")))
        }
    } else if str_eqs(op.as_str(), "*") {
        if exprs.len() == 2 {
            let a = match eval_expr(&exprs[0], vars) {
                Ok(a) => a,
                Err(e) => {
                    return Err(e);
                },
            };
            let b = match eval_expr(&exprs[1], vars) {
                Ok(b) => b,
                Err(e) => {
                    return Err(e);
                },
            };
            match a.mul(b) {
                Some(v) => Ok(v),
                None => Err(EvalError::ValueOutOfRange),
            }
        } else {
            Err(EvalError::InvalidSizeOfArgsFor(String::from_str("*")))
        }
    } else if str_eqs(op.as_str(), "/") {
        if exprs.len() == 2 {
            match eval_expr(&exprs[1], vars) {
                Ok(d) => {
                    if d.is_zero() {
                        Err(EvalError::ZeroDivisor)
                    } else {
                        let n = match eval_expr(&exprs[0], vars) {
                            Ok(n) => n,
                            Err(e) => {
                                return Err(e);
                            },
                        };
                        match n.div(d) {
                            Some(v) => Ok(v),
                            None => Err(EvalError::ValueOutOfRange),
                        }
                    }
                },
                Err(de) => match eval_expr(&exprs[0], vars) {
                    Err(e) => Err(e),
                    Ok(_) => Err(de),
                },
            }
        } else {
            Err(EvalError::InvalidSizeOfArgsFor(String::from_str("/")))
        }
    } else {
        Err(EvalError::UnexpectedOperator(op.clone()))
    }
}

/// Evaluates one assignment's right-hand side: the name it binds and the
/// value, or the evaluation error. The caller owns the environment and
/// merges the binding in.
pub fn eval_assign(a: &Assign, vars: &Env) -> (r: EvalResult<(String, Rational)>)
    ensures
        (match (r, eval_expr_spec(a@.value, vars@)) {
            (Ok(p), Ok(sv)) => p.0@ == a@.name && p.1 == sv,
            (Err(er), Err(ev)) => er@ == ev,
            _ => false,
        }),
{
    let name = a.0.clone();
    match eval_expr(&a.1, vars) {
        Ok(value) => Ok((name, value)),
        Err(e) => Err(e),
    }
}

/// Evaluates a whole program, exactly as `eval_program_spec` describes:
/// assignments run in order against the accumulating environment; the result
/// is the final value of `result` when that variable was assigned, else the
/// last assignment's value, and zero for the empty program.
#[verifier::loop_isolation(false)]
pub fn eval_program(tree: &Program) -> (r: EvalResult<Rational>)
    ensures
        (match (r, eval_program_spec(tree@)) {
            (Ok(v), Ok(sv)) => v == sv,
            (Err(er), Err(ev)) => er@ == ev,
            _ => false,
        }),
        tree@.len() == 0 ==> r == Ok::<Rational, EvalError>(Rational { num: 0, den: 1 }),
{
    let ghost prog = tree@;
    let mut vars = Env::new();
    let mut last: Option<Rational> = None;
    let mut i: usize = 0;
    proof {
        assert(prog.subrange(0, prog.len() as int) =~= prog);
    }
    while i < tree.body.len()
        invariant
            i <= tree.body@.len(),
            prog.len() == tree.body@.len(),
            run_program_spec(prog, Map::empty(), None) == run_program_spec(
                prog.subrange(i as int, prog.len() as int),
                vars@,
                last,
            ),
        decreases tree.body@.len() - i,
    {
        let ghost rest = prog.subrange(i as int, prog.len() as int);
        proof {
            assert(rest[0] == prog[i as int]);
            assert(prog[i as int] == tree.body@[i as int]@);
            assert(rest.subrange(1, rest.len() as int) =~= prog.subrange(
                i + 1,
                prog.len() as int,
            ));
        }
        let a = &tree.body[i];
        match eval_assign(a, &vars) {
            Ok(p) => {
                vars.insert(p.0, p.1);
                last = Some(p.1);
            },
            Err(e) => {
                return Err(e);
            },
        }
        i += 1;
    }
    proof {
        assert(prog.subrange(prog.len() as int, prog.len() as int) =~= Seq::<
            crate::ast::AssignV,
        >::empty());
    }
    match vars.get("result") {
        Some(a) => Ok(a),
        None => match last {
            Some(v) => Ok(v),
            None => Ok(Rational::zero()),
        },
    }
}


/// A division whose divisor evaluates to exactly zero fails with
/// `ZeroDivisor`, whatever its dividend holds: no infinite or NaN value can
/// ever arise from a division.
pub proof fn lemma_division_by_zero(args: Seq<ExprV>, env: Map<Seq<char>, Rational>)
    requires
        args.len() == 2,
        (match eval_expr_spec(args[1], env) {
            Ok(d) => d@.num == 0,
            Err(_) => false,
        }),
    ensures
        eval_op_spec("/"@, args, env) == Err::<Rational, EvalErrV>(EvalErrV::ZeroDivisor),
{
    reveal_strlit("/");
    reveal_strlit("+");
    reveal_strlit("-");
    reveal_strlit("*");
    assert("/"@[0] == '/' && "+"@[0] == '+' && "-"@[0] == '-' && "*"@[0] == '*');
    assert("/"@ != "+"@ && "/"@ != "-"@ && "/"@ != "*"@);
}


} // verus!
