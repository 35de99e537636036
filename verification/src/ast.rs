//! The parser: a precedence-climbing (Pratt) parser from tokens to an AST of
//! assignment statements. The spec-level model is `parse_expr_spec` /
//! `parse_ops_spec` (expressions), `parse_assign_spec` (one statement) and
//! `parse_program_spec` (a whole program); the executable parser follows the
//! model exactly, token for token and error for error.

use vstd::prelude::*;
use vstd::string::StringExecFns;
use crate::error::{ParseErrV, ParsingError};
use crate::lexer::{
    binding_power, bp_pair, describe_kind, is_unary_op, is_valid_unary, token_views,
    unary_binding_power, Token, TokenKindV, TokenType, TokenV,
};
use crate::number::{rat_text, Rational};

verus! {

// ===================================
// The AST and its mathematical value
// ===================================
/// Mathematical value of an `Expression`.
pub ghost enum ExprV {
    /// A variable reference.
    Var(Seq<char>),
    /// A numeric literal.
    Num(Rational),
    /// A parenthesized sub-expression, kept distinct from its inner node.
    Parenthed(Box<ExprV>),
    /// An operator applied to one (prefix) or two (infix) operands.
    Operation(Seq<char>, Seq<ExprV>),
}

/// Mathematical value of an `Assign`: a name and the expression assigned to
/// it.
pub ghost struct AssignV {
    pub name: Seq<char>,
    pub value: ExprV,
}

/// An expression tree. The parser only builds `Operation` nodes with one
/// operand (prefix operators) or two (infix operators).
#[derive(Debug)]
pub enum Expression {
    /// A variable reference.
    Var(String),
    /// A numeric literal.
    Num(Rational),
    /// A parenthesized sub-expression, kept distinct from its inner node.
    Parenthed(Box<Expression>),
    /// An operator applied to its ordered operands.
    Operation(String, Vec<Expression>),
}

/// One statement: `name = value`.
#[derive(Debug)]
pub struct Assign(pub String, pub Expression);

/// A whole program: its assignments in source order.
#[derive(Debug)]
pub struct Program {
    pub body: Vec<Assign>,
}

/// The mathematical value of an expression tree.
pub open spec fn expr_view(e: Expression) -> ExprV
    decreases e, 0int, via expr_view_decreases
{
    match e {
        Expression::Var(s) => ExprV::Var(s@),
        Expression::Num(n) => ExprV::Num(n),
        Expression::Parenthed(b) => ExprV::Parenthed(Box::new(expr_view(*b))),
        Expression::Operation(op, args) => ExprV::Operation(op@, exprs_view(args@)),
    }
}

/// The mathematical values of a sequence of expression trees.
pub open spec fn exprs_view(s: Seq<Expression>) -> Seq<ExprV>
    decreases s, 1int,
{
    if s.len() == 0 {
        Seq::empty()
    } else {
        exprs_view(s.subrange(1, s.len() as int)).insert(0, expr_view(s[0]))
    }
}

#[via_fn]
proof fn expr_view_decreases(e: Expression) {
    match e {
        Expression::Operation(op, args) => {
            assert(decreases_to!(e => e->Operation_1));
            assert(decreases_to!(e->Operation_1 => e->Operation_1@));
            assert(e->Operation_1 == args);
        },
        _ => {},
    }
}

impl View for Expression {
    type V = ExprV;

    open spec fn view(&self) -> ExprV {
        expr_view(*self)
    }
}

impl View for Assign {
    type V = AssignV;

    open spec fn view(&self) -> AssignV {
        AssignV { name: self.0@, value: self.1@ }
    }
}

/// The mathematical value of a sequence of assignments.
pub open spec fn assign_views(s: Seq<Assign>) -> Seq<AssignV> {
    s.map_values(|a: Assign| a@)
}

impl View for Program {
    type V = Seq<AssignV>;

    open spec fn view(&self) -> Seq<AssignV> {
        assign_views(self.body@)
    }
}

/// The size of an expression value, counting every node.
pub open spec fn exprv_size(v: ExprV) -> nat
    decreases v, 0int,
{
    match v {
        ExprV::Var(_) => 1,
        ExprV::Num(_) => 1,
        ExprV::Parenthed(b) => 1 + exprv_size(*b),
        ExprV::Operation(_, args) => 1 + exprv_list_size(args),
    }
}

/// The total size of a sequence of expression values.
pub open spec fn exprv_list_size(s: Seq<ExprV>) -> nat
    decreases s, 1int,
{
    if s.len() == 0 {
        0
    } else {
        exprv_size(s[0]) + exprv_list_size(s.subrange(1, s.len() as int))
    }
}

/// Every element of a sequence weighs no more than the whole sequence.
pub proof fn lemma_exprv_list_size_ge(s: Seq<ExprV>, i: int)
    requires
        0 <= i < s.len(),
    ensures
        exprv_size(s[i]) <= exprv_list_size(s),
    decreases i,
{
    if i == 0 {
    } else {
        lemma_exprv_list_size_ge(s.subrange(1, s.len() as int), i - 1);
        assert(s.subrange(1, s.len() as int)[i - 1] == s[i]);
    }
}

/// `exprs_view` maps index for index.
pub proof fn lemma_exprs_view_index(s: Seq<Expression>)
    ensures
        exprs_view(s).len() == s.len(),
        forall|i: int| 0 <= i < s.len() ==> exprs_view(s)[i] == expr_view(#[trigger] s[i]),
    decreases s.len(),
{
    if s.len() > 0 {
        let t = s.subrange(1, s.len() as int);
        lemma_exprs_view_index(t);
        assert forall|i: int| 0 <= i < s.len() implies exprs_view(s)[i] == expr_view(
            #[trigger] s[i],
        ) by {
            if i > 0 {
                assert(t[i - 1] == s[i]);
                assert(exprs_view(s)[i] == exprs_view(t)[i - 1]);
            }
        }
    }
}

// ===================================
// The spec-level parser
// ===================================
/// What parsing an expression leaves behind: the result and the position of
/// the first unconsumed token.
pub ghost struct PRes {
    pub res: Result<ExprV, ParseErrV>,
    pub next: int,
}

/// What parsing one assignment leaves behind.
pub ghost struct ARes {
    pub res: Result<AssignV, ParseErrV>,
    pub next: int,
}

/// The text prefixed to an unexpected leading token's description.
pub open spec fn unexpected_token_text(k: TokenKindV) -> Seq<char> {
    "unexpected token: "@ + describe_kind(k)
}

/// The text prefixed to a non-operator's description where an operator was
/// required.
pub open spec fn operator_expected_text(k: TokenKindV) -> Seq<char> {
    "expecting an operator, but found: "@ + describe_kind(k)
}

/// Parses one expression at `pos` with minimum binding power `min_bp`: a
/// primary (number, variable, parenthesized expression, or prefix operator
/// applied at its right binding power), then infix operators via
/// `parse_ops_spec`.
pub open spec fn parse_expr_spec(toks: Seq<TokenV>, pos: int, min_bp: u32) -> PRes
    decreases toks.len() - pos, 1int,
{
    if pos < 0 || pos >= toks.len() {
        PRes { res: Err(ParseErrV::UnexpectedEof), next: pos }
    } else {
        let t = toks[pos];
        match t.kind {
            TokenKindV::Number(n) => parse_ops_spec(toks, pos + 1, min_bp, ExprV::Num(n)),
            TokenKindV::Ident(name) => parse_ops_spec(toks, pos + 1, min_bp, ExprV::Var(name)),
            TokenKindV::LParen => {
                let inner = parse_expr_spec(toks, pos + 1, 0);
                match inner.res {
                    Err(e) => PRes { res: Err(e), next: inner.next },
                    Ok(ie) => if inner.next < toks.len() && toks[inner.next].kind
                        is RParen {
                        if pos < inner.next + 1 <= toks.len() {
                            parse_ops_spec(
                                toks,
                                inner.next + 1,
                                min_bp,
                                ExprV::Parenthed(Box::new(ie)),
                            )
                        } else {
                            // never reached: parsing advances (`lemma_parse_expr_bounds`)
                            PRes { res: Err(ParseErrV::UnexpectedEof), next: inner.next }
                        }
                    } else if inner.next < toks.len() {
                        PRes {
                            res: Err(
                                ParseErrV::Expected("')'"@, describe_kind(toks[inner.next].kind)),
                            ),
                            next: inner.next + 1,
                        }
                    } else {
                        PRes {
                            res: Err(ParseErrV::Expected("')'"@, "end of input"@)),
                            next: inner.next,
                        }
                    },
                }
            },
            TokenKindV::Op(op) => {
                if is_unary_op(op) {
                    let rhs = parse_expr_spec(toks, pos + 1, 31);
                    match rhs.res {
                        Err(e) => PRes { res: Err(e), next: rhs.next },
                        Ok(re) => if pos < rhs.next <= toks.len() {
                            parse_ops_spec(toks, rhs.next, min_bp, ExprV::Operation(op, seq![re]))
                        } else {
                            // never reached: parsing advances (`lemma_parse_expr_bounds`)
                            PRes { res: Err(ParseErrV::UnexpectedEof), next: rhs.next }
                        },
                    }
                } else {
                    PRes {
                        res: Err(ParseErrV::InvalidExpression(unexpected_token_text(t.kind))),
                        next: pos + 1,
                    }
                }
            },
            _ => PRes {
                res: Err(ParseErrV::InvalidExpression(unexpected_token_text(t.kind))),
                next: pos + 1,
            },
        }
    }
}

/// The infix loop of the Pratt parser: folds operators onto `lhs` while their
/// left binding power reaches `min_bp`; stops at the end of the tokens, an
/// `EndExpr`, a `RParen`, or a weaker operator, which then belongs to an
/// outer call.
pub open spec fn parse_ops_spec(toks: Seq<TokenV>, pos: int, min_bp: u32, lhs: ExprV) -> PRes
    decreases toks.len() - pos, 0int,
{
    if pos < 0 || pos >= toks.len() {
        PRes { res: Ok(lhs), next: pos }
    } else {
        match toks[pos].kind {
            TokenKindV::EndExpr => PRes { res: Ok(lhs), next: pos },
            TokenKindV::RParen => PRes { res: Ok(lhs), next: pos },
            TokenKindV::Op(op) => {
                let bp = bp_pair(op);
                if bp.0 < min_bp {
                    PRes { res: Ok(lhs), next: pos }
                } else {
                    let rhs = parse_expr_spec(toks, pos + 1, bp.1);
                    match rhs.res {
                        Err(e) => PRes { res: Err(e), next: rhs.next },
                        Ok(re) => if pos < rhs.next <= toks.len() {
                            parse_ops_spec(
                                toks,
                                rhs.next,
                                min_bp,
                                ExprV::Operation(op, seq![lhs, re]),
                            )
                        } else {
                            // never reached: parsing advances (`lemma_parse_expr_bounds`)
                            PRes { res: Err(ParseErrV::UnexpectedEof), next: rhs.next }
                        },
                    }
                }
            },
            k => PRes {
                res: Err(ParseErrV::InvalidExpression(operator_expected_text(k))),
                next: pos,
            },
        }
    }
}

/// Parses one assignment at `pos`: stray `EndExpr` tokens are skipped, then
/// `identifier = expression`. A missing identifier is an `Expected` error; a
/// missing `=` is `InvalidAssignment`.
pub open spec fn parse_assign_spec(toks: Seq<TokenV>, pos: int) -> ARes
    decreases toks.len() - pos, 2int,
{
    if pos < 0 || pos >= toks.len() {
        ARes { res: Err(ParseErrV::Expected("any identifier"@, "end of input"@)), next: pos }
    } else {
        match toks[pos].kind {
            TokenKindV::Ident(name) => {
                if pos + 1 < toks.len() && toks[pos + 1].kind is Assign {
                    let e = parse_expr_spec(toks, pos + 2, 0);
                    match e.res {
                        Err(err) => ARes { res: Err(err), next: e.next },
                        Ok(ev) => ARes { res: Ok(AssignV { name, value: ev }), next: e.next },
                    }
                } else {
                    ARes { res: Err(ParseErrV::InvalidAssignment), next: pos + 1 }
                }
            },
            TokenKindV::EndExpr => parse_assign_spec(toks, pos + 1),
            k => ARes {
                res: Err(ParseErrV::Expected("any identifier"@, describe_kind(k))),
                next: pos,
            },
        }
    }
}

/// Parses a whole program at `pos`: stray `EndExpr` tokens are skipped, each
/// assignment must be followed by an `EndExpr` unless the tokens end there,
/// and the assignments are returned in source order.
pub open spec fn parse_program_spec(toks: Seq<TokenV>, pos: int) -> Result<Seq<AssignV>, ParseErrV>
    decreases toks.len() - pos, 3int,
{
    if pos < 0 || pos >= toks.len() {
        Ok(Seq::empty())
    } else if toks[pos].kind is EndExpr {
        parse_program_spec(toks, pos + 1)
    } else {
        let a = parse_assign_spec(toks, pos);
        match a.res {
            Err(e) => Err(e),
            Ok(av) => if a.next >= toks.len() {
                Ok(seq![av])
            } else if toks[a.next].kind is EndExpr {
                if pos < a.next + 1 <= toks.len() {
                    match parse_program_spec(toks, a.next + 1) {
                        Ok(rest) => Ok(seq![av] + rest),
                        Err(e) => Err(e),
                    }
                } else {
                    // never reached: parsing advances (`lemma_parse_assign_bounds`)
                    Err(ParseErrV::UnexpectedEof)
                }
            } else {
                Err(
                    ParseErrV::Expected(
                        describe_kind(TokenKindV::EndExpr),
                        describe_kind(toks[a.next].kind),
                    ),
                )
            },
        }
    }
}

// ===================================
// Facts about the spec-level parser
// ===================================
/// Parsing an expression never moves the cursor backwards nor past the end,
/// and consumes at least one token when it succeeds.
pub proof fn lemma_parse_expr_bounds(toks: Seq<TokenV>, pos: int, min_bp: u32)
    requires
        0 <= pos <= toks.len(),
    ensures
        pos <= parse_expr_spec(toks, pos, min_bp).next <= toks.len(),
        parse_expr_spec(toks, pos, min_bp).res is Ok ==> pos < parse_expr_spec(
            toks,
            pos,
            min_bp,
        ).next,
    decreases toks.len() - pos, 1int,
{
    if pos < toks.len() {
        let t = toks[pos];
        match t.kind {
            TokenKindV::Number(n) => {
                lemma_parse_ops_bounds(toks, pos + 1, min_bp);
                assert(parse_expr_spec(toks, pos, min_bp) == parse_ops_spec(
                    toks,
                    pos + 1,
                    min_bp,
                    ExprV::Num(n),
                ));
            },
            TokenKindV::Ident(name) => {
                lemma_parse_ops_bounds(toks, pos + 1, min_bp);
                assert(parse_expr_spec(toks, pos, min_bp) == parse_ops_spec(
                    toks,
                    pos + 1,
                    min_bp,
                    ExprV::Var(name),
                ));
            },
            TokenKindV::LParen => {
                lemma_parse_expr_bounds(toks, pos + 1, 0);
                let inner = parse_expr_spec(toks, pos + 1, 0);
                match inner.res {
                    Err(e) => {
                        assert(parse_expr_spec(toks, pos, min_bp).next == inner.next);
                    },
                    Ok(ie) => {
                        if inner.next < toks.len() && toks[inner.next].kind is RParen {
                            lemma_parse_ops_bounds(toks, inner.next + 1, min_bp);
                            assert(parse_expr_spec(toks, pos, min_bp) == parse_ops_spec(
                                toks,
                                inner.next + 1,
                                min_bp,
                                ExprV::Parenthed(Box::new(ie)),
                            ));
                        } else if inner.next < toks.len() {
                            assert(parse_expr_spec(toks, pos, min_bp).next == inner.next + 1);
                        } else {
                            assert(parse_expr_spec(toks, pos, min_bp).next == inner.next);
                        }
                    },
                }
            },
            TokenKindV::Op(op) => {
                if is_unary_op(op) {
                    lemma_parse_expr_bounds(toks, pos + 1, 31);
                    let rhs = parse_expr_spec(toks, pos + 1, 31);
                    match rhs.res {
                        Err(e) => {
                            assert(parse_expr_spec(toks, pos, min_bp).next == rhs.next);
                        },
                        Ok(re) => {
                            lemma_parse_ops_bounds(toks, rhs.next, min_bp);
                            assert(parse_expr_spec(toks, pos, min_bp) == parse_ops_spec(
                                toks,
                                rhs.next,
                                min_bp,
                                ExprV::Operation(op, seq![re]),
                            ));
                        },
                    }
                } else {
                    assert(parse_expr_spec(toks, pos, min_bp).next == pos + 1);
                }
            },
            TokenKindV::Assign => {
                assert(pos <= parse_expr_spec(toks, pos, min_bp).next <= toks.len());
            },
            TokenKindV::RParen => {
                assert(pos <= parse_expr_spec(toks, pos, min_bp).next <= toks.len());
            },
            TokenKindV::EndExpr => {
                assert(pos <= parse_expr_spec(toks, pos, min_bp).next <= toks.len());
            },
        }
    } else {
        assert(pos <= parse_expr_spec(toks, pos, min_bp).next <= toks.len());
    }
}

/// The infix loop never moves the cursor backwards nor past the end. `lhs`
/// does not affect where it stops, so the bound is stated for every `lhs` at
/// once.
pub proof fn lemma_parse_ops_bounds(toks: Seq<TokenV>, pos: int, min_bp: u32)
    requires
        0 <= pos <= toks.len(),
    ensures
        forall|lhs: ExprV|
            pos <= (#[trigger] parse_ops_spec(toks, pos, min_bp, lhs)).next <= toks.len(),
    decreases toks.len() - pos, 0int,
{
    if pos < toks.len() {
        match toks[pos].kind {
            TokenKindV::Op(op) => {
                let bp = bp_pair(op);
                if !(bp.0 < min_bp) {
                    lemma_parse_expr_bounds(toks, pos + 1, bp.1);
                    let rhs = parse_expr_spec(toks, pos + 1, bp.1);
                    match rhs.res {
                        Err(e) => {
                            assert forall|lhs: ExprV|
                                pos <= (#[trigger] parse_ops_spec(
                                    toks,
                                    pos,
                                    min_bp,
                                    lhs,
                                )).next <= toks.len() by {
                                assert(parse_ops_spec(toks, pos, min_bp, lhs).next == rhs.next);
                            }
                        },
                        Ok(re) => {
                            lemma_parse_ops_bounds(toks, rhs.next, min_bp);
                            assert forall|lhs: ExprV|
                                pos <= (#[trigger] parse_ops_spec(
                                    toks,
                                    pos,
                                    min_bp,
                                    lhs,
                                )).next <= toks.len() by {
                                assert(parse_ops_spec(toks, pos, min_bp, lhs) == parse_ops_spec(
                                    toks,
                                    rhs.next,
                                    min_bp,
                                    ExprV::Operation(op, seq![lhs, re]),
                                ));
                            }
                        },
                    }
                }
            },
            _ => {},
        }
    }
}

/// Parsing an assignment never moves the cursor backwards nor past the end.
pub proof fn lemma_parse_assign_bounds(toks: Seq<TokenV>, pos: int)
    requires
        0 <= pos <= toks.len(),
    ensures
        pos <= parse_assign_spec(toks, pos).next <= toks.len(),
        parse_assign_spec(toks, pos).res is Ok ==> pos < parse_assign_spec(toks, pos).next,
    decreases toks.len() - pos, 2int,
{
    if pos < toks.len() {
        match toks[pos].kind {
            TokenKindV::Ident(_) => {
                if pos + 1 < toks.len() && toks[pos + 1].kind is Assign {
                    lemma_parse_expr_bounds(toks, pos + 2, 0);
                }
            },
            TokenKindV::EndExpr => lemma_parse_assign_bounds(toks, pos + 1),
            _ => {},
        }
    }
}


// ===================================
// The executable parser
// ===================================
/// Result type of the parser.
pub type ParseResult<T> = Result<T, ParsingError>;

/// Whether two token kinds are the same, payloads included.
fn kind_matches(a: &TokenType, b: &TokenType) -> (r: bool)
    ensures
        r == (a@ == b@),
{
    match (a, b) {
        (TokenType::Number(x), TokenType::Number(y)) => *x == *y,
        (TokenType::LParen, TokenType::LParen) => true,
        (TokenType::RParen, TokenType::RParen) => true,
        (TokenType::Op(s1), TokenType::Op(s2)) => s1.eq(s2),
        (TokenType::Assign, TokenType::Assign) => true,
        (TokenType::Ident(s1), TokenType::Ident(s2)) => s1.eq(s2),
        (TokenType::EndExpr, TokenType::EndExpr) => true,
        _ => false,
    }
}

/// The value of a one-element operand vector.
proof fn lemma_exprs_view_one(s: Seq<Expression>)
    requires
        s.len() == 1,
    ensures
        exprs_view(s) == seq![expr_view(s[0])],
{
    assert(s.subrange(1, 1) =~= Seq::<Expression>::empty());
    assert(exprs_view(Seq::<Expression>::empty()) == Seq::<ExprV>::empty());
    assert(exprs_view(s) =~= seq![expr_view(s[0])]);
}

/// The value of a two-element operand vector.
proof fn lemma_exprs_view_two(s: Seq<Expression>)
    requires
        s.len() == 2,
    ensures
        exprs_view(s) == seq![expr_view(s[0]), expr_view(s[1])],
{
    let t = s.subrange(1, 2);
    lemma_exprs_view_one(t);
    assert(t[0] == s[1]);
    assert(exprs_view(s) =~= seq![expr_view(s[0]), expr_view(s[1])]);
}

/// The token-stream cursor the parser works through.
pub struct Parser {
    tokens: Vec<Token>,
    pos: usize,
}

impl Parser {
    /// The views of this parser's tokens.
    pub closed spec fn toks(self) -> Seq<TokenV> {
        token_views(self.tokens@)
    }

    /// The cursor: how many tokens are consumed.
    pub closed spec fn pos_view(self) -> int {
        self.pos as int
    }

    /// The cursor stays within the token vector.
    pub closed spec fn wf(self) -> bool {
        self.pos <= self.tokens@.len()
    }

    /// Makes a parser over a token vector, with the cursor at the start.
    pub fn new(tokens: Vec<Token>) -> (r: Parser)
        ensures
            r.wf(),
            r.toks() == token_views(tokens@),
            r.pos_view() == 0,
    {
        Parser { tokens, pos: 0 }
    }

    /// The token `p` places past the cursor, if there is one.
    pub fn peek(&self, p: usize) -> (r: Option<&Token>)
        requires
            self.pos_view() + p <= usize::MAX,
        ensures
            (match r {
                Some(t) => self.pos_view() + p < self.toks().len() && t@ == self.toks()[
                    self.pos_view() + p
                ],
                None => self.pos_view() + p >= self.toks().len(),
            }),
    {
        let i = self.pos + p;
        if i < self.tokens.len() {
            Some(&self.tokens[i])
        } else {
            None
        }
    }

    /// The kind of the token `p` places past the cursor, if there is one.
    pub fn peek_type(&self, p: usize) -> (r: Option<&TokenType>)
        requires
            self.pos_view() + p <= usize::MAX,
        ensures
            (match r {
                Some(k) => self.pos_view() + p < self.toks().len() && k@ == self.toks()[
                    self.pos_view() + p
                ].kind,
                None => self.pos_view() + p >= self.toks().len(),
            }),
    {
        let i = self.pos + p;
        if i < self.tokens.len() {
            Some(&self.tokens[i].token_type)
        } else {
            None
        }
    }

    /// Consumes and returns the next token, if there is one.
    pub fn next(&mut self) -> (r: Option<Token>)
        requires
            old(self).wf(),
        ensures
            final(self).wf(),
            final(self).toks() == old(self).toks(),
            (match r {
                Some(t) => old(self).pos_view() < old(self).toks().len() && t@ == old(self).toks()[
                    old(self).pos_view()
                ] && final(self).pos_view() == old(self).pos_view() + 1,
                None => old(self).pos_view() >= old(self).toks().len() && final(self).pos_view()
                    == old(self).pos_view(),
            }),
    {
        if self.pos >= self.tokens.len() {
            return None;
        }
        let t = self.tokens[self.pos].clone();
        self.pos = self.pos + 1;
        Some(t)
    }

    /// Consumes the next token when it is exactly `expected`; otherwise
    /// reports what was expected and what stood there, consuming nothing.
    pub fn expect(&mut self, expected: TokenType) -> (r: ParseResult<()>)
        requires
            old(self).wf(),
        ensures
            final(self).wf(),
            final(self).toks() == old(self).toks(),
            ({
                let toks = old(self).toks();
                let pos = old(self).pos_view();
                if pos < toks.len() && toks[pos].kind == expected@ {
                    final(self).pos_view() == pos + 1 && r is Ok
                } else if pos < toks.len() {
                    final(self).pos_view() == pos && (match r {
                        Err(e) => e@ == ParseErrV::Expected(
                            describe_kind(expected@),
                            describe_kind(toks[pos].kind),
                        ),
                        _ => false,
                    })
                } else {
                    final(self).pos_view() == pos && (match r {
                        Err(e) => e@ == ParseErrV::UnexpectedEof,
                        _ => false,
                    })
                }
            }),
    {
        if self.pos >= self.tokens.len() {
            return Err(ParsingError::UnexpectedEof);
        }
        if kind_matches(&self.tokens[self.pos].token_type, &expected) {
            self.pos = self.pos + 1;
            Ok(())
        } else {
            let found = self.tokens[self.pos].token_type.describe();
            let exp = expected.describe();
            Err(ParsingError::Expected(exp, found))
        }
    }

    /// Parses one expression with minimum binding power `min_bp`, exactly as
    /// `parse_expr_spec` describes: the same tree or error, and the same
    /// cursor afterwards.
    pub fn parse_expr_pratt(&mut self, min_bp: u32) -> (r: ParseResult<Expression>)
        requires
            old(self).wf(),
        ensures
            final(self).wf(),
            final(self).toks() == old(self).toks(),
            final(self).pos_view() == parse_expr_spec(
                old(self).toks(),
                old(self).pos_view(),
                min_bp,
            ).next,
            (match (r, parse_expr_spec(old(self).toks(), old(self).pos_view(), min_bp).res) {
                (Ok(e), Ok(ev)) => e@ == ev,
                (Err(e), Err(ev)) => e@ == ev,
                _ => false,
            }),
        decreases self.toks().len() - self.pos_view(), 1int,
    {
        let ghost toks = self.toks();
        let ghost pos0 = self.pos_view();
        proof {
            lemma_parse_expr_bounds(toks, pos0, min_bp);
        }
        match self.next() {
            None => Err(ParsingError::UnexpectedEof),
            Some(t) => {
                let ghost tv = t@;
                match t.token_type {
                    TokenType::Number(n) => {
                        proof {
                            assert(toks[pos0].kind == TokenKindV::Number(n));
                            assert(Expression::Num(n)@ == ExprV::Num(n));
                            assert(parse_expr_spec(toks, pos0, min_bp) == parse_ops_spec(
                                toks,
                                pos0 + 1,
                                min_bp,
                                ExprV::Num(n),
                            ));
                        }
                        self.parse_ops(min_bp, Expression::Num(n))
                    },
                    TokenType::Ident(name) => {
                        let ghost nv = name@;
                        proof {
                            assert(toks[pos0].kind == TokenKindV::Ident(nv));
                            assert(Expression::Var(name)@ == ExprV::Var(nv));
                            assert(parse_expr_spec(toks, pos0, min_bp) == parse_ops_spec(
                                toks,
                                pos0 + 1,
                                min_bp,
                                ExprV::Var(nv),
                            ));
                        }
                        self.parse_ops(min_bp, Expression::Var(name))
                    },
                    TokenType::LParen => {
                        let ghost inner_s = parse_expr_spec(toks, pos0 + 1, 0);
                        proof {
                            assert(toks[pos0].kind is LParen);
                            lemma_parse_expr_bounds(toks, pos0 + 1, 0);
                        }
                        let inner = match self.parse_expr_pratt(0) {
                            Ok(ie) => ie,
                            Err(e) => {
                                proof {
                                    assert(parse_expr_spec(toks, pos0, min_bp).next
                                        == inner_s.next);
                                }
                                return Err(e);
                            },
                        };
                        let ghost iev = inner@;
                        match self.next() {
                            Some(t2) => {
                                let ghost t2v = t2@;
                                match t2.token_type {
                                    TokenType::RParen => {
                                        proof {
                                            assert(t2v.kind is RParen);
                                            assert(Expression::Parenthed(Box::new(inner))@
                                                == ExprV::Parenthed(Box::new(iev)));
                                            assert(parse_expr_spec(toks, pos0, min_bp)
                                                == parse_ops_spec(
                                                toks,
                                                inner_s.next + 1,
                                                min_bp,
                                                ExprV::Parenthed(Box::new(iev)),
                                            ));
                                        }
                                        self.parse_ops(
                                            min_bp,
                                            Expression::Parenthed(Box::new(inner)),
                                        )
                                    },
                                    other => {
                                        proof {
                                            assert(other@ == t2v.kind);
                                            assert(parse_expr_spec(toks, pos0, min_bp).next
                                                == inner_s.next + 1);
                                        }
                                        let d = other.describe();
                                        Err(ParsingError::Expected(String::from_str("')'"), d))
                                    },
                                }
                            },
                            None => {
                                proof {
                                    assert(parse_expr_spec(toks, pos0, min_bp).next
                                        == inner_s.next);
                                }
                                Err(
                                    ParsingError::Expected(
                                        String::from_str("')'"),
                                        String::from_str("end of input"),
                                    ),
                                )
                            },
                        }
                    },
                    TokenType::Op(op) => {
                        let ghost opv = op@;
                        proof {
                            assert(toks[pos0].kind == TokenKindV::Op(opv));
                        }
                        if is_valid_unary(op.as_str()) {
                            let bp = unary_binding_power(op.as_str());
                            let ghost rhs_s = parse_expr_spec(toks, pos0 + 1, 31);
                            proof {
                                lemma_parse_expr_bounds(toks, pos0 + 1, 31);
                            }
                            let rhs = match self.parse_expr_pratt(bp.1) {
                                Ok(re) => re,
                                Err(e) => {
                                    proof {
                                        assert(parse_expr_spec(toks, pos0, min_bp).next
                                            == rhs_s.next);
                                    }
                                    return Err(e);
                                },
                            };
                            let ghost rev = rhs@;
                            let mut args: Vec<Expression> = Vec::new();
                            args.push(rhs);
                            proof {
                                lemma_exprs_view_one(args@);
                                assert(Expression::Operation(op, args)@ == ExprV::Operation(
                                    opv,
                                    seq![rev],
                                ));
                                assert(parse_expr_spec(toks, pos0, min_bp) == parse_ops_spec(
                                    toks,
                                    rhs_s.next,
                                    min_bp,
                                    ExprV::Operation(opv, seq![rev]),
                                ));
                            }
                            self.parse_ops(min_bp, Expression::Operation(op, args))
                        } else {
                            let mut msg = String::from_str("unexpected token: ");
                            let tt = TokenType::Op(op);
                            let d = tt.describe();
                            msg.append(d.as_str());
                            proof {
                                assert(msg@ == unexpected_token_text(tv.kind));
                                assert(parse_expr_spec(toks, pos0, min_bp).next == pos0 + 1);
                            }
                            Err(ParsingError::InvalidExpression(msg))
                        }
                    },
                    other => {
                        let mut msg = String::from_str("unexpected token: ");
                        let d = other.describe();
                        msg.append(d.as_str());
                        proof {
                            assert(other@ == tv.kind);
                            assert(msg@ == unexpected_token_text(tv.kind));
                            assert(parse_expr_spec(toks, pos0, min_bp).next == pos0 + 1);
                        }
                        Err(ParsingError::InvalidExpression(msg))
                    },
                }
            },
        }
    }

    /// The infix stage of the Pratt parser, exactly as `parse_ops_spec`
    /// describes.
    fn parse_ops(&mut self, min_bp: u32, lhs: Expression) -> (r: ParseResult<Expression>)
        requires
            old(self).wf(),
        ensures
            final(self).wf(),
            final(self).toks() == old(self).toks(),
            final(self).pos_view() == parse_ops_spec(
                old(self).toks(),
                old(self).pos_view(),
                min_bp,
                lhs@,
            ).next,
            (match (r, parse_ops_spec(old(self).toks(), old(self).pos_view(), min_bp, lhs@).res) {
                (Ok(e), Ok(ev)) => e@ == ev,
                (Err(e), Err(ev)) => e@ == ev,
                _ => false,
            }),
        decreases self.toks().len() - self.pos_view(), 0int,
    {
        let ghost toks = self.toks();
        let ghost pos0 = self.pos_view();
        let ghost lhsv = lhs@;
        proof {
            lemma_parse_ops_bounds(toks, pos0, min_bp);
        }
        if self.pos >= self.tokens.len() {
            return Ok(lhs);
        }
        proof {
            assert(toks[pos0] == self.tokens@[self.pos as int]@);
        }
        let op: String = match &self.tokens[self.pos].token_type {
            TokenType::EndExpr => {
                return Ok(lhs);
            },
            TokenType::RParen => {
                return Ok(lhs);
            },
            TokenType::Op(o) => o.clone(),
            other => {
                let mut msg = String::from_str("expecting an operator, but found: ");
                let d = other.describe();
                msg.append(d.as_str());
                return Err(ParsingError::InvalidExpression(msg));
            },
        };
        let bp = binding_power(op.as_str());
        if bp.0 < min_bp {
            return Ok(lhs);
        }
        let _ = self.next();
        let rhs = match self.parse_expr_pratt(bp.1) {
            Ok(re) => re,
            Err(e) => {
                return Err(e);
            },
        };
        proof {
            lemma_parse_expr_bounds(toks, pos0 + 1, bp.1);
        }
        let ghost rev = rhs@;
        let mut args: Vec<Expression> = Vec::new();
        args.push(lhs);
        args.push(rhs);
        proof {
            lemma_exprs_view_two(args@);
            assert(Expression::Operation(op, args)@ == ExprV::Operation(op@, seq![lhsv, rev]));
        }
        self.parse_ops(min_bp, Expression::Operation(op, args))
    }

    /// Parses one assignment, exactly as `parse_assign_spec` describes:
    /// stray statement ends are skipped, then `identifier = expression`.
    pub fn parse_assign(&mut self) -> (r: ParseResult<Assign>)
        requires
            old(self).wf(),
        ensures
            final(self).wf(),
            final(self).toks() == old(self).toks(),
            final(self).pos_view() == parse_assign_spec(old(self).toks(), old(self).pos_view()).next,
            (match (r, parse_assign_spec(old(self).toks(), old(self).pos_view()).res) {
                (Ok(a), Ok(av)) => a@ == av,
                (Err(e), Err(ev)) => e@ == ev,
                _ => false,
            }),
        decreases self.toks().len() - self.pos_view(), 2int,
    {
        let ghost toks = self.toks();
        let ghost pos0 = self.pos_view();
        if self.pos >= self.tokens.len() {
            return Err(
                ParsingError::Expected(
                    String::from_str("any identifier"),
                    String::from_str("end of input"),
                ),
            );
        }
        proof {
            assert(toks[pos0] == self.tokens@[self.pos as int]@);
        }
        let name: String = match &self.tokens[self.pos].token_type {
            TokenType::Ident(a) => a.clone(),
            TokenType::EndExpr => {
                self.pos = self.pos + 1;
                return self.parse_assign();
            },
            other => {
                let d = other.describe();
                return Err(ParsingError::Expected(String::from_str("any identifier"), d));
            },
        };
        self.pos = self.pos + 1;
        match self.expect(TokenType::Assign) {
            Ok(u) => {},
            Err(e) => {
                return Err(ParsingError::InvalidAssignment);
            },
        }
        match self.parse_expr_pratt(0) {
            Err(e) => Err(e),
            Ok(value) => Ok(Assign(name, value)),
        }
    }

    /// Parses a whole program, exactly as `parse_program_spec` describes:
    /// the assignments in source order, or the first parse error; nothing
    /// partial comes back on an error.
    #[verifier::loop_isolation(false)]
    pub fn parse_program(&mut self) -> (r: ParseResult<Program>)
        requires
            old(self).wf(),
        ensures
            final(self).wf(),
            final(self).toks() == old(self).toks(),
            (match (r, parse_program_spec(old(self).toks(), old(self).pos_view())) {
                (Ok(p), Ok(avs)) => p@ == avs,
                (Err(e), Err(ev)) => e@ == ev,
                _ => false,
            }),
    {
        let ghost toks = self.toks();
        let ghost pos0 = self.pos_view();
        let mut buf: Vec<Assign> = Vec::new();
        while self.pos < self.tokens.len()
            invariant
                self.wf(),
                self.toks() == toks,
                pos0 <= self.pos_view(),
                (match parse_program_spec(toks, self.pos_view()) {
                    Ok(rest) => parse_program_spec(toks, pos0) == Ok::<Seq<AssignV>, ParseErrV>(
                        assign_views(buf@) + rest,
                    ),
                    Err(e) => parse_program_spec(toks, pos0) == Err::<Seq<AssignV>, ParseErrV>(e),
                }),
            decreases self.toks().len() - self.pos_view(),
        {
            let ghost posl = self.pos_view();
            proof {
                assert(toks[posl] == self.tokens@[self.pos as int]@);
                lemma_parse_assign_bounds(toks, posl);
            }
            let is_end = kind_matches(&self.tokens[self.pos].token_type, &TokenType::EndExpr);
            if is_end {
                self.pos = self.pos + 1;
            } else {
                let a = match self.parse_assign() {
                    Ok(a) => a,
                    Err(e) => {
                        return Err(e);
                    },
                };
                let ghost av = a@;
                let ghost posn = self.pos_view();
                match self.expect(TokenType::EndExpr) {
                    Ok(u) => {
                        let ghost prev = buf@;
                        buf.push(a);
                        proof {
                            assert(assign_views(prev.push(a)) =~= assign_views(prev).push(av));
                            match parse_program_spec(toks, self.pos_view()) {
                                Ok(rest) => {
                                    assert(assign_views(prev) + (seq![av] + rest) =~= assign_views(
                                        prev.push(a),
                                    ) + rest);
                                },
                                Err(e) => {},
                            }
                        }
                    },
                    Err(e) => {
                        if self.pos < self.tokens.len() {
                            return Err(e);
                        }
                        let ghost prev = buf@;
                        buf.push(a);
                        proof {
                            assert(assign_views(prev.push(a)) =~= assign_views(prev).push(av));
                            assert(assign_views(prev) + seq![av] =~= assign_views(prev.push(a)));
                        }
                    },
                }
            }
        }
        proof {
            assert(assign_views(buf@) + Seq::<AssignV>::empty() =~= assign_views(buf@));
        }
        Ok(Program { body: buf })
    }
}


// ===================================
// A law of the parser
// ===================================
/// Whether a token kind can stand alone as an operand: a number or an
/// identifier.
pub open spec fn is_atom_kind(k: TokenKindV) -> bool {
    k is Number || k is Ident
}

/// The expression an operand token denotes.
pub open spec fn atom_expr(k: TokenKindV) -> ExprV {
    match k {
        TokenKindV::Number(n) => ExprV::Num(n),
        TokenKindV::Ident(name) => ExprV::Var(name),
        _ => ExprV::Num(Rational { num: 0, den: 1 }),
    }
}

/// Structural round trip for every binary form `a op b`: whatever the
/// operand tokens (numbers or identifiers) and whatever the operator's text,
/// parsing the three tokens yields exactly the operation node carrying that
/// operator, with the left operand first and the right operand second, and
/// consumes all three tokens.
pub proof fn lemma_parse_binary_shape(toks: Seq<TokenV>, op: Seq<char>)
    requires
        toks.len() == 3,
        is_atom_kind(toks[0].kind),
        toks[1].kind == TokenKindV::Op(op),
        is_atom_kind(toks[2].kind),
    ensures
        parse_expr_spec(toks, 0, 0).res == Ok::<ExprV, ParseErrV>(
            ExprV::Operation(op, seq![atom_expr(toks[0].kind), atom_expr(toks[2].kind)]),
        ),
        parse_expr_spec(toks, 0, 0).next == 3,
{
    let a0 = atom_expr(toks[0].kind);
    let a2 = atom_expr(toks[2].kind);
    let bp = bp_pair(op);
    assert(parse_ops_spec(toks, 3, bp.1, a2) == PRes { res: Ok::<ExprV, ParseErrV>(a2), next: 3int });
    assert(parse_expr_spec(toks, 2, bp.1) == PRes { res: Ok::<ExprV, ParseErrV>(a2), next: 3int });
    assert(parse_ops_spec(toks, 3, 0, ExprV::Operation(op, seq![a0, a2])) == PRes {
        res: Ok::<ExprV, ParseErrV>(ExprV::Operation(op, seq![a0, a2])),
        next: 3int,
    });
    assert(parse_ops_spec(toks, 1, 0, a0) == parse_ops_spec(
        toks,
        3,
        0,
        ExprV::Operation(op, seq![a0, a2]),
    ));
    assert(parse_expr_spec(toks, 0, 0) == parse_ops_spec(toks, 1, 0, a0));
}


/// A prefix operator binds tighter than any infix operator: in `u a op b`
/// the prefix operator takes only `a`, and the infix operator takes the
/// whole prefix node as its left operand, whatever the infix operator's
/// text.
pub proof fn lemma_unary_binds_tighter(toks: Seq<TokenV>, u: Seq<char>, op: Seq<char>)
    requires
        toks.len() == 4,
        toks[0].kind == TokenKindV::Op(u),
        is_unary_op(u),
        is_atom_kind(toks[1].kind),
        toks[2].kind == TokenKindV::Op(op),
        is_atom_kind(toks[3].kind),
    ensures
        parse_expr_spec(toks, 0, 0).res == Ok::<ExprV, ParseErrV>(
            ExprV::Operation(
                op,
                seq![
                    ExprV::Operation(u, seq![atom_expr(toks[1].kind)]),
                    atom_expr(toks[3].kind),
                ],
            ),
        ),
        parse_expr_spec(toks, 0, 0).next == 4,
{
    let a1 = atom_expr(toks[1].kind);
    let a3 = atom_expr(toks[3].kind);
    let bp = bp_pair(op);
    let un = ExprV::Operation(u, seq![a1]);
    assert(bp.0 == 10 || bp.0 == 20 || bp.0 == 30);
    assert(parse_ops_spec(toks, 2, 31u32, a1) == PRes {
        res: Ok::<ExprV, ParseErrV>(a1),
        next: 2int,
    });
    assert(parse_expr_spec(toks, 1, 31) == PRes { res: Ok::<ExprV, ParseErrV>(a1), next: 2int });
    assert(parse_ops_spec(toks, 4, bp.1, a3) == PRes {
        res: Ok::<ExprV, ParseErrV>(a3),
        next: 4int,
    });
    assert(parse_expr_spec(toks, 3, bp.1) == PRes { res: Ok::<ExprV, ParseErrV>(a3), next: 4int });
    assert(parse_ops_spec(toks, 4, 0, ExprV::Operation(op, seq![un, a3])) == PRes {
        res: Ok::<ExprV, ParseErrV>(ExprV::Operation(op, seq![un, a3])),
        next: 4int,
    });
    assert(parse_ops_spec(toks, 2, 0, un) == parse_ops_spec(
        toks,
        4,
        0,
        ExprV::Operation(op, seq![un, a3]),
    ));
    assert(parse_expr_spec(toks, 0, 0) == parse_ops_spec(toks, 2, 0, un));
}


// ===================================
// Rendering
// ===================================
/// The text of an expression: variables as `var 'name'`, numbers as exact
/// rationals, groups in parentheses, and operations in prefix form with a
/// space before each operand.
pub open spec fn expr_text(e: ExprV) -> Seq<char>
    decreases e, 0int,
{
    match e {
        ExprV::Var(s) => "var '"@ + s + "'"@,
        ExprV::Num(n) => rat_text(n),
        ExprV::Parenthed(b) => "("@ + expr_text(*b) + ")"@,
        ExprV::Operation(op, args) => "("@ + op + operands_text(args) + ")"@,
    }
}

/// The text of an operation's operands, one leading space before each.
pub open spec fn operands_text(s: Seq<ExprV>) -> Seq<char>
    decreases s, 1int,
{
    if s.len() == 0 {
        Seq::empty()
    } else {
        " "@ + expr_text(s[0]) + operands_text(s.subrange(1, s.len() as int))
    }
}

impl Expression {
    /// Renders the tree as text, exactly as `expr_text` describes.
    #[verifier::loop_isolation(false)]
    pub fn render(&self) -> (r: String)
        ensures
            r@ == expr_text(expr_view(*self)),
        decreases exprv_size(expr_view(*self)),
    {
        match self {
            Expression::Var(s) => {
                let mut out = String::from_str("var '");
                out.append(s.as_str());
                out.append("'");
                out
            },
            Expression::Num(n) => n.to_text(),
            Expression::Parenthed(b) => {
                proof {
                    assert(exprv_size(expr_view(*self)) == 1 + exprv_size(expr_view(**b)));
                }
                let mut out = String::from_str("(");
                let inner = b.render();
                out.append(inner.as_str());
                out.append(")");
                out
            },
            Expression::Operation(op, args) => {
                let ghost opv = op@;
                let ghost argsv = exprs_view(args@);
                proof {
                    lemma_exprs_view_index(args@);
                    assert(exprv_size(expr_view(*self)) == 1 + exprv_list_size(argsv));
                }
                let mut out = String::from_str("(");
                out.append(op.as_str());
                let mut i: usize = 0;
                proof {
                    assert(argsv.subrange(0, argsv.len() as int) =~= argsv);
                }
                while i < args.len()
                    invariant
                        i <= args@.len(),
                        out@ + operands_text(argsv.subrange(i as int, argsv.len() as int))
                            == "("@ + opv + operands_text(argsv),
                    decreases args@.len() - i,
                {
                    let ghost rest = argsv.subrange(i as int, argsv.len() as int);
                    proof {
                        lemma_exprv_list_size_ge(argsv, i as int);
                        assert(rest[0] == argsv[i as int]);
                        assert(rest.subrange(1, rest.len() as int) =~= argsv.subrange(
                            i + 1,
                            argsv.len() as int,
                        ));
                    }
                    let ghost before = out@;
                    out.append(" ");
                    let piece = args[i].render();
                    out.append(piece.as_str());
                    proof {
                        assert(out@ + operands_text(argsv.subrange(i + 1, argsv.len() as int))
                            =~= before + operands_text(rest));
                    }
                    i += 1;
                }
                out.append(")");
                proof {
                    assert(argsv.subrange(argsv.len() as int, argsv.len() as int) =~= Seq::<
                        ExprV,
                    >::empty());
                    assert(("("@ + opv + operands_text(argsv)) + ")"@ =~= expr_text(
                        expr_view(*self),
                    ));
                }
                out
            },
        }
    }
}


/// Same-operator chains nest to the left: in `a op b op c` the first
/// operator takes `a` and `b`, and the second takes that node and `c` —
/// left-associativity, for every operator text.
pub proof fn lemma_same_op_left_assoc(toks: Seq<TokenV>, op: Seq<char>)
    requires
        toks.len() == 5,
        is_atom_kind(toks[0].kind),
        toks[1].kind == TokenKindV::Op(op),
        is_atom_kind(toks[2].kind),
        toks[3].kind == TokenKindV::Op(op),
        is_atom_kind(toks[4].kind),
    ensures
        parse_expr_spec(toks, 0, 0).res == Ok::<ExprV, ParseErrV>(
            ExprV::Operation(
                op,
                seq![
                    ExprV::Operation(op, seq![atom_expr(toks[0].kind), atom_expr(toks[2].kind)]),
                    atom_expr(toks[4].kind),
                ],
            ),
        ),
        parse_expr_spec(toks, 0, 0).next == 5,
{
    let a0 = atom_expr(toks[0].kind);
    let a2 = atom_expr(toks[2].kind);
    let a4 = atom_expr(toks[4].kind);
    let bp = bp_pair(op);
    let left = ExprV::Operation(op, seq![a0, a2]);
    let whole = ExprV::Operation(op, seq![left, a4]);
    // the right-hand side of the first operator stops before the second:
    // every operator's left power sits one under its own right power
    assert(bp.0 < bp.1);
    assert(parse_ops_spec(toks, 3, bp.1, a2) == PRes {
        res: Ok::<ExprV, ParseErrV>(a2),
        next: 3int,
    });
    assert(parse_expr_spec(toks, 2, bp.1) == PRes { res: Ok::<ExprV, ParseErrV>(a2), next: 3int });
    assert(parse_ops_spec(toks, 5, bp.1, a4) == PRes {
        res: Ok::<ExprV, ParseErrV>(a4),
        next: 5int,
    });
    assert(parse_expr_spec(toks, 4, bp.1) == PRes { res: Ok::<ExprV, ParseErrV>(a4), next: 5int });
    assert(parse_ops_spec(toks, 5, 0, whole) == PRes {
        res: Ok::<ExprV, ParseErrV>(whole),
        next: 5int,
    });
    assert(parse_ops_spec(toks, 3, 0, left) == parse_ops_spec(toks, 5, 0, whole));
    assert(parse_ops_spec(toks, 1, 0, a0) == parse_ops_spec(toks, 3, 0, left));
    assert(parse_expr_spec(toks, 0, 0) == parse_ops_spec(toks, 1, 0, a0));
}


/// Multiplicative operators bind tighter than additive ones: in
/// `a add b mul c`, the multiplicative operator takes `b` and `c`, and the
/// additive one takes `a` and that whole product.
pub proof fn lemma_precedence(toks: Seq<TokenV>, add_op: Seq<char>, mul_op: Seq<char>)
    requires
        toks.len() == 5,
        is_atom_kind(toks[0].kind),
        toks[1].kind == TokenKindV::Op(add_op),
        add_op == "+"@ || add_op == "-"@,
        is_atom_kind(toks[2].kind),
        toks[3].kind == TokenKindV::Op(mul_op),
        mul_op == "*"@ || mul_op == "/"@,
        is_atom_kind(toks[4].kind),
    ensures
        parse_expr_spec(toks, 0, 0).res == Ok::<ExprV, ParseErrV>(
            ExprV::Operation(
                add_op,
                seq![
                    atom_expr(toks[0].kind),
                    ExprV::Operation(
                        mul_op,
                        seq![atom_expr(toks[2].kind), atom_expr(toks[4].kind)],
                    ),
                ],
            ),
        ),
        parse_expr_spec(toks, 0, 0).next == 5,
{
    reveal_strlit("+");
    reveal_strlit("-");
    reveal_strlit("*");
    reveal_strlit("/");
    assert("+"@[0] == '+' && "-"@[0] == '-' && "*"@[0] == '*' && "/"@[0] == '/');
    let a0 = atom_expr(toks[0].kind);
    let a2 = atom_expr(toks[2].kind);
    let a4 = atom_expr(toks[4].kind);
    assert(bp_pair(add_op) == (10u32, 11u32));
    assert(bp_pair(mul_op) == (20u32, 21u32));
    let product = ExprV::Operation(mul_op, seq![a2, a4]);
    let whole = ExprV::Operation(add_op, seq![a0, product]);
    assert(parse_ops_spec(toks, 5, 21u32, a4) == PRes {
        res: Ok::<ExprV, ParseErrV>(a4),
        next: 5int,
    });
    assert(parse_expr_spec(toks, 4, 21) == PRes { res: Ok::<ExprV, ParseErrV>(a4), next: 5int });
    assert(parse_ops_spec(toks, 5, 11u32, product) == PRes {
        res: Ok::<ExprV, ParseErrV>(product),
        next: 5int,
    });
    assert(parse_ops_spec(toks, 3, 11u32, a2) == parse_ops_spec(toks, 5, 11u32, product));
    assert(parse_expr_spec(toks, 2, 11) == PRes {
        res: Ok::<ExprV, ParseErrV>(product),
        next: 5int,
    });
    assert(parse_ops_spec(toks, 5, 0, whole) == PRes {
        res: Ok::<ExprV, ParseErrV>(whole),
        next: 5int,
    });
    assert(parse_ops_spec(toks, 1, 0, a0) == parse_ops_spec(toks, 5, 0, whole));
    assert(parse_expr_spec(toks, 0, 0) == parse_ops_spec(toks, 1, 0, a0));
}

} // verus!

