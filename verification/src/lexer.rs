//! The lexer: a stateful cursor that turns source text into tokens, one per
//! call. Space and tab characters are stripped before scanning, so tokens can
//! never be separated by blanks; newlines emit `EndExpr` tokens and advance
//! the line counter. The spec-level model is `lex_step` (one token) and
//! `lex_all` (the whole stream), which the executable lexer follows exactly.

use vstd::prelude::*;
use vstd::string::StringExecFns;
use crate::error::{LexErrV, LexerError};
use crate::number::Rational;
use crate::text::{
    alphabetic_char, alphanumeric_char, is_alphabetic_char, is_alphanumeric_char, push_char,
    str_eqs,
};

verus! {

// ===================================
// Tokens
// ===================================
/// Mathematical value of a `TokenType`.
pub ghost enum TokenKindV {
    Number(Rational),
    LParen,
    RParen,
    Op(Seq<char>),
    Assign,
    Ident(Seq<char>),
    EndExpr,
}

/// Mathematical value of a `Token`: its line and its kind.
pub ghost struct TokenV {
    pub line: int,
    pub kind: TokenKindV,
}

/// What kind of token was scanned, with its payload.
#[derive(Debug, PartialEq)]
pub enum TokenType {
    /// A numeric literal, as an exact rational: `3.14` is `314/100`.
    Number(Rational),
    /// `(`
    LParen,
    /// `)`
    RParen,
    /// An operator character, carried as its text.
    Op(String),
    /// `=`
    Assign,
    /// A name: alphabetic or `_`, then alphanumeric or `_`.
    Ident(String),
    /// A newline: the end of one statement.
    EndExpr,
}

/// A token together with the 0-based line it started on.
#[derive(Debug, PartialEq)]
pub struct Token {
    pub line: usize,
    pub token_type: TokenType,
}

impl View for TokenType {
    type V = TokenKindV;

    open spec fn view(&self) -> TokenKindV {
        match self {
            TokenType::Number(n) => TokenKindV::Number(*n),
            TokenType::LParen => TokenKindV::LParen,
            TokenType::RParen => TokenKindV::RParen,
            TokenType::Op(s) => TokenKindV::Op(s@),
            TokenType::Assign => TokenKindV::Assign,
            TokenType::Ident(s) => TokenKindV::Ident(s@),
            TokenType::EndExpr => TokenKindV::EndExpr,
        }
    }
}

impl View for Token {
    type V = TokenV;

    open spec fn view(&self) -> TokenV {
        TokenV { line: self.line as int, kind: self.token_type@ }
    }
}

impl Clone for TokenType {
    fn clone(&self) -> (r: Self)
        ensures
            r == *self,
    {
        match self {
            TokenType::Number(n) => TokenType::Number(*n),
            TokenType::LParen => TokenType::LParen,
            TokenType::RParen => TokenType::RParen,
            TokenType::Op(s) => TokenType::Op(s.clone()),
            TokenType::Assign => TokenType::Assign,
            TokenType::Ident(s) => TokenType::Ident(s.clone()),
            TokenType::EndExpr => TokenType::EndExpr,
        }
    }
}

impl Clone for Token {
    fn clone(&self) -> (r: Self)
        ensures
            r == *self,
    {
        Token { line: self.line, token_type: self.token_type.clone() }
    }
}

/// A short description of a token kind, used in parse errors.
pub open spec fn describe_kind(k: TokenKindV) -> Seq<char> {
    match k {
        TokenKindV::Number(_) => "a number"@,
        TokenKindV::LParen => "'('"@,
        TokenKindV::RParen => "')'"@,
        TokenKindV::Op(s) => "operator '"@ + s + "'"@,
        TokenKindV::Assign => "'='"@,
        TokenKindV::Ident(s) => "identifier '"@ + s + "'"@,
        TokenKindV::EndExpr => "end of statement"@,
    }
}

impl TokenType {
    /// Renders a short description of this token kind, for error messages.
    pub fn describe(&self) -> (r: String)
        ensures
            r@ == describe_kind(self@),
    {
        match self {
            TokenType::Number(_) => String::from_str("a number"),
            TokenType::LParen => String::from_str("'('"),
            TokenType::RParen => String::from_str("')'"),
            TokenType::Op(s) => {
                let mut out = String::from_str("operator '");
                out.append(s.as_str());
                out.append("'");
                out
            },
            TokenType::Assign => String::from_str("'='"),
            TokenType::Ident(s) => {
                let mut out = String::from_str("identifier '");
                out.append(s.as_str());
                out.append("'");
                out
            },
            TokenType::EndExpr => String::from_str("end of statement"),
        }
    }
}

// ===================================
// Binding powers
// ===================================
/// The `(left, right)` binding power of a binary operator: additive operators
/// bind at `(10, 11)`, multiplicative at `(20, 21)`, anything else at the
/// maximal `(30, 31)`. The right power exceeds the left by one, which makes
/// same-tier chains left-associative.
pub open spec fn bp_pair(op: Seq<char>) -> (u32, u32) {
    if op == "+"@ || op == "-"@ {
        (10u32, 11u32)
    } else if op == "*"@ || op == "/"@ {
        (20u32, 21u32)
    } else {
        (30u32, 31u32)
    }
}

/// Whether an operator may stand in prefix position.
pub open spec fn is_unary_op(op: Seq<char>) -> bool {
    op == "+"@ || op == "-"@ || op == "!"@
}

/// The binding powers of a binary operator.
pub fn binding_power(op: &str) -> (r: (u32, u32))
    ensures
        r == bp_pair(op@),
{
    if str_eqs(op, "+") || str_eqs(op, "-") {
        (10, 11)
    } else if str_eqs(op, "*") || str_eqs(op, "/") {
        (20, 21)
    } else {
        (30, 31)
    }
}

/// Whether an operator may stand in prefix position: one of `+`, `-`, `!`.
pub fn is_valid_unary(op: &str) -> (r: bool)
    ensures
        r == is_unary_op(op@),
{
    str_eqs(op, "+") || str_eqs(op, "-") || str_eqs(op, "!")
}

/// The binding powers of a prefix operator; all prefix operators bind at the
/// maximal tier.
pub fn unary_binding_power(op: &str) -> (r: (u32, u32))
    requires
        is_unary_op(op@),
    ensures
        r == (30u32, 31u32),
{
    (30, 31)
}

// ===================================
// The spec-level scanner
// ===================================
/// Whether a character is an ASCII digit.
pub open spec fn is_digit(c: char) -> bool {
    48 <= c as u32 <= 57
}

/// The value of an ASCII digit.
pub open spec fn digit_val(c: char) -> int {
    c as u32 - 48
}

/// The source text with every space and tab removed, as the lexer sees it.
pub open spec fn strip_blanks(s: Seq<char>) -> Seq<char>
    decreases s.len(),
{
    if s.len() == 0 {
        Seq::empty()
    } else if s.last() == ' ' || s.last() == '\t' {
        strip_blanks(s.drop_last())
    } else {
        strip_blanks(s.drop_last()).push(s.last())
    }
}

/// Scans a numeric run from `i` on: digits, with at most one `.` counting the
/// one already seen. Returns the index where the run ends and whether it was
/// well-formed; a second `.` ends it ill-formed at that index.
pub open spec fn scan_number(text: Seq<char>, i: int, seen_dot: bool) -> (int, bool)
    decreases text.len() - i,
{
    if i < 0 || i >= text.len() {
        (i, true)
    } else if is_digit(text[i]) {
        scan_number(text, i + 1, seen_dot)
    } else if text[i] == '.' {
        if seen_dot {
            (i, false)
        } else {
            scan_number(text, i + 1, true)
        }
    } else {
        (i, true)
    }
}

/// Scans an identifier run from `i` on: alphanumeric characters and `_`.
/// Returns the index where the run ends.
pub open spec fn scan_ident(text: Seq<char>, i: int) -> int
    decreases text.len() - i,
{
    if i < 0 || i >= text.len() {
        i
    } else if alphanumeric_char(text[i]) || text[i] == '_' {
        scan_ident(text, i + 1)
    } else {
        i
    }
}

/// The integer read off all the digits of a numeric run, ignoring the dot,
/// folded onto `acc`.
pub open spec fn mantissa_rec(s: Seq<char>, acc: int) -> int
    decreases s.len(),
{
    if s.len() == 0 {
        acc
    } else if s[0] == '.' {
        mantissa_rec(s.drop_first(), acc)
    } else {
        mantissa_rec(s.drop_first(), acc * 10 + digit_val(s[0]))
    }
}

/// Whether every intermediate mantissa while reading the digits stays within
/// `i64`.
pub open spec fn mantissa_fits_rec(s: Seq<char>, acc: int) -> bool
    decreases s.len(),
{
    if s.len() == 0 {
        true
    } else if s[0] == '.' {
        mantissa_fits_rec(s.drop_first(), acc)
    } else {
        acc * 10 + digit_val(s[0]) <= i64::MAX && mantissa_fits_rec(
            s.drop_first(),
            acc * 10 + digit_val(s[0]),
        )
    }
}

/// How many characters of a numeric run stand after its dot; 0 if it has no
/// dot.
pub open spec fn frac_digits(s: Seq<char>) -> int
    decreases s.len(),
{
    if s.len() == 0 {
        0
    } else if s[0] == '.' {
        s.len() - 1
    } else {
        frac_digits(s.drop_first())
    }
}

/// Ten to the `n`.
pub open spec fn pow10(n: int) -> int
    decreases n,
{
    if n <= 0 {
        1
    } else {
        10 * pow10(n - 1)
    }
}

/// The reason text of a numeric run that is only a dot.
pub open spec fn not_a_number_text() -> Seq<char> {
    "is not a number"@
}

/// The reason text of a numeric run whose value does not fit.
pub open spec fn out_of_range_text() -> Seq<char> {
    "does not fit in the numeric range"@
}

/// The token or error a well-formed numeric run `buf` denotes: a lone dot is
/// no number, a mantissa or a denominator beyond `i64` does not fit, and
/// otherwise the run denotes the exact rational `mantissa / 10^frac_digits`.
pub open spec fn number_token_of(buf: Seq<char>, line: int) -> Result<TokenV, LexErrV> {
    if buf.len() == 1 && buf[0] == '.' {
        Err(LexErrV::ParseError(buf, not_a_number_text()))
    } else if !mantissa_fits_rec(buf, 0) || pow10(frac_digits(buf)) > i64::MAX {
        Err(LexErrV::ParseError(buf, out_of_range_text()))
    } else {
        Ok(
            TokenV {
                line,
                kind: TokenKindV::Number(
                    Rational {
                        num: mantissa_rec(buf, 0) as i64,
                        den: pow10(frac_digits(buf)) as i64,
                    },
                ),
            },
        )
    }
}

/// One step of the lexer: what it emits at `pos` on `line`, and the cursor
/// afterwards. `out` is `None` exactly at the end of the text.
pub ghost struct LexStep {
    pub out: Option<Result<TokenV, LexErrV>>,
    pub pos2: int,
    pub line2: int,
}

/// The lexer's step function over the (blank-stripped) text.
pub open spec fn lex_step(text: Seq<char>, pos: int, line: int) -> LexStep {
    if pos < 0 || pos >= text.len() {
        LexStep { out: None, pos2: pos, line2: line }
    } else {
        let c = text[pos];
        if c == '=' {
            LexStep {
                out: Some(Ok(TokenV { line, kind: TokenKindV::Assign })),
                pos2: pos + 1,
                line2: line,
            }
        } else if c == '+' || c == '-' || c == '*' || c == '/' {
            LexStep {
                out: Some(Ok(TokenV { line, kind: TokenKindV::Op(seq![c]) })),
                pos2: pos + 1,
                line2: line,
            }
        } else if c == '(' {
            LexStep {
                out: Some(Ok(TokenV { line, kind: TokenKindV::LParen })),
                pos2: pos + 1,
                line2: line,
            }
        } else if c == ')' {
            LexStep {
                out: Some(Ok(TokenV { line, kind: TokenKindV::RParen })),
                pos2: pos + 1,
                line2: line,
            }
        } else if c == '\n' {
            LexStep {
                out: Some(Ok(TokenV { line: line + 1, kind: TokenKindV::EndExpr })),
                pos2: pos + 1,
                line2: line + 1,
            }
        } else if is_digit(c) || c == '.' {
            let (end, ok) = scan_number(text, pos + 1, c == '.');
            let buf = text.subrange(pos, end);
            if !ok {
                LexStep { out: Some(Err(LexErrV::InvalidNumber(buf))), pos2: end, line2: line }
            } else {
                LexStep { out: Some(number_token_of(buf, line)), pos2: end, line2: line }
            }
        } else if alphabetic_char(c) || c == '_' {
            let end = scan_ident(text, pos + 1);
            LexStep {
                out: Some(Ok(TokenV { line, kind: TokenKindV::Ident(text.subrange(pos, end)) })),
                pos2: end,
                line2: line,
            }
        } else {
            LexStep { out: Some(Err(LexErrV::UnrecognizedChar(c))), pos2: pos + 1, line2: line }
        }
    }
}

/// The whole token stream from `pos` on: the sequence of tokens, or the first
/// lexical error.
pub open spec fn lex_all(text: Seq<char>, pos: int, line: int) -> Result<Seq<TokenV>, LexErrV>
    decreases text.len() - pos,
{
    let st = lex_step(text, pos, line);
    match st.out {
        None => Ok(Seq::empty()),
        Some(Err(e)) => Err(e),
        Some(Ok(t)) => if pos < st.pos2 && st.pos2 <= text.len() {
            match lex_all(text, st.pos2, st.line2) {
                Ok(rest) => Ok(seq![t] + rest),
                Err(e) => Err(e),
            }
        } else {
            // never reached: an emitting step advances (`lemma_lex_step_advances`)
            Err(LexErrV::UnrecognizedChar(' '))
        },
    }
}

// ===================================
// Facts about the scanner
// ===================================
/// A numeric scan never moves backwards nor past the end, and every character
/// it accepted is a digit or a dot.
pub proof fn lemma_scan_number(text: Seq<char>, i: int, seen_dot: bool)
    requires
        0 <= i <= text.len(),
    ensures
        i <= scan_number(text, i, seen_dot).0 <= text.len(),
        forall|j: int|
            i <= j < scan_number(text, i, seen_dot).0 ==> is_digit(#[trigger] text[j]) || text[j]
                == '.',
        scan_number(text, i, seen_dot).1 && seen_dot ==> forall|j: int|
            i <= j < scan_number(text, i, seen_dot).0 ==> #[trigger] text[j] != '.',
        scan_number(text, i, seen_dot).1 ==> forall|j1: int, j2: int|
            i <= j1 < j2 < scan_number(text, i, seen_dot).0 && text[j1] == '.'
                ==> #[trigger] text[j2] != '.' || !(#[trigger] text[j1] == '.'),
    decreases text.len() - i,
{
    if i < text.len() {
        if is_digit(text[i]) {
            lemma_scan_number(text, i + 1, seen_dot);
        } else if text[i] == '.' && !seen_dot {
            lemma_scan_number(text, i + 1, true);
        }
    }
}

/// An identifier scan never moves backwards nor past the end.
pub proof fn lemma_scan_ident(text: Seq<char>, i: int)
    requires
        0 <= i <= text.len(),
    ensures
        i <= scan_ident(text, i) <= text.len(),
    decreases text.len() - i,
{
    if i < text.len() && (alphanumeric_char(text[i]) || text[i] == '_') {
        lemma_scan_ident(text, i + 1);
    }
}

/// A step that emits something advances the cursor, and keeps cursor and line
/// within bounds.
pub proof fn lemma_lex_step_advances(text: Seq<char>, pos: int, line: int)
    requires
        0 <= pos <= text.len(),
        0 <= line <= pos,
    ensures
        lex_step(text, pos, line).out is Some ==> pos < lex_step(text, pos, line).pos2,
        lex_step(text, pos, line).pos2 <= text.len(),
        lex_step(text, pos, line).out is None ==> lex_step(text, pos, line).pos2 == pos,
        line <= lex_step(text, pos, line).line2 <= lex_step(text, pos, line).pos2,
{
    if 0 <= pos < text.len() {
        let c = text[pos];
        if is_digit(c) || c == '.' {
            lemma_scan_number(text, pos + 1, c == '.');
        } else if !(c == '=' || c == '+' || c == '-' || c == '*' || c == '/' || c == '(' || c == ')'
            || c == '\n') && (alphabetic_char(c) || c == '_') {
            lemma_scan_ident(text, pos + 1);
        }
    }
}

/// `pow10` is positive and monotone.
pub proof fn lemma_pow10_le(m: int, n: int)
    requires
        m <= n,
    ensures
        1 <= pow10(m) <= pow10(n),
    decreases n,
{
    if n <= 0 {
    } else if m == n {
        lemma_pow10_le(m - 1, n - 1);
    } else {
        lemma_pow10_le(m, n - 1);
    }
}

// ===================================
// The executable lexer
// ===================================
/// Whether a character is an ASCII digit.
fn is_digit_ch(c: char) -> (r: bool)
    ensures
        r == is_digit(c),
{
    let u = c as u32;
    48 <= u && u <= 57
}

/// Result type of the lexer.
pub type LexResult<T> = Result<T, LexerError>;

/// The stateful lexer: a cursor over the blank-stripped text.
pub struct Lexer {
    text: Vec<char>,
    pos: usize,
    current_line: usize,
}

impl Lexer {
    /// The lexer's cursor stays within the text and behind the line count.
    pub closed spec fn wf(self) -> bool {
        &&& self.pos <= self.text@.len()
        &&& self.current_line <= self.pos
    }

    /// The blank-stripped text this lexer scans.
    pub closed spec fn text_view(self) -> Seq<char> {
        self.text@
    }

    /// The cursor position, in characters of the stripped text.
    pub closed spec fn pos_view(self) -> int {
        self.pos as int
    }

    /// The current 0-based line.
    pub closed spec fn line_view(self) -> int {
        self.current_line as int
    }

    /// Makes a lexer over `text` with every space and tab removed and the
    /// cursor at the start of line 0.
    pub fn new(text: &str) -> (r: Lexer)
        ensures
            r.wf(),
            r.text_view() == strip_blanks(text@),
            r.pos_view() == 0,
            r.line_view() == 0,
    {
        let n = text.unicode_len();
        let mut stripped: Vec<char> = Vec::new();
        let mut i: usize = 0;
        while i < n
            invariant
                n == text@.len(),
                i <= n,
                stripped@ == strip_blanks(text@.take(i as int)),
            decreases n - i,
        {
            let c = text.get_char(i);
            proof {
                assert(text@.take(i + 1).drop_last() =~= text@.take(i as int));
                assert(text@.take(i + 1).last() == text@[i as int]);
            }
            if c != ' ' && c != '\t' {
                stripped.push(c);
            }
            i += 1;
        }
        proof {
            assert(text@.take(n as int) =~= text@);
        }
        Lexer { text: stripped, pos: 0, current_line: 0 }
    }

    /// Copies the characters `from..to` of the text into a `String`.
    fn chars_string(&self, from: usize, to: usize) -> (r: String)
        requires
            from <= to <= self.text_view().len(),
        ensures
            r@ == self.text_view().subrange(from as int, to as int),
    {
        let mut out = String::new();
        let mut j: usize = from;
        while j < to
            invariant
                from <= j <= to <= self.text@.len(),
                out@ == self.text@.subrange(from as int, j as int),
            decreases to - j,
        {
            push_char(&mut out, self.text[j]);
            proof {
                assert(self.text@.subrange(from as int, j + 1) =~= self.text@.subrange(
                    from as int,
                    j as int,
                ).push(self.text@[j as int]));
            }
            j += 1;
        }
        out
    }

    /// Emits the next token, or `None` at the end of the text. The lexer
    /// takes exactly the step `lex_step` describes: the same token or error,
    /// and the same new cursor and line.
    #[verifier::loop_isolation(false)]
    pub fn next(&mut self) -> (r: Option<LexResult<Token>>)
        requires
            old(self).wf(),
        ensures
            final(self).wf(),
            final(self).text_view() == old(self).text_view(),
            final(self).pos_view() == lex_step(
                old(self).text_view(),
                old(self).pos_view(),
                old(self).line_view(),
            ).pos2,
            final(self).line_view() == lex_step(
                old(self).text_view(),
                old(self).pos_view(),
                old(self).line_view(),
            ).line2,
            (match (
                r,
                lex_step(old(self).text_view(), old(self).pos_view(), old(self).line_view()).out,
            ) {
                (None, None) => true,
                (Some(Ok(t)), Some(Ok(tv))) => t@ == tv,
                (Some(Err(e)), Some(Err(ev))) => e@ == ev,
                _ => false,
            }),
    {
        let ghost text = self.text@;
        let ghost pos0 = self.pos as int;
        let ghost line0 = self.current_line as int;
        if self.pos >= self.text.len() {
            return None;
        }
        let c = self.text[self.pos];
        self.pos = self.pos + 1;
        if c == '=' {
            return Some(Ok(Token { line: self.current_line, token_type: TokenType::Assign }));
        }
        if c == '+' || c == '-' || c == '*' || c == '/' {
            let mut op = String::new();
            push_char(&mut op, c);
            proof {
                assert(op@ =~= seq![c]);
            }
            return Some(Ok(Token { line: self.current_line, token_type: TokenType::Op(op) }));
        }
        if c == '(' {
            return Some(Ok(Token { line: self.current_line, token_type: TokenType::LParen }));
        }
        if c == ')' {
            return Some(Ok(Token { line: self.current_line, token_type: TokenType::RParen }));
        }
        if c == '\n' {
            self.current_line = self.current_line + 1;
            return Some(Ok(Token { line: self.current_line, token_type: TokenType::EndExpr }));
        }
        if is_digit_ch(c) || c == '.' {
            let start = self.pos - 1;
            let ghost seen0 = (c == '.');
            let mut seen_dot = c == '.';
            while self.pos < self.text.len() && (is_digit_ch(self.text[self.pos])
                || self.text[self.pos] == '.')
                invariant
                    self.text@ == text,
                    self.current_line as int == line0,
                    pos0 < self.pos <= text.len(),
                    scan_number(text, pos0 + 1, seen0) == scan_number(
                        text,
                        self.pos as int,
                        seen_dot,
                    ),
                decreases text.len() - self.pos,
            {
                let nc = self.text[self.pos];
                if is_digit_ch(nc) {
                    self.pos = self.pos + 1;
                } else {
                    if seen_dot {
                        let buf = self.chars_string(start, self.pos);
                        proof {
                            assert(scan_number(text, self.pos as int, seen_dot) == (
                                self.pos as int,
                                false,
                            ));
                            assert(buf@ == text.subrange(pos0, self.pos as int));
                        }
                        return Some(Err(LexerError::InvalidNumber(buf)));
                    }
                    seen_dot = true;
                    self.pos = self.pos + 1;
                }
            }
            proof {
                assert(scan_number(text, self.pos as int, seen_dot) == (self.pos as int, true));
            }
            let ghost end = self.pos as int;
            let ghost bs = text.subrange(pos0, end);
            proof {
                lemma_scan_number(text, pos0 + 1, seen0);
                assert(forall|k: int|
                    pos0 <= k < end ==> is_digit(#[trigger] text[k]) || text[k] == '.') by {
                    assert(forall|k: int|
                        pos0 + 1 <= k < end ==> is_digit(#[trigger] text[k]) || text[k] == '.');
                    assert(is_digit(text[pos0]) || text[pos0] == '.');
                }
                // a well-formed run holds at most one dot
                assert(forall|j1: int, j2: int|
                    pos0 <= j1 < j2 < end && text[j1] == '.' ==> #[trigger] text[j2] != '.' || !(
                    #[trigger] text[j1] == '.'));
            }
            let buf = self.chars_string(start, self.pos);
            if self.pos == start + 1 && c == '.' {
                return Some(
                    Err(LexerError::ParseError(buf, String::from_str("is not a number"))),
                );
            }
            let mut m: i64 = 0;
            let mut den: i64 = 1;
            let mut seen2: bool = false;
            let ghost mut dcount: int = 0;
            let mut j = start;
            proof {
                assert(bs.skip(0) =~= bs);
            }
            while j < self.pos
                invariant
                    self.text@ == text,
                    self.current_line as int == line0,
                    start as int == pos0,
                    self.pos as int == end,
                    line0 <= pos0 < end <= text.len(),
                    start <= j <= self.pos,
                    bs == text.subrange(pos0, end),
                    forall|k: int| pos0 <= k < end ==> is_digit(#[trigger] text[k]) || text[k] == '.',
                    0 <= m <= i64::MAX,
                    1 <= den <= i64::MAX,
                    mantissa_rec(bs, 0) == mantissa_rec(bs.skip(j - start), m as int),
                    mantissa_fits_rec(bs, 0) == mantissa_fits_rec(bs.skip(j - start), m as int),
                    !seen2 ==> frac_digits(bs) == frac_digits(bs.skip(j - start)) && den == 1
                        && dcount == 0,
                    seen2 ==> frac_digits(bs) == dcount + (bs.len() - (j - start)) && den as int
                        == pow10(dcount) && dcount >= 0,
                    seen2 ==> exists|jd: int| pos0 <= jd < j && #[trigger] text[jd] == '.',
                decreases self.pos - j,
            {
                let nc = self.text[j];
                let ghost k = j - start;
                proof {
                    assert(bs[k] == text[j as int]);
                    assert(bs.skip(k)[0] == bs[k]);
                    assert(bs.skip(k).drop_first() =~= bs.skip(k + 1));
                }
                if nc == '.' {
                    proof {
                        if seen2 {
                            let jd = choose|jd: int| pos0 <= jd < j && #[trigger] text[jd] == '.';
                            assert(text[j as int] != '.');
                            assert(false);
                        }
                        assert(text[j as int] == '.');
                    }
                    seen2 = true;
                    proof {
                        dcount = 0;
                    }
                } else {
                    let d = nc as u32 - 48;
                    let t = m as i128 * 10 + d as i128;
                    if t > i64::MAX as i128 {
                        return Some(
                            Err(
                                LexerError::ParseError(
                                    buf,
                                    String::from_str("does not fit in the numeric range"),
                                ),
                            ),
                        );
                    }
                    m = t as i64;
                    if seen2 {
                        if den > i64::MAX / 10 {
                            proof {
                                lemma_pow10_le(dcount + 1, frac_digits(bs));
                            }
                            return Some(
                                Err(
                                    LexerError::ParseError(
                                        buf,
                                        String::from_str("does not fit in the numeric range"),
                                    ),
                                ),
                            );
                        }
                        den = den * 10;
                        proof {
                            dcount = dcount + 1;
                        }
                    }
                }
                j += 1;
            }
            proof {
                assert(bs.skip(bs.len() as int) =~= Seq::empty());
            }
            return Some(
                Ok(
                    Token {
                        line: self.current_line,
                        token_type: TokenType::Number(Rational { num: m, den }),
                    },
                ),
            );
        }
        if is_alphabetic_char(c) || c == '_' {
            let start = self.pos - 1;
            while self.pos < self.text.len() && (is_alphanumeric_char(self.text[self.pos])
                || self.text[self.pos] == '_')
                invariant
                    self.text@ == text,
                    self.current_line as int == line0,
                    pos0 < self.pos <= text.len(),
                    scan_ident(text, pos0 + 1) == scan_ident(text, self.pos as int),
                decreases text.len() - self.pos,
            {
                self.pos = self.pos + 1;
            }
            proof {
                assert(scan_ident(text, self.pos as int) == self.pos as int);
            }
            let name = self.chars_string(start, self.pos);
            return Some(Ok(Token { line: self.current_line, token_type: TokenType::Ident(name) }));
        }
        Some(Err(LexerError::UnrecognizedChar(c)))
    }
}

/// The views of a sequence of tokens.
pub open spec fn token_views(ts: Seq<Token>) -> Seq<TokenV> {
    ts.map_values(|t: Token| t@)
}

/// Lexes a whole source string: every token of it in order, or the first
/// lexical error, exactly as `lex_all` describes over the blank-stripped
/// text.
pub fn tokenize(s: &str) -> (r: Result<Vec<Token>, LexerError>)
    ensures
        (match r {
            Ok(v) => lex_all(strip_blanks(s@), 0, 0) == Ok::<Seq<TokenV>, LexErrV>(
                token_views(v@),
            ),
            Err(e) => lex_all(strip_blanks(s@), 0, 0) == Err::<Seq<TokenV>, LexErrV>(e@),
        }),
{
    let mut lx = Lexer::new(s);
    let mut out: Vec<Token> = Vec::new();
    loop
        invariant
            lx.wf(),
            lx.text_view() == strip_blanks(s@),
            (match lex_all(lx.text_view(), lx.pos_view(), lx.line_view()) {
                Ok(rest) => lex_all(strip_blanks(s@), 0, 0) == Ok::<Seq<TokenV>, LexErrV>(
                    token_views(out@) + rest,
                ),
                Err(e) => lex_all(strip_blanks(s@), 0, 0) == Err::<Seq<TokenV>, LexErrV>(e),
            }),
        decreases lx.text_view().len() - lx.pos_view(),
    {
        proof {
            lemma_lex_step_advances(lx.text_view(), lx.pos_view(), lx.line_view());
        }
        let ghost pre = lx;
        match lx.next() {
            None => {
                proof {
                    assert(token_views(out@) + Seq::<TokenV>::empty() =~= token_views(out@));
                }
                return Ok(out);
            },
            Some(Ok(t)) => {
                let ghost prev = out@;
                let ghost tv = t@;
                out.push(t);
                proof {
                    assert(token_views(prev.push(t)) =~= token_views(prev).push(tv));
                    match lex_all(lx.text_view(), lx.pos_view(), lx.line_view()) {
                        Ok(rest) => {
                            assert(token_views(prev) + (seq![tv] + rest) =~= token_views(
                                prev.push(t),
                            ) + rest);
                        },
                        Err(e) => {},
                    }
                }
            },
            Some(Err(e)) => {
                return Err(e);
            },
        }
    }
}

} // verus!
