//! Exact rational numbers with `i64` numerator and denominator.
//!
//! Every value the language computes is a `Rational`. The arithmetic
//! operations are exact: each returns `Some` with the mathematically exact
//! (unreduced) result when its numerator and denominator fit in `i64`, and
//! `None` otherwise, so no operation can overflow, round, or divide by zero
//! silently.

use vstd::prelude::*;
use vstd::string::StringExecFns;
use crate::text::push_char;

verus! {

/// Mathematical value of a rational: an unbounded numerator/denominator pair.
pub ghost struct RatV {
    pub num: int,
    pub den: int,
}

/// A rational number. Well-formed values keep `den > 0`; the sign lives in
/// `num`. Values are not reduced: `3.14` lexes to `314/100`.
#[derive(Clone, Copy, Debug, PartialEq, Eq, Structural)]
pub struct Rational {
    pub num: i64,
    pub den: i64,
}

impl View for Rational {
    type V = RatV;

    open spec fn view(&self) -> RatV {
        RatV { num: self.num as int, den: self.den as int }
    }
}

/// The exact sum of two rationals, as an unbounded pair.
pub open spec fn rat_add(a: RatV, b: RatV) -> RatV {
    RatV { num: a.num * b.den + b.num * a.den, den: a.den * b.den }
}

/// The exact difference of two rationals, as an unbounded pair.
pub open spec fn rat_sub(a: RatV, b: RatV) -> RatV {
    RatV { num: a.num * b.den - b.num * a.den, den: a.den * b.den }
}

/// The exact product of two rationals, as an unbounded pair.
pub open spec fn rat_mul(a: RatV, b: RatV) -> RatV {
    RatV { num: a.num * b.num, den: a.den * b.den }
}

/// The exact quotient of two rationals, as an unbounded pair; the sign of the
/// divisor moves into the numerator so that the denominator stays positive.
pub open spec fn rat_div(a: RatV, b: RatV) -> RatV {
    if b.num < 0 {
        RatV { num: -(a.num * b.den), den: -(a.den * b.num) }
    } else {
        RatV { num: a.num * b.den, den: a.den * b.num }
    }
}

/// The exact negation of a rational.
pub open spec fn rat_neg(a: RatV) -> RatV {
    RatV { num: -a.num, den: a.den }
}

/// Whether an unbounded pair fits back into a well-formed `Rational`.
pub open spec fn rat_fits(v: RatV) -> bool {
    &&& i64::MIN <= v.num <= i64::MAX
    &&& 1 <= v.den <= i64::MAX
}

impl Rational {
    /// A well-formed rational keeps its denominator positive.
    pub open spec fn wf(self) -> bool {
        self.den > 0
    }

    /// The rational with value zero.
    pub fn zero() -> (r: Rational)
        ensures
            r.wf(),
            r@ == (RatV { num: 0, den: 1 }),
    {
        Rational { num: 0, den: 1 }
    }

    /// The rational with a given integer value.
    pub fn from_int(n: i64) -> (r: Rational)
        ensures
            r.wf(),
            r@ == (RatV { num: n as int, den: 1 }),
    {
        Rational { num: n, den: 1 }
    }

    /// Whether this rational denotes zero.
    pub fn is_zero(self) -> (r: bool)
        ensures
            r == (self@.num == 0),
    {
        self.num == 0
    }

    /// Exact addition: `Some` iff the exact sum fits in `i64` fields.
    pub fn add(self, other: Rational) -> (r: Option<Rational>)
        ensures
            (match r {
                Some(q) => q.wf() && rat_fits(rat_add(self@, other@)) && q@ == rat_add(
                    self@,
                    other@,
                ),
                None => !rat_fits(rat_add(self@, other@)),
            }),
    {
        proof {
            lemma_mul_range_full(self.num as int, other.den as int);
            lemma_mul_range_full(other.num as int, self.den as int);
            lemma_mul_range_full(self.den as int, other.den as int);
        }
        let p1: i128 = self.num as i128 * other.den as i128;
        let p2: i128 = other.num as i128 * self.den as i128;
        let d: i128 = self.den as i128 * other.den as i128;
        match p1.checked_add(p2) {
            Some(n) => Self::pack(n, d),
            None => None,
        }
    }

    /// Exact subtraction: `Some` iff the exact difference fits in `i64` fields.
    pub fn sub(self, other: Rational) -> (r: Option<Rational>)
        ensures
            (match r {
                Some(q) => q.wf() && rat_fits(rat_sub(self@, other@)) && q@ == rat_sub(
                    self@,
                    other@,
                ),
                None => !rat_fits(rat_sub(self@, other@)),
            }),
    {
        proof {
            lemma_mul_range_full(self.num as int, other.den as int);
            lemma_mul_range_full(other.num as int, self.den as int);
            lemma_mul_range_full(self.den as int, other.den as int);
        }
        let n: i128 = self.num as i128 * other.den as i128 - other.num as i128 * self.den as i128;
        let d: i128 = self.den as i128 * other.den as i128;
        Self::pack(n, d)
    }

    /// Exact multiplication: `Some` iff the exact product fits in `i64` fields.
    pub fn mul(self, other: Rational) -> (r: Option<Rational>)
        ensures
            (match r {
                Some(q) => q.wf() && rat_fits(rat_mul(self@, other@)) && q@ == rat_mul(
                    self@,
                    other@,
                ),
                None => !rat_fits(rat_mul(self@, other@)),
            }),
    {
        proof {
            lemma_mul_range_full(self.num as int, other.num as int);
            lemma_mul_range_full(self.den as int, other.den as int);
        }
        let n: i128 = self.num as i128 * other.num as i128;
        let d: i128 = self.den as i128 * other.den as i128;
        Self::pack(n, d)
    }

    /// Exact division by a non-zero rational: `Some` iff the exact quotient
    /// fits in `i64` fields.
    pub fn div(self, other: Rational) -> (r: Option<Rational>)
        requires
            other@.num != 0,
        ensures
            (match r {
                Some(q) => q.wf() && rat_fits(rat_div(self@, other@)) && q@ == rat_div(
                    self@,
                    other@,
                ),
                None => !rat_fits(rat_div(self@, other@)),
            }),
    {
        proof {
            lemma_mul_range_full(self.num as int, other.den as int);
            lemma_mul_range_full(self.den as int, other.num as int);
        }
        let n: i128 = self.num as i128 * other.den as i128;
        let d: i128 = self.den as i128 * other.num as i128;
        if other.num < 0 {
            Self::pack(-n, -d)
        } else {
            Self::pack(n, d)
        }
    }

    /// Exact negation: `Some` iff the negated numerator fits in `i64`.
    pub fn neg(self) -> (r: Option<Rational>)
        ensures
            (match r {
                Some(q) => q.wf() && rat_fits(rat_neg(self@)) && q@ == rat_neg(self@),
                None => !rat_fits(rat_neg(self@)),
            }),
    {
        if self.num == i64::MIN || self.den < 1 {
            None
        } else {
            Some(Rational { num: -self.num, den: self.den })
        }
    }


    /// Renders this rational as text, exactly as `rat_text` describes: the
    /// numerator, then `/` and the denominator unless it is one.
    pub fn to_text(self) -> (r: String)
        ensures
            r@ == rat_text(self),
    {
        let mut out = i64_text(self.num);
        if self.den != 1 {
            out.append("/");
            let ds = i64_text(self.den);
            out.append(ds.as_str());
        }
        out
    }

    /// Range-checks an exact pair back into `i64` fields.
    fn pack(n: i128, d: i128) -> (r: Option<Rational>)
        ensures
            (match r {
                Some(q) => q.wf() && rat_fits(RatV { num: n as int, den: d as int }) && q@ == (RatV {
                    num: n as int,
                    den: d as int,
                }),
                None => !rat_fits(RatV { num: n as int, den: d as int }),
            }),
    {
        if n >= i64::MIN as i128 && n <= i64::MAX as i128 && d >= 1 && d <= i64::MAX as i128 {
            Some(Rational { num: n as i64, den: d as i64 })
        } else {
            None
        }
    }
}

proof fn lemma_mul_range_full(a: int, b: int)
    by (nonlinear_arith)
    requires
        i64::MIN <= a <= i64::MAX,
        i64::MIN <= b <= i64::MAX,
    ensures
        i64::MIN * i64::MAX <= a * b <= i64::MIN * i64::MIN,
        a != 0 && b != 0 ==> a * b != 0,
        a > 0 && b > 0 ==> a * b >= 1,
        a > 0 && b < 0 ==> a * b <= -1,
        a < 0 && b > 0 ==> a * b <= -1,
        a < 0 && b < 0 ==> a * b >= 1,
{
}


/// The decimal digit character of `d`.
pub open spec fn dchar(d: int) -> char {
    ((48 + d) as u8) as char
}

/// The decimal text of a nonnegative integer.
pub open spec fn nat_text(n: int) -> Seq<char>
    decreases n,
{
    if n < 10 {
        seq![dchar(n)]
    } else {
        nat_text(n / 10).push(dchar(n % 10))
    }
}

/// The decimal text of an integer, with a leading minus for negatives.
pub open spec fn int_text(v: int) -> Seq<char> {
    if v < 0 {
        seq!['-'] + nat_text(-v)
    } else {
        nat_text(v)
    }
}

/// The text of a rational: the numerator, then `/` and the denominator
/// unless the denominator is one.
pub open spec fn rat_text(r: Rational) -> Seq<char> {
    if r.den == 1 {
        int_text(r.num as int)
    } else {
        int_text(r.num as int) + "/"@ + int_text(r.den as int)
    }
}

/// The decimal text of a `u64`.
fn u64_text(n: u64) -> (r: String)
    ensures
        r@ == nat_text(n as int),
{
    let mut rev_digits: Vec<char> = Vec::new();
    let mut cur: u64 = n;
    proof {
        assert(nat_text(n as int) =~= nat_text(cur as int) + rev_digits@.reverse());
    }
    while cur >= 10
        invariant
            nat_text(n as int) == nat_text(cur as int) + rev_digits@.reverse(),
        decreases cur,
    {
        let d = ((48 + (cur % 10)) as u8) as char;
        let ghost prev = rev_digits@;
        rev_digits.push(d);
        proof {
            assert(d == dchar(cur as int % 10));
            assert(rev_digits@.reverse() =~= seq![d] + prev.reverse());
            assert(nat_text(cur as int / 10) + (seq![d] + prev.reverse()) =~= nat_text(
                cur as int / 10,
            ).push(d) + prev.reverse());
        }
        cur = cur / 10;
    }
    let mut out = String::new();
    push_char(&mut out, ((48 + cur) as u8) as char);
    proof {
        assert(out@ =~= seq![dchar(cur as int)]);
        assert(out@ == nat_text(cur as int));
    }
    let mut j: usize = 0;
    proof {
        assert(rev_digits@.reverse().take(0) =~= Seq::<char>::empty());
        assert(out@ + rev_digits@.reverse().take(0) =~= out@);
    }
    while j < rev_digits.len()
        invariant
            j <= rev_digits@.len(),
            cur < 10,
            nat_text(n as int) == nat_text(cur as int) + rev_digits@.reverse(),
            out@ == nat_text(cur as int) + rev_digits@.reverse().take(j as int),
        decreases rev_digits@.len() - j,
    {
        let c = rev_digits[rev_digits.len() - 1 - j];
        push_char(&mut out, c);
        proof {
            assert(rev_digits@.reverse()[j as int] == rev_digits@[rev_digits@.len() - 1 - j]);
            assert(rev_digits@.reverse().take(j + 1) =~= rev_digits@.reverse().take(
                j as int,
            ).push(rev_digits@.reverse()[j as int]));
            assert(nat_text(cur as int) + rev_digits@.reverse().take(j + 1) =~= (nat_text(
                cur as int,
            ) + rev_digits@.reverse().take(j as int)).push(c));
        }
        j += 1;
    }
    proof {
        assert(rev_digits@.reverse().take(rev_digits@.len() as int) =~= rev_digits@.reverse());
    }
    out
}

/// The decimal text of an `i64`, minus sign included.
fn i64_text(v: i64) -> (r: String)
    ensures
        r@ == int_text(v as int),
{
    if v >= 0 {
        u64_text(v as u64)
    } else {
        let mag: u64 = if v == i64::MIN {
            9223372036854775808
        } else {
            (-v) as u64
        };
        proof {
            assert(mag as int == -(v as int));
        }
        let mut out = String::new();
        push_char(&mut out, '-');
        let ds = u64_text(mag);
        out.append(ds.as_str());
        proof {
            assert(out@ =~= seq!['-'] + nat_text(mag as int));
        }
        out
    }
}

} // verus!
