//! Exact rational numbers.
//!
//! Every signal value, amplitude and envelope duration in this crate is an
//! exact fraction: an `i128` numerator over a positive `i128` denominator.
//! The mathematical model of a fraction is [`Frac`], a ghost pair of
//! unbounded integers; two fractions denote the same number exactly when
//! cross-multiplication says so ([`frac_eq`]).

use vstd::prelude::*;

verus! {

/// The mathematical value of a fraction: numerator `n` over denominator `d`.
pub ghost struct Frac {
    pub n: int,
    pub d: int,
}

/// A well-formed fraction has a positive denominator.
pub open spec fn frac_wf(f: Frac) -> bool {
    f.d >= 1
}

/// The whole number `n`, as a fraction.
pub open spec fn frac_int(n: int) -> Frac {
    Frac { n, d: 1 }
}

pub open spec fn frac_zero() -> Frac {
    frac_int(0)
}

pub open spec fn frac_one() -> Frac {
    frac_int(1)
}

/// Sum of two fractions, over the product denominator.
pub open spec fn frac_add(a: Frac, b: Frac) -> Frac {
    Frac { n: a.n * b.d + b.n * a.d, d: a.d * b.d }
}

/// Difference of two fractions, over the product denominator.
pub open spec fn frac_sub(a: Frac, b: Frac) -> Frac {
    Frac { n: a.n * b.d - b.n * a.d, d: a.d * b.d }
}

/// Product of two fractions.
pub open spec fn frac_mul(a: Frac, b: Frac) -> Frac {
    Frac { n: a.n * b.n, d: a.d * b.d }
}

/// Quotient `a / b`, meaningful when `b` is positive.
pub open spec fn frac_div(a: Frac, b: Frac) -> Frac {
    Frac { n: a.n * b.d, d: a.d * b.n }
}

/// Negation of a fraction.
pub open spec fn frac_neg(a: Frac) -> Frac {
    Frac { n: -a.n, d: a.d }
}

/// `a` and `b` denote the same rational number.
pub open spec fn frac_eq(a: Frac, b: Frac) -> bool {
    a.n * b.d == b.n * a.d
}

/// `a <= b` as rational numbers (for positive denominators).
pub open spec fn frac_le(a: Frac, b: Frac) -> bool {
    a.n * b.d <= b.n * a.d
}

/// `a < b` as rational numbers (for positive denominators).
pub open spec fn frac_lt(a: Frac, b: Frac) -> bool {
    a.n * b.d < b.n * a.d
}

/// An exact fraction: `num / den`, with `den >= 1`.
#[derive(Clone, Copy, Debug, PartialEq, Eq, Structural)]
pub struct Ratio {
    pub num: i128,
    pub den: i128,
}

impl View for Ratio {
    type V = Frac;

    open spec fn view(&self) -> Frac {
        Frac { n: self.num as int, d: self.den as int }
    }
}

impl Ratio {
    /// A valid `Ratio` keeps its denominator positive.
    pub open spec fn wf(&self) -> bool {
        self.den >= 1
    }

    pub fn new(num: i128, den: i128) -> (r: Ratio)
        requires
            den >= 1,
        ensures
            r.num == num,
            r.den == den,
            r.wf(),
    {
        Ratio { num, den }
    }

    pub fn zero() -> (r: Ratio)
        ensures
            r@ == frac_zero(),
            r.wf(),
    {
        Ratio { num: 0, den: 1 }
    }

    pub fn one() -> (r: Ratio)
        ensures
            r@ == frac_one(),
            r.wf(),
    {
        Ratio { num: 1, den: 1 }
    }

    pub fn from_int(n: i128) -> (r: Ratio)
        ensures
            r@ == frac_int(n as int),
            r.wf(),
    {
        Ratio { num: n, den: 1 }
    }

    /// Exact sum, over the product denominator.
    pub fn add(&self, other: &Ratio) -> (r: Ratio)
        requires
            self.wf(),
            other.wf(),
            i128::MIN <= self.num * other.den <= i128::MAX,
            i128::MIN <= other.num * self.den <= i128::MAX,
            i128::MIN <= self.num * other.den + other.num * self.den <= i128::MAX,
            self.den * other.den <= i128::MAX,
        ensures
            r@ == frac_add(self@, other@),
            r.wf(),
    {
        proof {
            lemma_pos_mul_pos(self.den as int, other.den as int);
        }
        Ratio { num: self.num * other.den + other.num * self.den, den: self.den * other.den }
    }

    /// Exact difference, over the product denominator.
    pub fn sub(&self, other: &Ratio) -> (r: Ratio)
        requires
            self.wf(),
            other.wf(),
            i128::MIN <= self.num * other.den <= i128::MAX,
            i128::MIN <= other.num * self.den <= i128::MAX,
            i128::MIN <= self.num * other.den - other.num * self.den <= i128::MAX,
            self.den * other.den <= i128::MAX,
        ensures
            r@ == frac_sub(self@, other@),
            r.wf(),
    {
        proof {
            lemma_pos_mul_pos(self.den as int, other.den as int);
        }
        Ratio { num: self.num * other.den - other.num * self.den, den: self.den * other.den }
    }

    /// Exact product.
    pub fn mul(&self, other: &Ratio) -> (r: Ratio)
        requires
            self.wf(),
            other.wf(),
            i128::MIN <= self.num * other.num <= i128::MAX,
            self.den * other.den <= i128::MAX,
        ensures
            r@ == frac_mul(self@, other@),
            r.wf(),
    {
        proof {
            lemma_pos_mul_pos(self.den as int, other.den as int);
        }
        Ratio { num: self.num * other.num, den: self.den * other.den }
    }

    /// Exact comparison: do the two fractions denote the same number?
    pub fn value_eq(&self, other: &Ratio) -> (r: bool)
        requires
            self.wf(),
            other.wf(),
            i128::MIN <= self.num * other.den <= i128::MAX,
            i128::MIN <= other.num * self.den <= i128::MAX,
        ensures
            r == frac_eq(self@, other@),
    {
        self.num * other.den == other.num * self.den
    }

    /// Exact comparison: `self <= other` as rational numbers.
    pub fn le(&self, other: &Ratio) -> (r: bool)
        requires
            self.wf(),
            other.wf(),
            i128::MIN <= self.num * other.den <= i128::MAX,
            i128::MIN <= other.num * self.den <= i128::MAX,
        ensures
            r == frac_le(self@, other@),
    {
        self.num * other.den <= other.num * self.den
    }

    /// Exact comparison: `self < other` as rational numbers.
    pub fn lt(&self, other: &Ratio) -> (r: bool)
        requires
            self.wf(),
            other.wf(),
            i128::MIN <= self.num * other.den <= i128::MAX,
            i128::MIN <= other.num * self.den <= i128::MAX,
        ensures
            r == frac_lt(self@, other@),
    {
        self.num * other.den < other.num * self.den
    }
}

/// Cross-multiplication comparisons for fractions with known parts; with
/// literal parts the products fold to constants.
pub proof fn lemma_frac_cmp_parts(a: Frac, b: Frac, an: int, ad: int, bn: int, bd: int)
    requires
        a.n == an,
        a.d == ad,
        b.n == bn,
        b.d == bd,
    ensures
        frac_lt(a, b) <==> an * bd < bn * ad,
        frac_le(a, b) <==> an * bd <= bn * ad,
        frac_eq(a, b) <==> an * bd == bn * ad,
{
}

/// The difference of two fractions with known parts; with literal parts the
/// products fold to constants.
pub proof fn lemma_frac_sub_parts(a: Frac, b: Frac, an: int, ad: int, bn: int, bd: int)
    requires
        a.n == an,
        a.d == ad,
        b.n == bn,
        b.d == bd,
    ensures
        frac_sub(a, b) == (Frac { n: an * bd - bn * ad, d: ad * bd }),
{
}

/// `<=` on fractions with positive denominators is transitive.
pub proof fn lemma_frac_le_trans(a: Frac, b: Frac, c: Frac)
    requires
        frac_wf(a),
        frac_wf(b),
        frac_wf(c),
        frac_le(a, b),
        frac_le(b, c),
    ensures
        frac_le(a, c),
{
    assert(a.n * c.d <= c.n * a.d) by (nonlinear_arith)
        requires
            a.d >= 1,
            b.d >= 1,
            c.d >= 1,
            a.n * b.d <= b.n * a.d,
            b.n * c.d <= c.n * b.d,
    ;
}

/// Adding a non-negative fraction never decreases the sum.
pub proof fn lemma_frac_add_increases(a: Frac, b: Frac)
    requires
        frac_wf(a),
        frac_wf(b),
        b.n >= 0,
    ensures
        frac_le(a, frac_add(a, b)),
        frac_wf(frac_add(a, b)),
{
    assert(a.n * (a.d * b.d) <= (a.n * b.d + b.n * a.d) * a.d && a.d * b.d >= 1)
        by (nonlinear_arith)
        requires
            a.d >= 1,
            b.d >= 1,
            b.n >= 0,
    ;
}

/// `<=` carries across an equality on its right side.
pub proof fn lemma_frac_le_eq_right(a: Frac, b: Frac, c: Frac)
    requires
        frac_wf(a),
        frac_wf(b),
        frac_wf(c),
        frac_le(a, b),
        frac_eq(b, c),
    ensures
        frac_le(a, c),
{
    assert(a.n * c.d <= c.n * a.d) by (nonlinear_arith)
        requires
            a.d >= 1,
            b.d >= 1,
            c.d >= 1,
            a.n * b.d <= b.n * a.d,
            b.n * c.d == c.n * b.d,
    ;
}

/// `<=` carries across an equality on its left side.
pub proof fn lemma_frac_eq_le_left(a: Frac, b: Frac, c: Frac)
    requires
        frac_wf(a),
        frac_wf(b),
        frac_wf(c),
        frac_eq(a, b),
        frac_le(b, c),
    ensures
        frac_le(a, c),
{
    assert(a.n * c.d <= c.n * a.d) by (nonlinear_arith)
        requires
            a.d >= 1,
            b.d >= 1,
            c.d >= 1,
            a.n * b.d == b.n * a.d,
            b.n * c.d <= c.n * b.d,
    ;
}

/// Two-sided bounds add: values within `[-ub_a, ub_a]` and `[-ub_b, ub_b]`
/// sum to a value within `[-(ub_a + ub_b), ub_a + ub_b]`.
pub proof fn lemma_frac_add_abs_bound(a: Frac, b: Frac, ub_a: Frac, ub_b: Frac)
    requires
        frac_wf(a),
        frac_wf(b),
        frac_wf(ub_a),
        frac_wf(ub_b),
        frac_le(frac_neg(ub_a), a),
        frac_le(a, ub_a),
        frac_le(frac_neg(ub_b), b),
        frac_le(b, ub_b),
    ensures
        frac_le(frac_neg(frac_add(ub_a, ub_b)), frac_add(a, b)),
        frac_le(frac_add(a, b), frac_add(ub_a, ub_b)),
        frac_wf(frac_add(a, b)),
        frac_wf(frac_add(ub_a, ub_b)),
{
    assert(a.n * b.d * (ub_a.d * ub_b.d) <= ub_a.n * ub_b.d * (a.d * b.d) && (-(ub_a.n * ub_b.d))
        * (a.d * b.d) <= a.n * b.d * (ub_a.d * ub_b.d)) by (nonlinear_arith)
        requires
            a.d >= 1,
            b.d >= 1,
            ub_a.d >= 1,
            ub_b.d >= 1,
            a.n * ub_a.d <= ub_a.n * a.d,
            (-ub_a.n) * a.d <= a.n * ub_a.d,
    ;
    assert(b.n * a.d * (ub_a.d * ub_b.d) <= ub_b.n * ub_a.d * (a.d * b.d) && (-(ub_b.n * ub_a.d))
        * (a.d * b.d) <= b.n * a.d * (ub_a.d * ub_b.d)) by (nonlinear_arith)
        requires
            a.d >= 1,
            b.d >= 1,
            ub_a.d >= 1,
            ub_b.d >= 1,
            b.n * ub_b.d <= ub_b.n * b.d,
            (-ub_b.n) * b.d <= b.n * ub_b.d,
    ;
    assert((a.n * b.d + b.n * a.d) * (ub_a.d * ub_b.d) <= (ub_a.n * ub_b.d + ub_b.n * ub_a.d) * (
    a.d * b.d) && (-(ub_a.n * ub_b.d + ub_b.n * ub_a.d)) * (a.d * b.d) <= (a.n * b.d + b.n * a.d)
        * (ub_a.d * ub_b.d)) by (nonlinear_arith)
        requires
            a.n * b.d * (ub_a.d * ub_b.d) <= ub_a.n * ub_b.d * (a.d * b.d),
            (-(ub_a.n * ub_b.d)) * (a.d * b.d) <= a.n * b.d * (ub_a.d * ub_b.d),
            b.n * a.d * (ub_a.d * ub_b.d) <= ub_b.n * ub_a.d * (a.d * b.d),
            (-(ub_b.n * ub_a.d)) * (a.d * b.d) <= b.n * a.d * (ub_a.d * ub_b.d),
    ;
    lemma_pos_mul_pos(a.d, b.d);
    lemma_pos_mul_pos(ub_a.d, ub_b.d);
}

/// Scaling by a non-negative factor keeps a two-sided bound, scaled: a value
/// within `[-ub, ub]` times `c >= 0` stays within `[-(ub * c), ub * c]`.
pub proof fn lemma_frac_mul_scale_bound(x: Frac, c: Frac, ub: Frac)
    requires
        frac_wf(x),
        frac_wf(c),
        frac_wf(ub),
        c.n >= 0,
        frac_le(frac_neg(ub), x),
        frac_le(x, ub),
    ensures
        frac_le(frac_neg(frac_mul(ub, c)), frac_mul(x, c)),
        frac_le(frac_mul(x, c), frac_mul(ub, c)),
        frac_wf(frac_mul(x, c)),
        frac_wf(frac_mul(ub, c)),
{
    assert((x.n * c.n) * (ub.d * c.d) <= (ub.n * c.n) * (x.d * c.d) && (-(ub.n * c.n)) * (x.d
        * c.d) <= (x.n * c.n) * (ub.d * c.d) && x.d * c.d >= 1 && ub.d * c.d >= 1)
        by (nonlinear_arith)
        requires
            x.d >= 1,
            c.d >= 1,
            ub.d >= 1,
            c.n >= 0,
            x.n * ub.d <= ub.n * x.d,
            (-ub.n) * x.d <= x.n * ub.d,
    ;
}

/// Scaling by a factor in `[0, 1]` cannot enlarge a two-sided bound.
pub proof fn lemma_frac_mul_unit_bound(x: Frac, y: Frac, ub: Frac)
    requires
        frac_wf(x),
        frac_wf(y),
        frac_wf(ub),
        0 <= y.n <= y.d,
        ub.n >= 0,
        frac_le(frac_neg(ub), x),
        frac_le(x, ub),
    ensures
        frac_le(frac_neg(ub), frac_mul(x, y)),
        frac_le(frac_mul(x, y), ub),
        frac_wf(frac_mul(x, y)),
{
    assert((x.n * y.n) * ub.d <= ub.n * (x.d * y.d) && (-ub.n) * (x.d * y.d) <= (x.n * y.n) * ub.d
        && x.d * y.d >= 1) by (nonlinear_arith)
        requires
            x.d >= 1,
            y.d >= 1,
            ub.d >= 1,
            0 <= y.n <= y.d,
            ub.n >= 0,
            x.n * ub.d <= ub.n * x.d,
            (-ub.n) * x.d <= x.n * ub.d,
    ;
}

/// A product of positive numbers is positive.
pub proof fn lemma_pos_mul_pos(a: int, b: int)
    requires
        a >= 1,
        b >= 1,
    ensures
        a * b >= 1,
        a * b >= a,
        a * b >= b,
{
    assert(a * b >= 1 && a * b >= a && a * b >= b) by (nonlinear_arith)
        requires
            a >= 1,
            b >= 1,
    ;
}

/// A product of numbers bounded in magnitude is bounded by the product of
/// the bounds.
pub proof fn lemma_mul_bounds(x: int, y: int, a: int, b: int)
    requires
        -a <= x <= a,
        -b <= y <= b,
        0 <= a,
        0 <= b,
    ensures
        -(a * b) <= x * y <= a * b,
{
    assert(-(a * b) <= x * y <= a * b) by (nonlinear_arith)
        requires
            -a <= x <= a,
            -b <= y <= b,
            0 <= a,
            0 <= b,
    ;
}

} // verus!
