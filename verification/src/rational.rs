//! Exact rational arithmetic for prices, quantities and balances.
//!
//! A [`Rational`] is a fraction of two machine integers with a positive
//! denominator.  Its mathematical value is described by the ghost type
//! [`Rat`], a fraction of unbounded integers, and every operation states
//! exactly which value it produces.  Results are brought to smaller terms
//! when possible; an operation whose raw result does not fit the machine
//! representation reports `None` instead of overflowing.

use vstd::prelude::*;

verus! {

/// The mathematical value of a fraction: numerator `n` over denominator `d`.
/// Ghost only; `d` is positive for every well-formed value.
pub struct Rat {
    pub n: int,
    pub d: int,
}

pub open spec fn rat_wf(a: Rat) -> bool {
    a.d > 0
}

pub open spec fn rat_int(i: int) -> Rat {
    Rat { n: i, d: 1 }
}

/// Value equality of fractions, by cross multiplication.
pub open spec fn rat_eq(a: Rat, b: Rat) -> bool {
    a.n * b.d == b.n * a.d
}

pub open spec fn rat_le(a: Rat, b: Rat) -> bool {
    a.n * b.d <= b.n * a.d
}

pub open spec fn rat_lt(a: Rat, b: Rat) -> bool {
    a.n * b.d < b.n * a.d
}

pub open spec fn rat_add(a: Rat, b: Rat) -> Rat {
    Rat { n: a.n * b.d + b.n * a.d, d: a.d * b.d }
}

pub open spec fn rat_sub(a: Rat, b: Rat) -> Rat {
    Rat { n: a.n * b.d - b.n * a.d, d: a.d * b.d }
}

pub open spec fn rat_neg(a: Rat) -> Rat {
    Rat { n: -a.n, d: a.d }
}

pub open spec fn rat_mul(a: Rat, b: Rat) -> Rat {
    Rat { n: a.n * b.n, d: a.d * b.d }
}

/// Division, with the sign moved into the numerator so that the
/// denominator stays positive whenever `b.n != 0`.
pub open spec fn rat_div(a: Rat, b: Rat) -> Rat {
    if b.n < 0 {
        Rat { n: -(a.n * b.d), d: -(a.d * b.n) }
    } else {
        Rat { n: a.n * b.d, d: a.d * b.n }
    }
}

pub open spec fn iabs(x: int) -> int {
    if x < 0 {
        -x
    } else {
        x
    }
}

/// Euclid's greatest common divisor, as used to bring results to
/// smaller terms.
pub open spec fn spec_gcd(a: int, b: int) -> int
    decreases b,
{
    if b <= 0 {
        a
    } else {
        spec_gcd(b, a % b)
    }
}

/// The magnitude of the numerator after the reduction step that every
/// arithmetic operation applies to its raw result.
pub open spec fn norm_n(p: int, q: int) -> int {
    let pa = iabs(p);
    let g = spec_gcd(pa, q);
    if g > 1 && pa % g == 0 && q % g == 0 {
        pa / g
    } else {
        pa
    }
}

/// The denominator after the same reduction step.
pub open spec fn norm_d(p: int, q: int) -> int {
    let pa = iabs(p);
    let g = spec_gcd(pa, q);
    if g > 1 && pa % g == 0 && q % g == 0 {
        q / g
    } else {
        q
    }
}

/// Whether a raw fraction, after reduction, fits the machine
/// representation.  This is exactly the success condition of the
/// checked operations.
pub open spec fn rat_fits(a: Rat) -> bool {
    norm_n(a.n, a.d) <= i64::MAX && norm_d(a.n, a.d) <= i64::MAX
}

/// The exact fraction that a checked operation stores for the raw
/// result `a`: reduced when the divisibility checks pass, with the
/// sign on the numerator.
pub open spec fn rat_norm(a: Rat) -> Rat {
    if a.n < 0 {
        Rat { n: -norm_n(a.n, a.d), d: norm_d(a.n, a.d) }
    } else {
        Rat { n: norm_n(a.n, a.d), d: norm_d(a.n, a.d) }
    }
}

/// An exact fraction of machine integers with a positive denominator.
#[derive(Clone, Copy, Debug)]
pub struct Rational {
    n: i64,
    d: i64,
}

impl View for Rational {
    type V = Rat;

    closed spec fn view(&self) -> Rat {
        Rat { n: self.n as int, d: self.d as int }
    }
}

impl Rational {
    /// Well-formed: positive denominator, and a numerator whose
    /// negation also fits the machine representation.
    pub open spec fn wf(&self) -> bool {
        self@.d > 0 && self@.n > i64::MIN
    }

    /// The fraction `n / d`; `None` unless `d` is positive and `n` is
    /// representable with its sign flipped.
    pub fn new(n: i64, d: i64) -> (r: Option<Rational>)
        ensures
            r is Some <==> (d > 0 && n > i64::MIN),
            r matches Some(v) ==> v.wf() && v@ == (Rat { n: n as int, d: d as int }),
    {
        if d > 0 && n > i64::MIN {
            Some(Rational { n, d })
        } else {
            None
        }
    }

    pub fn from_int(i: i64) -> (r: Rational)
        requires
            i > i64::MIN,
        ensures
            r.wf(),
            r@ == rat_int(i as int),
    {
        Rational { n: i, d: 1 }
    }

    pub fn zero() -> (r: Rational)
        ensures
            r.wf(),
            r@ == rat_int(0),
    {
        Rational { n: 0, d: 1 }
    }

    pub fn numer(&self) -> (r: i64)
        ensures
            r == self@.n,
    {
        self.n
    }

    pub fn denom(&self) -> (r: i64)
        ensures
            r == self@.d,
    {
        self.d
    }

    /// Whether the value is well-formed; lets unverified inputs be
    /// validated at run time.
    pub fn check_wf(&self) -> (r: bool)
        ensures
            r == self.wf(),
    {
        self.d > 0 && self.n > i64::MIN
    }

    pub fn is_zero(&self) -> (r: bool)
        ensures
            r == (self@.n == 0),
    {
        self.n == 0
    }

    pub fn le(&self, other: &Rational) -> (r: bool)
        ensures
            r == rat_le(self@, other@),
    {
        proof {
            lemma_i64_products_fit(self.n as int, other.d as int, other.n as int, self.d as int);
        }
        (self.n as i128) * (other.d as i128) <= (other.n as i128) * (self.d as i128)
    }

    pub fn lt(&self, other: &Rational) -> (r: bool)
        ensures
            r == rat_lt(self@, other@),
    {
        proof {
            lemma_i64_products_fit(self.n as int, other.d as int, other.n as int, self.d as int);
        }
        (self.n as i128) * (other.d as i128) < (other.n as i128) * (self.d as i128)
    }

    pub fn neg(&self) -> (r: Rational)
        requires
            self.wf(),
        ensures
            r.wf(),
            r@ == rat_neg(self@),
    {
        Rational { n: -self.n, d: self.d }
    }

    pub fn checked_add(&self, other: &Rational) -> (r: Option<Rational>)
        requires
            self.wf(),
            other.wf(),
        ensures
            r is Some <==> rat_fits(rat_add(self@, other@)),
            r matches Some(v) ==> v.wf() && rat_eq(v@, rat_add(self@, other@)) && v@ == rat_norm(
                rat_add(self@, other@),
            ),
    {
        proof {
            lemma_prod_bound(self.n as int, other.d as int);
            lemma_prod_bound(other.n as int, self.d as int);
            lemma_i64_products_fit(self.d as int, other.d as int, self.d as int, other.d as int);
            lemma_pos_prod(self.d as int, other.d as int);
        }
        let p: i128 = (self.n as i128) * (other.d as i128) + (other.n as i128) * (self.d as i128);
        let q: i128 = (self.d as i128) * (other.d as i128);
        Self::norm(p, q)
    }

    pub fn checked_sub(&self, other: &Rational) -> (r: Option<Rational>)
        requires
            self.wf(),
            other.wf(),
        ensures
            r is Some <==> rat_fits(rat_sub(self@, other@)),
            r matches Some(v) ==> v.wf() && rat_eq(v@, rat_sub(self@, other@)) && v@ == rat_norm(
                rat_sub(self@, other@),
            ),
    {
        proof {
            lemma_prod_bound(self.n as int, other.d as int);
            lemma_prod_bound(other.n as int, self.d as int);
            lemma_i64_products_fit(self.d as int, other.d as int, self.d as int, other.d as int);
            lemma_pos_prod(self.d as int, other.d as int);
        }
        let p: i128 = (self.n as i128) * (other.d as i128) - (other.n as i128) * (self.d as i128);
        let q: i128 = (self.d as i128) * (other.d as i128);
        Self::norm(p, q)
    }

    pub fn checked_mul(&self, other: &Rational) -> (r: Option<Rational>)
        requires
            self.wf(),
            other.wf(),
        ensures
            r is Some <==> rat_fits(rat_mul(self@, other@)),
            r matches Some(v) ==> v.wf() && rat_eq(v@, rat_mul(self@, other@)) && v@ == rat_norm(
                rat_mul(self@, other@),
            ),
    {
        proof {
            lemma_i64_products_fit(self.n as int, other.n as int, self.d as int, other.d as int);
            lemma_pos_prod(self.d as int, other.d as int);
        }
        let p: i128 = (self.n as i128) * (other.n as i128);
        let q: i128 = (self.d as i128) * (other.d as i128);
        Self::norm(p, q)
    }

    /// Division; `None` when `other` is zero or the result does not fit.
    pub fn checked_div(&self, other: &Rational) -> (r: Option<Rational>)
        requires
            self.wf(),
            other.wf(),
        ensures
            r is Some <==> (other@.n != 0 && rat_fits(rat_div(self@, other@))),
            r matches Some(v) ==> v.wf() && rat_eq(v@, rat_div(self@, other@)) && v@ == rat_norm(
                rat_div(self@, other@),
            ),
    {
        if other.n == 0 {
            return None;
        }
        proof {
            lemma_i64_products_fit(self.n as int, other.d as int, self.d as int, other.n as int);
            lemma_pos_prod(self.d as int, other.d as int);
        }
        let p0: i128 = (self.n as i128) * (other.d as i128);
        let q0: i128 = (self.d as i128) * (other.n as i128);
        if other.n < 0 {
            proof {
                lemma_neg_flip(self.d as int, other.n as int);
            }
            Self::norm(-p0, -q0)
        } else {
            proof {
                lemma_pos_prod(self.d as int, other.n as int);
            }
            Self::norm(p0, q0)
        }
    }

    /// Brings the raw fraction `p / q` to smaller terms and packs it
    /// into machine integers, reporting `None` when it does not fit.
    fn norm(p: i128, q: i128) -> (r: Option<Rational>)
        requires
            1 <= q,
            i128::MIN < p,
        ensures
            r is Some <==> rat_fits(Rat { n: p as int, d: q as int }),
            r matches Some(v) ==> v.wf() && rat_eq(v@, Rat { n: p as int, d: q as int }) && v@
                == rat_norm(Rat { n: p as int, d: q as int }),
    {
        let pa: i128 = if p < 0 {
            -p
        } else {
            p
        };
        let g: i128 = gcd_i128(pa, q);
        let mut p2: i128 = pa;
        let mut q2: i128 = q;
        if g > 1 && pa % g == 0 && q % g == 0 {
            p2 = pa / g;
            q2 = q / g;
            proof {
                lemma_div_exact(pa as int, g as int);
                lemma_div_exact(q as int, g as int);
                lemma_reduced_value(pa as int, q as int, g as int);
                lemma_quot_pos(q as int, g as int);
            }
        }
        assert(p2 == norm_n(p as int, q as int));
        assert(q2 == norm_d(p as int, q as int));
        assert(p2 * q == pa * q2) by {
            if g > 1 && pa % g == 0 && q % g == 0 {
            } else {
            }
        };
        if p2 <= i64::MAX as i128 && q2 <= i64::MAX as i128 {
            let nm: i64 = if p < 0 {
                -(p2 as i64)
            } else {
                p2 as i64
            };
            let res = Rational { n: nm, d: q2 as i64 };
            proof {
                if p < 0 {
                    assert((-p2) * q == p * q2) by (nonlinear_arith)
                        requires
                            p2 * q == pa * q2,
                            pa == -p,
                    ;
                }
            }
            Some(res)
        } else {
            None
        }
    }
}

impl PartialEq for Rational {
    /// Value equality by cross multiplication: `1/2 == 2/4`.
    fn eq(&self, other: &Self) -> (r: bool) {
        proof {
            lemma_i64_products_fit(self.n as int, other.d as int, other.n as int, self.d as int);
        }
        (self.n as i128) * (other.d as i128) == (other.n as i128) * (self.d as i128)
    }
}

impl vstd::std_specs::cmp::PartialEqSpecImpl for Rational {
    open spec fn obeys_eq_spec() -> bool {
        true
    }

    open spec fn eq_spec(&self, other: &Self) -> bool {
        rat_eq(self@, other@)
    }
}

/// Euclid's algorithm; mirrors [`spec_gcd`] step by step.
fn gcd_i128(a: i128, b: i128) -> (g: i128)
    requires
        0 <= a,
        1 <= b,
    ensures
        g == spec_gcd(a as int, b as int),
        1 <= g,
{
    let mut x: i128 = a;
    let mut y: i128 = b;
    while y > 0
        invariant
            0 <= x,
            0 <= y,
            1 <= x || 1 <= y,
            spec_gcd(x as int, y as int) == spec_gcd(a as int, b as int),
        decreases y,
    {
        let t: i128 = x % y;
        x = y;
        y = t;
    }
    x
}

proof fn lemma_i64_products_fit(a: int, b: int, c: int, e: int)
    requires
        i64::MIN <= a <= i64::MAX,
        i64::MIN <= b <= i64::MAX,
        i64::MIN <= c <= i64::MAX,
        i64::MIN <= e <= i64::MAX,
    ensures
        -0x40000000000000000000000000000000 <= a * b <= 0x40000000000000000000000000000000,
        -0x40000000000000000000000000000000 <= c * e <= 0x40000000000000000000000000000000,
{
    assert(-0x40000000000000000000000000000000 <= a * b <= 0x40000000000000000000000000000000)
        by (nonlinear_arith)
        requires
            -0x8000000000000000 <= a <= 0x7fffffffffffffff,
            -0x8000000000000000 <= b <= 0x7fffffffffffffff,
    ;
    assert(-0x40000000000000000000000000000000 <= c * e <= 0x40000000000000000000000000000000)
        by (nonlinear_arith)
        requires
            -0x8000000000000000 <= c <= 0x7fffffffffffffff,
            -0x8000000000000000 <= e <= 0x7fffffffffffffff,
    ;
}

/// A product of two factors of magnitude below `2^63` stays strictly
/// inside half of the `i128` range, so two such products can be added.
proof fn lemma_prod_bound(a: int, b: int)
    requires
        -0x7fffffffffffffff <= a <= 0x7fffffffffffffff,
        -0x7fffffffffffffff <= b <= 0x7fffffffffffffff,
    ensures
        -0x3fffffffffffffff0000000000000001 <= a * b <= 0x3fffffffffffffff0000000000000001,
{
    assert(-0x3fffffffffffffff0000000000000001 <= a * b <= 0x3fffffffffffffff0000000000000001)
        by (nonlinear_arith)
        requires
            -0x7fffffffffffffff <= a <= 0x7fffffffffffffff,
            -0x7fffffffffffffff <= b <= 0x7fffffffffffffff,
    ;
}

proof fn lemma_pos_prod(a: int, b: int)
    requires
        a > 0,
        b > 0,
    ensures
        a * b >= 1,
{
    assert(a * b >= 1) by (nonlinear_arith)
        requires
            a > 0,
            b > 0,
    ;
}

proof fn lemma_neg_flip(a: int, b: int)
    requires
        a > 0,
        b < 0,
    ensures
        a * b < 0,
{
    assert(a * b < 0) by (nonlinear_arith)
        requires
            a > 0,
            b < 0,
    ;
}

/// `b` divides `a` exactly: the quotient rebuilds `a`.
proof fn lemma_div_exact(a: int, b: int)
    requires
        b >= 1,
        a % b == 0,
    ensures
        a == b * (a / b),
{
    vstd::arithmetic::div_mod::lemma_fundamental_div_mod(a, b);
}

/// Reduction by an exact common divisor preserves the value.
proof fn lemma_reduced_value(pa: int, q: int, g: int)
    requires
        g >= 1,
        pa == g * (pa / g),
        q == g * (q / g),
    ensures
        (pa / g) * q == pa * (q / g),
{
    let p2 = pa / g;
    let q2 = q / g;
    assert(p2 * (g * q2) == (g * p2) * q2) by (nonlinear_arith);
}

proof fn lemma_gcd_pos(a: int, b: int)
    requires
        a >= 0,
        b >= 0,
        a >= 1 || b >= 1,
    ensures
        spec_gcd(a, b) >= 1,
    decreases b,
{
    if b >= 1 {
        lemma_gcd_pos(b, a % b);
    }
}

/// Normalization keeps a fraction well-formed and preserves its value.
pub proof fn lemma_norm_eq(a: Rat)
    requires
        rat_wf(a),
    ensures
        rat_wf(rat_norm(a)),
        rat_eq(rat_norm(a), a),
{
    let pa = iabs(a.n);
    let g = spec_gcd(pa, a.d);
    lemma_gcd_pos(pa, a.d);
    if g > 1 && pa % g == 0 && a.d % g == 0 {
        lemma_div_exact(pa, g);
        lemma_div_exact(a.d, g);
        lemma_reduced_value(pa, a.d, g);
        lemma_quot_pos(a.d, g);
        if a.n < 0 {
            assert((-(pa / g)) * a.d == a.n * (a.d / g)) by (nonlinear_arith)
                requires
                    (pa / g) * a.d == pa * (a.d / g),
                    pa == -a.n,
            ;
        }
    }
}

/// Value equality of well-formed fractions carries over.
pub proof fn lemma_rat_eq_trans(a: Rat, b: Rat, c: Rat)
    requires
        rat_wf(a),
        rat_wf(b),
        rat_wf(c),
        rat_eq(a, b),
        rat_eq(b, c),
    ensures
        rat_eq(a, c),
{
    assert((a.n * c.d - c.n * a.d) * b.d == 0) by (nonlinear_arith)
        requires
            a.n * b.d == b.n * a.d,
            b.n * c.d == c.n * b.d,
    ;
    assert(a.n * c.d == c.n * a.d) by (nonlinear_arith)
        requires
            (a.n * c.d - c.n * a.d) * b.d == 0,
            b.d > 0,
    ;
}

/// Four factors reassociate freely.
proof fn lemma_mul4(x: int, y: int, z: int, w: int)
    ensures
        (x * y) * (z * w) == (x * z) * (y * w),
        (x * y) * (z * w) == (x * w) * (z * y),
{
    assert((x * y) * (z * w) == (x * z) * (y * w)) by (nonlinear_arith);
    assert((x * y) * (z * w) == (x * w) * (z * y)) by (nonlinear_arith);
}

/// A sum distributes over a common factor.
proof fn lemma_distribute(x: int, y: int, z: int)
    ensures
        (x + y) * z == x * z + y * z,
{
    assert((x + y) * z == x * z + y * z) by (nonlinear_arith);
}

/// A difference distributes over a common factor.
proof fn lemma_distribute_sub(x: int, y: int, z: int)
    ensures
        (x - y) * z == x * z - y * z,
{
    assert((x - y) * z == x * z - y * z) by (nonlinear_arith);
}

/// Sums of equal values are equal.
pub proof fn lemma_add_cong(a: Rat, a2: Rat, b: Rat, b2: Rat)
    requires
        rat_wf(a),
        rat_wf(a2),
        rat_wf(b),
        rat_wf(b2),
        rat_eq(a, a2),
        rat_eq(b, b2),
    ensures
        rat_eq(rat_add(a, b), rat_add(a2, b2)),
{
    lemma_distribute(a.n * b.d, b.n * a.d, a2.d * b2.d);
    lemma_mul4(a.n, b.d, a2.d, b2.d);
    assert((a.n * a2.d) * (b.d * b2.d) == (a2.n * a.d) * (b.d * b2.d));
    lemma_mul4(a2.n, a.d, b.d, b2.d);
    assert((a2.n * b2.d) * (a.d * b.d) == (a2.n * a.d) * (b.d * b2.d)) by {
        lemma_mul4(a2.n, b2.d, a.d, b.d);
        lemma_mul4(a2.n, a.d, b.d, b2.d);
    };
    lemma_mul4(b.n, a.d, a2.d, b2.d);
    assert((b.n * b2.d) * (a.d * a2.d) == (b2.n * b.d) * (a.d * a2.d));
    assert((b2.n * a2.d) * (a.d * b.d) == (b2.n * b.d) * (a.d * a2.d)) by {
        lemma_mul4(b2.n, a2.d, a.d, b.d);
        lemma_mul4(b2.n, b.d, a.d, a2.d);
    };
    lemma_distribute(a2.n * b2.d, b2.n * a2.d, a.d * b.d);
    assert((a.n * b.d) * (a2.d * b2.d) == (a.n * a2.d) * (b.d * b2.d));
    assert((b.n * a.d) * (a2.d * b2.d) == (b.n * b2.d) * (a.d * a2.d));
}

/// Adding a negated value is subtracting it: the two raw fractions
/// coincide.
pub proof fn lemma_add_neg_is_sub(a: Rat, b: Rat)
    ensures
        rat_add(a, rat_neg(b)) == rat_sub(a, b),
{
    assert((-b.n) * a.d == -(b.n * a.d)) by (nonlinear_arith);
}

/// Negation respects value equality.
pub proof fn lemma_neg_cong(a: Rat, b: Rat)
    requires
        rat_eq(a, b),
    ensures
        rat_eq(rat_neg(a), rat_neg(b)),
{
    assert((-a.n) * b.d == -(a.n * b.d)) by (nonlinear_arith);
    assert((-b.n) * a.d == -(b.n * a.d)) by (nonlinear_arith);
}

/// A value equal to a nonnegative value is nonnegative; likewise for
/// upper comparisons against zero.
pub proof fn lemma_le_zero_cong(v: Rat, w: Rat)
    requires
        rat_wf(v),
        rat_wf(w),
        rat_eq(v, w),
    ensures
        rat_le(rat_int(0), v) <==> rat_le(rat_int(0), w),
{
    assert((v.n >= 0) <==> (w.n >= 0)) by (nonlinear_arith)
        requires
            v.n * w.d == w.n * v.d,
            v.d > 0,
            w.d > 0,
    ;
}

/// The checked sum of two nonnegative values is nonnegative.
pub proof fn lemma_norm_add_nonneg(a: Rat, b: Rat)
    requires
        rat_wf(a),
        rat_wf(b),
        rat_le(rat_int(0), a),
        rat_le(rat_int(0), b),
    ensures
        rat_wf(rat_norm(rat_add(a, b))),
        rat_le(rat_int(0), rat_norm(rat_add(a, b))),
{
    lemma_mul_wf(a, b);
    lemma_norm_eq(rat_add(a, b));
    assert(a.n * b.d + b.n * a.d >= 0) by (nonlinear_arith)
        requires
            a.n >= 0,
            b.n >= 0,
            a.d > 0,
            b.d > 0,
    ;
    lemma_le_zero_cong(rat_norm(rat_add(a, b)), rat_add(a, b));
}

/// The checked difference of a value and one it covers is
/// nonnegative.
pub proof fn lemma_norm_sub_nonneg(a: Rat, b: Rat)
    requires
        rat_wf(a),
        rat_wf(b),
        rat_le(b, a),
    ensures
        rat_wf(rat_norm(rat_sub(a, b))),
        rat_le(rat_int(0), rat_norm(rat_sub(a, b))),
{
    lemma_mul_wf(a, b);
    lemma_norm_eq(rat_sub(a, b));
    lemma_zero_le_sub(a, b);
    lemma_le_zero_cong(rat_norm(rat_sub(a, b)), rat_sub(a, b));
}

/// One value stays below another exactly when their difference stays
/// above zero.
pub proof fn lemma_zero_le_sub(a: Rat, b: Rat)
    requires
        rat_wf(a),
        rat_wf(b),
    ensures
        rat_le(b, a) <==> rat_le(rat_int(0), rat_sub(a, b)),
{
    assert((b.n * a.d <= a.n * b.d) <==> (0 <= a.n * b.d - b.n * a.d)) by (nonlinear_arith);
}

/// A product of well-formed fractions is well-formed.
pub proof fn lemma_mul_wf(a: Rat, b: Rat)
    requires
        rat_wf(a),
        rat_wf(b),
    ensures
        rat_wf(rat_mul(a, b)),
        rat_wf(rat_add(a, b)),
        rat_wf(rat_sub(a, b)),
{
    lemma_pos_prod(a.d, b.d);
}

/// A quotient by a nonzero fraction is well-formed.
pub proof fn lemma_div_wf(a: Rat, b: Rat)
    requires
        rat_wf(a),
        rat_wf(b),
        b.n != 0,
    ensures
        rat_wf(rat_div(a, b)),
{
    if b.n < 0 {
        lemma_neg_flip(a.d, b.n);
    } else {
        lemma_pos_prod(a.d, b.n);
    }
}

/// Being value-equal to the quotient `n / q` means, written out over
/// the raw components: `x.n * (n.d * q.n) == (n.n * q.d) * x.d`.
proof fn lemma_div_eq_raw(x: Rat, n: Rat, q: Rat)
    requires
        rat_wf(x),
        rat_wf(n),
        rat_wf(q),
        q.n != 0,
        rat_eq(x, rat_div(n, q)),
    ensures
        x.n * (n.d * q.n) == (n.n * q.d) * x.d,
{
    let dv = rat_div(n, q);
    if q.n < 0 {
        assert(x.n * (n.d * q.n) == (n.n * q.d) * x.d) by (nonlinear_arith)
            requires
                x.n * dv.d == dv.n * x.d,
                dv.n == -(n.n * q.d),
                dv.d == -(n.d * q.n),
        ;
    } else {
        assert(x.n * (n.d * q.n) == (n.n * q.d) * x.d) by (nonlinear_arith)
            requires
                x.n * dv.d == dv.n * x.d,
                dv.n == n.n * q.d,
                dv.d == n.d * q.n,
        ;
    }
}

/// A product divided by one factor gives back the other:
/// `(q * c) / q == c` in value, whenever `q` is not zero.
pub proof fn lemma_avg_price(q: Rat, n: Rat, cur: Rat, avg: Rat)
    requires
        rat_wf(q),
        rat_wf(n),
        rat_wf(cur),
        rat_wf(avg),
        q.n != 0,
        rat_eq(n, rat_mul(q, cur)),
        rat_eq(avg, rat_div(n, q)),
    ensures
        rat_eq(avg, cur),
{
    lemma_div_eq_raw(avg, n, q);
    assert(n.n * (q.d * cur.d) == (q.n * cur.n) * n.d);
    assert((avg.n * cur.d) * (n.d * q.n) == (avg.n * (n.d * q.n)) * cur.d) by (nonlinear_arith);
    assert((avg.n * (n.d * q.n)) * cur.d == ((n.n * q.d) * avg.d) * cur.d);
    assert(((n.n * q.d) * avg.d) * cur.d == (n.n * (q.d * cur.d)) * avg.d) by (nonlinear_arith);
    assert((n.n * (q.d * cur.d)) * avg.d == ((q.n * cur.n) * n.d) * avg.d);
    assert(((q.n * cur.n) * n.d) * avg.d == (cur.n * avg.d) * (n.d * q.n)) by (nonlinear_arith);
    assert(avg.n * cur.d == cur.n * avg.d) by (nonlinear_arith)
        requires
            (avg.n * cur.d) * (n.d * q.n) == (cur.n * avg.d) * (n.d * q.n),
            n.d > 0,
            q.n != 0,
    ;
}

/// The settled notional of a fill equals the filled quantity times the
/// average fill price.
pub proof fn lemma_fill_notional(q: Rat, n: Rat, avg: Rat)
    requires
        rat_wf(q),
        rat_wf(n),
        rat_wf(avg),
        q.n != 0,
        rat_eq(avg, rat_div(n, q)),
    ensures
        rat_eq(n, rat_mul(q, avg)),
{
    lemma_div_eq_raw(avg, n, q);
    assert(n.n * (q.d * avg.d) == (q.n * avg.n) * n.d) by (nonlinear_arith)
        requires
            avg.n * (n.d * q.n) == (n.n * q.d) * avg.d,
    ;
}

/// A quantity computed as `n / c` buys back the notional: in value,
/// `q * c == n` whenever the price `c` is not zero.
pub proof fn lemma_mul_of_div(q: Rat, n: Rat, c: Rat)
    requires
        rat_wf(q),
        rat_wf(n),
        rat_wf(c),
        c.n != 0,
        rat_eq(q, rat_div(n, c)),
    ensures
        rat_eq(rat_mul(q, c), n),
{
    lemma_div_eq_raw(q, n, c);
    assert((q.n * c.n) * n.d == n.n * (q.d * c.d)) by (nonlinear_arith)
        requires
            q.n * (n.d * c.n) == (n.n * c.d) * q.d,
    ;
}

/// Reserving the worst case and refunding the difference nets out to
/// paying the actual cost: if `v1 == b - m`, `r == m - n` and
/// `v2 == v1 + r`, then `v2 == b - n` in value.
pub proof fn lemma_reservation_refund(b: Rat, m: Rat, n: Rat, v1: Rat, r: Rat, v2: Rat)
    requires
        rat_wf(b),
        rat_wf(m),
        rat_wf(n),
        rat_wf(v1),
        rat_wf(r),
        rat_wf(v2),
        rat_eq(v1, rat_sub(b, m)),
        rat_eq(r, rat_sub(m, n)),
        rat_eq(v2, rat_add(v1, r)),
    ensures
        rat_eq(v2, rat_sub(b, n)),
{
    let s = rat_add(rat_sub(b, m), rat_sub(m, n));
    lemma_pos_prod(b.d, m.d);
    lemma_pos_prod(m.d, n.d);
    lemma_pos_prod(b.d * m.d, m.d * n.d);
    lemma_pos_prod(b.d, n.d);
    lemma_pos_prod(v1.d, r.d);
    lemma_add_cong(v1, rat_sub(b, m), r, rat_sub(m, n));
    lemma_rat_eq_trans(v2, rat_add(v1, r), s);
    lemma_distribute_sub(b.n * m.d, m.n * b.d, m.d * n.d);
    lemma_distribute_sub(m.n * n.d, n.n * m.d, b.d * m.d);
    lemma_mul4(b.n, m.d, m.d, n.d);
    lemma_mul4(m.n, b.d, m.d, n.d);
    lemma_mul4(m.n, n.d, b.d, m.d);
    lemma_mul4(n.n, m.d, b.d, m.d);
    lemma_distribute_sub(b.n * n.d, n.n * b.d, m.d * m.d);
    assert((b.n * m.d - m.n * b.d) * (m.d * n.d) + (m.n * n.d - n.n * m.d) * (b.d * m.d) == (b.n
        * n.d - n.n * b.d) * (m.d * m.d));
    assert(((b.n * n.d - n.n * b.d) * (m.d * m.d)) * (b.d * n.d) == (b.n * n.d - n.n * b.d) * ((b.d
        * m.d) * (m.d * n.d))) by (nonlinear_arith);
    assert(rat_eq(s, rat_sub(b, n)));
    lemma_rat_eq_trans(v2, s, rat_sub(b, n));
}

/// An exact quotient of positive numbers is positive.
proof fn lemma_quot_pos(q: int, g: int)
    requires
        g >= 1,
        q >= 1,
        q == g * (q / g),
    ensures
        q / g >= 1,
{
    let q2 = q / g;
    assert(g * q2 >= 1 && g >= 1 ==> q2 >= 1) by (nonlinear_arith);
}

} // verus!
