use vstd::arithmetic::div_mod::{
    lemma_div_multiples_vanish, lemma_fundamental_div_mod, lemma_mod_multiples_basic,
    lemma_mod_self_0, lemma_small_mod,
};
use vstd::math::abs;
use vstd::prelude::*;

verus! {

/// Largest numerator/denominator magnitude for which the comparison
/// operators are free of `i128` overflow. It covers the widest difference
/// of two position prices (six times `PRICE_LIMIT`) with room to spare.
pub const RATIO_LIMIT: i128 = 0x100_0000_0000_0000;

/// An exact rational number, used for risk:reward values and thresholds.
///
/// The denominator is kept strictly positive, so ordering two ratios is
/// plain cross-multiplication.
#[derive(Clone, Copy, Debug, PartialEq, Eq, Structural)]
pub struct Ratio {
    pub num: i128,
    pub den: i128,
}

/// A ratio in normal form: positive denominator.
pub open spec fn ratio_wf(r: Ratio) -> bool {
    0 < r.den
}

/// A ratio small enough for overflow-free cross-multiplication.
pub open spec fn ratio_bounded(r: Ratio) -> bool {
    &&& -RATIO_LIMIT <= r.num <= RATIO_LIMIT
    &&& 0 < r.den <= RATIO_LIMIT
}

/// `a >= b` as rationals; meaningful whenever both denominators are positive.
pub open spec fn ratio_ge(a: Ratio, b: Ratio) -> bool {
    a.num * b.den >= b.num * a.den
}

/// `a > b` as rationals; meaningful whenever both denominators are positive.
pub open spec fn ratio_gt(a: Ratio, b: Ratio) -> bool {
    a.num * b.den > b.num * a.den
}

impl Ratio {
    /// `num / den` in normal form. The sign moves to the numerator.
    pub fn new(num: i64, den: i64) -> (r: Ratio)
        requires
            den != 0,
        ensures
            ratio_wf(r),
            r.num * (den as int) == (num as int) * r.den,
            -0x8000_0000_0000_0000 <= r.num <= 0x8000_0000_0000_0000,
            0 < r.den <= 0x8000_0000_0000_0000,
    {
        if den < 0 {
            proof {
                assert((-(num as int)) * (den as int) == (num as int) * (-(den as int)))
                    by (nonlinear_arith);
            }
            Ratio { num: -(num as i128), den: -(den as i128) }
        } else {
            Ratio { num: num as i128, den: den as i128 }
        }
    }

    pub fn ge(self, other: Ratio) -> (r: bool)
        requires
            ratio_bounded(self),
            ratio_bounded(other),
        ensures
            r == ratio_ge(self, other),
    {
        proof {
            lemma_cross_mul_bounded(self.num as int, other.den as int);
            lemma_cross_mul_bounded(other.num as int, self.den as int);
        }
        self.num * other.den >= other.num * self.den
    }

    pub fn gt(self, other: Ratio) -> (r: bool)
        requires
            ratio_bounded(self),
            ratio_bounded(other),
        ensures
            r == ratio_gt(self, other),
    {
        proof {
            lemma_cross_mul_bounded(self.num as int, other.den as int);
            lemma_cross_mul_bounded(other.num as int, self.den as int);
        }
        self.num * other.den > other.num * self.den
    }
}

/// Greatest common divisor, by Euclid's algorithm.
pub open spec fn spec_gcd(a: nat, b: nat) -> nat
    decreases b,
{
    if b == 0 {
        a
    } else {
        spec_gcd(b, a % b)
    }
}

/// The gcd of two numbers, at least one positive, is positive and divides
/// both.
pub proof fn lemma_gcd_divides(a: nat, b: nat)
    ensures
        a > 0 || b > 0 ==> spec_gcd(a, b) > 0,
        spec_gcd(a, b) > 0 ==> a % spec_gcd(a, b) == 0 && b % spec_gcd(a, b) == 0,
    decreases b,
{
    if b == 0 {
        if a > 0 {
            lemma_mod_self_0(a as int);
            lemma_small_mod(0, a);
        }
    } else {
        lemma_gcd_divides(b, a % b);
        let g = spec_gcd(b, a % b);
        let qa: int = a as int / b as int;
        let qb: int = b as int / g as int;
        let qr: int = (a % b) as int / g as int;
        lemma_fundamental_div_mod(a as int, b as int);
        lemma_fundamental_div_mod(b as int, g as int);
        lemma_fundamental_div_mod((a % b) as int, g as int);
        assert(a as int == (qb * qa + qr) * g as int) by (nonlinear_arith)
            requires
                a as int == b as int * qa + (a % b) as int,
                b as int == g as int * qb,
                (a % b) as int == g as int * qr,
        ;
        lemma_mod_multiples_basic(qb * qa + qr, g as int);
    }
}

/// Euclid's algorithm on machine words.
pub(crate) fn gcd_u128(a0: u128, b0: u128) -> (g: u128)
    ensures
        g as nat == spec_gcd(a0 as nat, b0 as nat),
{
    let mut a = a0;
    let mut b = b0;
    while b != 0
        invariant
            spec_gcd(a as nat, b as nat) == spec_gcd(a0 as nat, b0 as nat),
        decreases b,
    {
        let t = a % b;
        a = b;
        b = t;
    }
    a
}

/// A numerator/denominator pair divided through by its gcd. The value is
/// unchanged; only the representation shrinks.
pub open spec fn reduce_pair(num: int, den: int) -> (int, int) {
    let g = spec_gcd(abs(num), den as nat) as int;
    if g > 0 {
        (num / g, den / g)
    } else {
        (num, den)
    }
}

/// For a positive denominator the reduction divides out a positive common
/// factor exactly: the reduced pair times the gcd gives the pair back, and
/// the reduced denominator stays positive.
pub proof fn lemma_reduce_pair(num: int, den: int)
    requires
        den > 0,
    ensures
        ({
            let g = spec_gcd(abs(num), den as nat) as int;
            let r = reduce_pair(num, den);
            &&& g > 0
            &&& num == g * r.0
            &&& den == g * r.1
            &&& r.1 > 0
        }),
{
    lemma_gcd_divides(abs(num), den as nat);
    let g = spec_gcd(abs(num), den as nat) as int;
    let r = reduce_pair(num, den);
    lemma_fundamental_div_mod(den, g);
    assert(den == g * (den / g));
    assert(den / g > 0) by (nonlinear_arith)
        requires
            den == g * (den / g),
            den > 0,
            g > 0,
    ;
    if num >= 0 {
        lemma_fundamental_div_mod(num, g);
        assert(num == g * (num / g));
    } else {
        let m: int = -num;
        lemma_fundamental_div_mod(m, g);
        assert(m == g * (m / g));
        assert(num == g * (-(m / g))) by (nonlinear_arith)
            requires
                m == g * (m / g),
                num == -m,
        ;
        lemma_div_multiples_vanish(-(m / g), g);
        assert(num / g == -(m / g));
    }
}

/// The product of two `RATIO_LIMIT`-bounded factors stays well inside `i128`.
pub(crate) proof fn lemma_cross_mul_bounded(a: int, b: int)
    requires
        -RATIO_LIMIT <= a <= RATIO_LIMIT,
        -RATIO_LIMIT <= b <= RATIO_LIMIT,
    ensures
        -(RATIO_LIMIT * RATIO_LIMIT) <= a * b <= RATIO_LIMIT * RATIO_LIMIT,
{
    assert(-(RATIO_LIMIT * RATIO_LIMIT) <= a * b <= RATIO_LIMIT * RATIO_LIMIT)
        by (nonlinear_arith)
        requires
            -RATIO_LIMIT <= a <= RATIO_LIMIT,
            -RATIO_LIMIT <= b <= RATIO_LIMIT,
    ;
}

} // verus!
