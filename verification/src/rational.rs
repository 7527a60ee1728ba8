//! Exact non-negative rational arithmetic for conversion rates.
//!
//! Conversion factors compose multiplicatively through many hops, so the
//! solver needs a numeric type whose products and comparisons are exact and
//! independent of any rounding order. A rational with unsigned 64-bit
//! numerator and denominator covers every decimal-literal rate and keeps all
//! comparisons exact: products that would overflow are reported rather than
//! rounded.

use vstd::prelude::*;

verus! {

/// A non-negative rational number `num / den`; well-formed when `den > 0`.
#[derive(Clone, Copy, Debug, PartialEq, Eq, Structural)]
pub struct Rational {
    pub num: u64,
    pub den: u64,
}

/// Well-formedness: the denominator is positive.
pub open spec fn rat_wf(r: Rational) -> bool {
    r.den > 0
}

/// `a <= b` as rationals, by cross multiplication (denominators positive).
pub open spec fn rat_le(a: Rational, b: Rational) -> bool {
    a.num * b.den <= b.num * a.den
}

/// `a < b` as rationals, by cross multiplication (denominators positive).
pub open spec fn rat_lt(a: Rational, b: Rational) -> bool {
    a.num * b.den < b.num * a.den
}

/// `a == b` as rationals, by cross multiplication (denominators positive).
pub open spec fn rat_eq(a: Rational, b: Rational) -> bool {
    a.num * b.den == b.num * a.den
}

/// The rational equals 1.
pub open spec fn rat_is_one(a: Rational) -> bool {
    a.num == a.den
}

/// The rational equals 0.
pub open spec fn rat_is_zero(a: Rational) -> bool {
    a.num == 0
}

impl Rational {
    /// The rational 1, the rate of every bridge edge.
    pub fn one() -> (r: Rational)
        ensures
            r == (Rational { num: 1, den: 1 }),
    {
        Rational { num: 1, den: 1 }
    }

    /// The rational 0, the table entry standing for "no path known".
    pub fn zero() -> (r: Rational)
        ensures
            r == (Rational { num: 0, den: 1 }),
    {
        Rational { num: 0, den: 1 }
    }

    /// Exact product; `None` when numerator or denominator would overflow.
    pub fn checked_mul(self, other: Rational) -> (r: Option<Rational>)
        ensures
            r is Some <==> self.num * other.num <= u64::MAX && self.den * other.den <= u64::MAX,
            r matches Some(p) ==> p.num == self.num * other.num && p.den == self.den
                * other.den,
    {
        let n = self.num.checked_mul(other.num);
        let d = self.den.checked_mul(other.den);
        match (n, d) {
            (Some(n), Some(d)) => Some(Rational { num: n, den: d }),
            _ => None,
        }
    }

    /// Exact `self < other`, computed without overflow in 128 bits.
    pub fn lt(self, other: Rational) -> (r: bool)
        ensures
            r == rat_lt(self, other),
    {
        proof {
            lemma_u64_prod_fits_u128(self.num, other.den);
            lemma_u64_prod_fits_u128(other.num, self.den);
        }
        (self.num as u128) * (other.den as u128) < (other.num as u128) * (self.den as u128)
    }

    /// Exact `self == other`, computed without overflow in 128 bits.
    pub fn eq_rat(self, other: Rational) -> (r: bool)
        ensures
            r == rat_eq(self, other),
    {
        proof {
            lemma_u64_prod_fits_u128(self.num, other.den);
            lemma_u64_prod_fits_u128(other.num, self.den);
        }
        (self.num as u128) * (other.den as u128) == (other.num as u128) * (self.den as u128)
    }
}

/// The product of two 64-bit values fits in 128 bits.
pub proof fn lemma_u64_prod_fits_u128(x: u64, y: u64)
    by (nonlinear_arith)
    ensures
        x * y <= u128::MAX,
{
}

/// `<=` chained with `<` stays strict: `a <= b < c` implies `a < c`.
pub proof fn lemma_rat_le_lt_trans(a: Rational, b: Rational, c: Rational)
    by (nonlinear_arith)
    requires
        rat_wf(a),
        rat_wf(b),
        rat_wf(c),
        rat_le(a, b),
        rat_lt(b, c),
    ensures
        rat_lt(a, c),
{
}

/// Multiplying exact representatives multiplies the represented values:
/// if `a` equals `na/da` and `b` equals `nb/db`, then the pairwise product
/// of numerators and denominators equals the product of the values.
pub proof fn lemma_rat_mul_congruence(a: Rational, b: Rational, na: int, da: int, nb: int, db: int)
    by (nonlinear_arith)
    requires
        a.num * da == na * a.den,
        b.num * db == nb * b.den,
    ensures
        (a.num * b.num) * (da * db) == (na * nb) * ((a.den as int) * (b.den as int)),
{
}

} // verus!
