//! Exact rational numbers used for all pattern timing.
//!
//! Starts and lengths of pattern events are fractions of one cycle, so they
//! are kept as exact ratios of machine integers: comparing and taking minima
//! never drifts, unlike repeated floating-point subdivision.  Values are not
//! reduced; all comparisons go by cross multiplication, so `1/2` and `2/4`
//! compare as the same instant.

use vstd::prelude::*;

verus! {

/// An exact rational number `num / den` with a positive denominator.
///
/// The fields fit `i32`, so every cross product in a comparison fits `i64`.
#[derive(Clone, Copy, Debug, PartialEq, Eq)]
pub struct Fraction {
    pub num: i32,
    pub den: i32,
}

/// A fraction is well formed when its denominator is positive.
pub open spec fn frac_wf(f: Fraction) -> bool {
    f.den > 0
}

/// Exact order on fraction values: `a < b` as rational numbers.
pub open spec fn frac_lt(a: Fraction, b: Fraction) -> bool {
    (a.num as int) * (b.den as int) < (b.num as int) * (a.den as int)
}

/// Exact equality of fraction values, regardless of representation.
pub open spec fn frac_eq(a: Fraction, b: Fraction) -> bool {
    (a.num as int) * (b.den as int) == (b.num as int) * (a.den as int)
}

/// Exact order-or-equality on fraction values.
pub open spec fn frac_le(a: Fraction, b: Fraction) -> bool {
    (a.num as int) * (b.den as int) <= (b.num as int) * (a.den as int)
}

/// The smaller of two fraction values; the first when they are equal.
pub open spec fn frac_min(a: Fraction, b: Fraction) -> Fraction {
    if frac_le(a, b) {
        a
    } else {
        b
    }
}

/// The product of two `i32` values fits comfortably in `i64`.
proof fn lemma_i32_prod_fits_i64(a: int, b: int)
    requires
        -0x8000_0000 <= a <= 0x7fff_ffff,
        -0x8000_0000 <= b <= 0x7fff_ffff,
    ensures
        -0x4000_0000_0000_0000 <= a * b <= 0x4000_0000_0000_0000,
{
    assert(-0x4000_0000_0000_0000 <= a * b <= 0x4000_0000_0000_0000) by (nonlinear_arith)
        requires
            -0x8000_0000 <= a <= 0x7fff_ffff,
            -0x8000_0000 <= b <= 0x7fff_ffff,
    ;
}

impl Fraction {
    /// The numerator as it is stored.
    pub open spec fn spec_num(self) -> int {
        self.num as int
    }

    /// The denominator as it is stored.
    pub open spec fn spec_den(self) -> int {
        self.den as int
    }

    /// Builds the fraction `num / den`.
    pub fn new(num: i32, den: i32) -> (r: Fraction)
        requires
            den > 0,
        ensures
            r == (Fraction { num, den }),
            frac_wf(r),
    {
        Fraction { num, den }
    }

    /// The numerator.
    pub fn num(&self) -> (r: i32)
        ensures
            r as int == self.spec_num(),
    {
        self.num
    }

    /// The denominator.
    pub fn den(&self) -> (r: i32)
        ensures
            r as int == self.spec_den(),
    {
        self.den
    }

    /// Exact `self < other` on the rational values.
    pub fn lt(&self, other: &Fraction) -> (r: bool)
        requires
            frac_wf(*self),
            frac_wf(*other),
        ensures
            r == frac_lt(*self, *other),
    {
        proof {
            lemma_i32_prod_fits_i64(self.num as int, other.den as int);
            lemma_i32_prod_fits_i64(other.num as int, self.den as int);
        }
        (self.num as i64) * (other.den as i64) < (other.num as i64) * (self.den as i64)
    }

    /// Exact `self <= other` on the rational values.
    pub fn le(&self, other: &Fraction) -> (r: bool)
        requires
            frac_wf(*self),
            frac_wf(*other),
        ensures
            r == frac_le(*self, *other),
    {
        proof {
            lemma_i32_prod_fits_i64(self.num as int, other.den as int);
            lemma_i32_prod_fits_i64(other.num as int, self.den as int);
        }
        (self.num as i64) * (other.den as i64) <= (other.num as i64) * (self.den as i64)
    }

    /// Exact value equality, regardless of representation.
    pub fn eq_value(&self, other: &Fraction) -> (r: bool)
        requires
            frac_wf(*self),
            frac_wf(*other),
        ensures
            r == frac_eq(*self, *other),
    {
        proof {
            lemma_i32_prod_fits_i64(self.num as int, other.den as int);
            lemma_i32_prod_fits_i64(other.num as int, self.den as int);
        }
        (self.num as i64) * (other.den as i64) == (other.num as i64) * (self.den as i64)
    }

    /// The smaller of the two values; `self` when they are equal.
    pub fn min_value(self, other: Fraction) -> (r: Fraction)
        requires
            frac_wf(self),
            frac_wf(other),
        ensures
            r == frac_min(self, other),
    {
        if self.le(&other) {
            self
        } else {
            other
        }
    }
}

/// Of two fraction values, exactly one of `<`, `=`, `>` holds.
pub proof fn lemma_frac_trichotomy(a: Fraction, b: Fraction)
    ensures
        frac_lt(a, b) || frac_eq(a, b) || frac_lt(b, a),
        frac_lt(a, b) ==> !frac_eq(a, b) && !frac_lt(b, a),
        frac_eq(a, b) ==> !frac_lt(a, b) && !frac_lt(b, a),
        frac_le(a, b) <==> frac_lt(a, b) || frac_eq(a, b),
{
}

/// The exact order on fractions is transitive.
pub proof fn lemma_frac_lt_trans(a: Fraction, b: Fraction, c: Fraction)
    requires
        frac_wf(a),
        frac_wf(b),
        frac_wf(c),
        frac_lt(a, b),
        frac_lt(b, c),
    ensures
        frac_lt(a, c),
{
    assert((a.num as int) * (c.den as int) < (c.num as int) * (a.den as int)) by (nonlinear_arith)
        requires
            (a.num as int) * (b.den as int) < (b.num as int) * (a.den as int),
            (b.num as int) * (c.den as int) < (c.num as int) * (b.den as int),
            a.den > 0,
            b.den > 0,
            c.den > 0,
    ;
}

} // verus!
