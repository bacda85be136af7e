//! Exact ratios of integers, used wherever a value is a position in
//! relative space (0 is one end of a range and 1 is the other).

use vstd::prelude::*;
use vstd::arithmetic::div_mod::lemma_fundamental_div_mod_converse;

verus! {

/// A ratio `numer / denom`.
#[derive(Debug, Copy, Clone, PartialEq, Eq, Structural, Hash)]
pub struct Fraction {
    pub numer: i128,
    pub denom: i128,
}

/// `a / b` rounded to the nearest integer, halves away from zero, for a
/// positive `b`.
pub open spec fn round_div(a: int, b: int) -> int {
    if a >= 0 {
        (2 * a + b) / (2 * b)
    } else {
        -((2 * (-a) + b) / (2 * b))
    }
}

/// The point of the range from `lo` to `hi` at the relative position
/// `numer / denom`, rounded to the nearest integer.
pub open spec fn spec_lerp_between(lo: int, hi: int, numer: int, denom: int) -> int {
    lo + round_div(numer * (hi - lo), denom)
}

impl Fraction {
    /// A fraction is well formed when its denominator is positive.
    pub open spec fn wf(self) -> bool {
        self.denom > 0
    }

    /// Whether the fraction lies between 0 and 1, both included.
    pub open spec fn in_unit(self) -> bool {
        0 <= self.numer <= self.denom
    }

    /// Whether the two fractions differ by at most `1 / (2 * unit)`.
    pub open spec fn within_half_of(self, other: Fraction, unit: int) -> bool {
        let diff = self.numer * other.denom - other.numer * self.denom;
        -(self.denom * other.denom) <= 2 * unit * diff <= self.denom * other.denom
    }

    /// Makes the fraction `numer / denom`.
    pub fn new(numer: i128, denom: i128) -> (r: Self)
        requires
            denom > 0,
        ensures
            r.numer == numer,
            r.denom == denom,
            r.wf(),
    {
        Fraction { numer, denom }
    }
}

/// Rounding misses the exact quotient by at most one half.
pub proof fn lemma_round_div_near(a: int, b: int)
    requires
        b > 0,
    ensures
        -b <= 2 * (round_div(a, b) * b - a) <= b,
{
    let m = if a >= 0 { a } else { -a };
    let q = (2 * m + b) / (2 * b);
    let r = (2 * m + b) % (2 * b);
    vstd::arithmetic::div_mod::lemma_fundamental_div_mod(2 * m + b, 2 * b);
    assert(0 <= r < 2 * b) by {
        vstd::arithmetic::div_mod::lemma_mod_bound(2 * m + b, 2 * b);
    }
    assert(2 * b * q == 2 * (q * b)) by (nonlinear_arith);
    assert((-q) * b == -(q * b)) by (nonlinear_arith);
}

/// A quotient that is already an integer is left as it is.
pub proof fn lemma_round_div_exact(k: int, b: int)
    requires
        b > 0,
    ensures
        round_div(k * b, b) == k,
{
    let m = if k >= 0 { k } else { -k };
    assert(m * b >= 0) by (nonlinear_arith)
        requires
            m >= 0,
            b > 0,
    ;
    assert((-k) * b == -(k * b)) by (nonlinear_arith);
    assert(2 * (m * b) + b == m * (2 * b) + b) by (nonlinear_arith);
    lemma_fundamental_div_mod_converse(2 * (m * b) + b, 2 * b, m, b);
    if k > 0 {
        assert(k * b > 0) by (nonlinear_arith)
            requires
                k > 0,
                b > 0,
        ;
    } else if k < 0 {
        assert(k * b < 0) by (nonlinear_arith)
            requires
                k < 0,
                b > 0,
        ;
    } else {
        assert(k * b == 0) by (nonlinear_arith)
            requires
                k == 0,
        ;
    }
}

/// Rounding keeps the order of the quotients.
pub proof fn lemma_round_div_monotonic(a1: int, a2: int, b: int)
    requires
        b > 0,
        a1 <= a2,
    ensures
        round_div(a1, b) <= round_div(a2, b),
{
    if a1 >= 0 {
        vstd::arithmetic::div_mod::lemma_div_is_ordered(2 * a1 + b, 2 * a2 + b, 2 * b);
    } else if a2 < 0 {
        vstd::arithmetic::div_mod::lemma_div_is_ordered(2 * (-a2) + b, 2 * (-a1) + b, 2 * b);
    } else {
        vstd::arithmetic::div_mod::lemma_div_pos_is_pos(2 * a2 + b, 2 * b);
        vstd::arithmetic::div_mod::lemma_div_pos_is_pos(2 * (-a1) + b, 2 * b);
    }
}

/// A position between 0 and 1 gives a point of the range.
pub proof fn lemma_lerp_between_in_range(lo: int, hi: int, numer: int, denom: int)
    requires
        lo <= hi,
        denom > 0,
        0 <= numer <= denom,
    ensures
        lo <= spec_lerp_between(lo, hi, numer, denom) <= hi,
{
    let len = hi - lo;
    assert(0 <= numer * len <= denom * len) by (nonlinear_arith)
        requires
            0 <= numer <= denom,
            len >= 0,
    ;
    lemma_round_div_monotonic(0, numer * len, denom);
    lemma_round_div_monotonic(numer * len, denom * len, denom);
    assert(0int * denom == 0) by (nonlinear_arith);
    lemma_round_div_exact(0, denom);
    assert(denom * len == len * denom) by (nonlinear_arith);
    lemma_round_div_exact(len, denom);
}

/// A position between 0 and 1 gives a point between the two ends of the
/// range, whichever of them is the lower.
pub proof fn lemma_lerp_between_bounded(lo: int, hi: int, numer: int, denom: int)
    requires
        denom > 0,
        0 <= numer <= denom,
    ensures
        lo <= hi ==> lo <= spec_lerp_between(lo, hi, numer, denom) <= hi,
        hi <= lo ==> hi <= spec_lerp_between(lo, hi, numer, denom) <= lo,
{
    if lo <= hi {
        lemma_lerp_between_in_range(lo, hi, numer, denom);
    } else {
        lemma_lerp_between_in_range(hi, lo, numer, denom);
        assert(numer * (hi - lo) == -(numer * (lo - hi))) by (nonlinear_arith);
        assert(numer * (lo - hi) >= 0) by (nonlinear_arith)
            requires
                numer >= 0,
                lo - hi >= 0,
        ;
        assert(0int * denom == 0) by (nonlinear_arith);
        lemma_round_div_exact(0, denom);
    }
}

/// The point of the range from `lo` to `hi` at the relative position
/// `value`, rounded to the nearest integer, halves away from `lo`.
pub fn lerp_between(lo: i64, hi: i64, value: Fraction) -> (r: i64)
    requires
        value.wf(),
        i128::MIN <= value.numer * (hi - lo) <= i128::MAX,
        i64::MIN <= spec_lerp_between(lo as int, hi as int, value.numer as int, value.denom as int)
            <= i64::MAX,
    ensures
        r == spec_lerp_between(lo as int, hi as int, value.numer as int, value.denom as int),
{
    let len: i128 = hi as i128 - lo as i128;
    let a: i128 = value.numer * len;
    let b: u128 = value.denom as u128;
    let m: u128 = if a >= 0 {
        a as u128
    } else {
        (-(a + 1)) as u128 + 1
    };
    let q: u128 = m / b;
    let r: u128 = m % b;
    let up: bool = r >= b - r;
    proof {
        let qq: int = if up { q + 1 } else { q as int };
        let rr: int = if up { 2 * r + b - 2 * b } else { 2 * r + b };
        assert(m == b * q + r) by {
            vstd::arithmetic::div_mod::lemma_fundamental_div_mod(m as int, b as int);
        }
        assert(2 * m + b == qq * (2 * b) + rr) by (nonlinear_arith)
            requires
                m == b * q + r,
                qq == (if up { q + 1 } else { q as int }),
                rr == (if up { 2 * r + b - 2 * b } else { 2 * r + b }),
        ;
        lemma_fundamental_div_mod_converse(2 * m + b, 2 * b as int, qq, rr);
        assert(qq == (2 * m + b) / (2 * b as int));
    }
    if a >= 0 {
        let rounded: u128 = if up { q + 1 } else { q };
        (lo as i128 + rounded as i128) as i64
    } else {
        let rounded: u128 = if up { q + 1 } else { q };
        (lo as i128 - rounded as i128) as i64
    }
}

} // verus!
