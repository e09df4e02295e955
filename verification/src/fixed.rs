//! A saturating binary fixed-point number, the scalar that this library
//! supplies itself.

use vstd::prelude::*;
use crate::scalar::Scalar;

verus! {

/// The raw value of the number one: 2^32.
pub const UNIT: i64 = 0x1_0000_0000;

/// The square of `UNIT`, the dividend of a reciprocal: 2^64.
pub const UNIT_SQUARED: i128 = 0x1_0000_0000_0000_0000;

/// A signed fixed-point number with 32 fractional bits. It stands for the
/// rational `raw / 2^32`.
///
/// Arithmetic rounds toward zero and saturates at the ends of the range, so
/// every operation is total. The reciprocal of zero is the largest value.
#[derive(Clone, Copy, Debug, PartialEq, Eq, Structural)]
pub struct Fixed {
    pub raw: i64,
}

/// The value of the range of `i64` that is nearest to `v`.
pub open spec fn saturate(v: int) -> i64 {
    if v < i64::MIN {
        i64::MIN
    } else if v > i64::MAX {
        i64::MAX
    } else {
        v as i64
    }
}

/// `a` divided by a positive `d`, rounded toward zero.
pub open spec fn quotient(a: int, d: int) -> int
    recommends
        d > 0,
{
    if a >= 0 {
        a / d
    } else {
        -((-a) / d)
    }
}

/// Brings a wide intermediate result back into the range of `i64`.
fn saturate_wide(v: i128) -> (r: i64)
    ensures
        r == saturate(v as int),
{
    if v < i64::MIN as i128 {
        i64::MIN
    } else if v > i64::MAX as i128 {
        i64::MAX
    } else {
        v as i64
    }
}

impl Scalar for Fixed {
    open spec fn zero_spec() -> Self {
        Fixed { raw: 0 }
    }

    open spec fn one_spec() -> Self {
        Fixed { raw: UNIT }
    }

    open spec fn half_spec() -> Self {
        Fixed { raw: 0x8000_0000 }
    }

    open spec fn two_spec() -> Self {
        Fixed { raw: 0x2_0000_0000 }
    }

    open spec fn add_spec(self, rhs: Self) -> Self {
        Fixed { raw: saturate(self.raw + rhs.raw) }
    }

    open spec fn mul_spec(self, rhs: Self) -> Self {
        Fixed { raw: saturate(quotient(self.raw * rhs.raw, UNIT as int)) }
    }

    open spec fn recip_spec(self) -> Self {
        if self.raw == 0 {
            Fixed { raw: i64::MAX }
        } else if self.raw > 0 {
            Fixed { raw: saturate(quotient(UNIT_SQUARED as int, self.raw as int)) }
        } else {
            Fixed { raw: saturate(-quotient(UNIT_SQUARED as int, -self.raw)) }
        }
    }

    fn zero() -> Self {
        Fixed { raw: 0 }
    }

    fn one() -> Self {
        Fixed { raw: UNIT }
    }

    fn half() -> Self {
        Fixed { raw: 0x8000_0000 }
    }

    fn two() -> Self {
        Fixed { raw: 0x2_0000_0000 }
    }

    fn add(self, rhs: Self) -> Self {
        Fixed { raw: saturate_wide(self.raw as i128 + rhs.raw as i128) }
    }

    fn mul(self, rhs: Self) -> Self {
        let a: i128 = self.raw as i128;
        let b: i128 = rhs.raw as i128;
        assert(-0x4000_0000_0000_0000_0000_0000_0000_0000 <= a * b
            <= 0x4000_0000_0000_0000_0000_0000_0000_0000) by (nonlinear_arith)
            requires
                -0x8000_0000_0000_0000 <= a <= 0x7fff_ffff_ffff_ffff,
                -0x8000_0000_0000_0000 <= b <= 0x7fff_ffff_ffff_ffff,
        ;
        Fixed { raw: saturate_wide((a * b) / (UNIT as i128)) }
    }

    fn recip(self) -> Self {
        if self.raw == 0 {
            Fixed { raw: i64::MAX }
        } else {
            let d: i128 = self.raw as i128;
            if d > 0 {
                Fixed { raw: saturate_wide(UNIT_SQUARED / d) }
            } else {
                Fixed { raw: saturate_wide(-(UNIT_SQUARED / (-d))) }
            }
        }
    }

    proof fn lemma_zero_add(x: Self) {
    }

    proof fn lemma_mul_one(x: Self) {
        lemma_quotient_of_multiple(x.raw as int, UNIT as int, UNIT as int);
    }
}

/// Dividing `a * m` by `d`, rounded toward zero, where `m` is `d`, twice
/// `d` or half of `d`.
proof fn lemma_quotient_of_multiple(a: int, m: int, d: int)
    requires
        d > 0,
        m > 0,
    ensures
        m == d ==> quotient(a * m, d) == a && quotient(m * a, d) == a,
        m == 2 * d ==> quotient(a * m, d) == 2 * a,
        2 * m == d ==> quotient(a * m, d) == quotient(a, 2),
{
    assert(m * a == a * m) by (nonlinear_arith);
    assert((a * m >= 0) == (a >= 0) || a * m == 0) by (nonlinear_arith)
        requires
            m > 0,
    ;
    assert(a * m == 0 ==> a == 0) by (nonlinear_arith)
        requires
            m > 0,
    ;
    assert(-(a * m) == (-a) * m) by (nonlinear_arith);
    if m == d {
        assert((a * d) / d == a) by (nonlinear_arith)
            requires
                d > 0,
        ;
        assert(((-a) * d) / d == -a) by (nonlinear_arith)
            requires
                d > 0,
        ;
    }
    if m == 2 * d {
        assert((a * (2 * d)) / d == 2 * a) by (nonlinear_arith)
            requires
                d > 0,
        ;
        assert(((-a) * (2 * d)) / d == 2 * (-a)) by (nonlinear_arith)
            requires
                d > 0,
        ;
    }
    if 2 * m == d {
        assert(a >= 0 ==> (a * m) / (2 * m) == a / 2) by (nonlinear_arith)
            requires
                m > 0,
        ;
        assert(a < 0 ==> ((-a) * m) / (2 * m) == (-a) / 2) by (nonlinear_arith)
            requires
                m > 0,
        ;
    }
}

/// Multiplying one by a value gives the value back.
pub proof fn lemma_one_mul(x: Fixed)
    ensures
        Fixed::one_spec().mul_spec(x) == x,
{
    lemma_quotient_of_multiple(x.raw as int, UNIT as int, UNIT as int);
}

/// Multiplying by one half halves the raw value, rounding toward zero.
pub proof fn lemma_mul_half(x: Fixed)
    ensures
        x.mul_spec(Fixed::half_spec()).raw == quotient(x.raw as int, 2),
{
    lemma_quotient_of_multiple(x.raw as int, 0x8000_0000, UNIT as int);
}

/// Multiplying by two doubles the raw value and saturates.
pub proof fn lemma_mul_two(x: Fixed)
    ensures
        x.mul_spec(Fixed::two_spec()).raw == saturate(2 * x.raw),
{
    lemma_quotient_of_multiple(x.raw as int, 0x2_0000_0000, UNIT as int);
}

} // verus!
