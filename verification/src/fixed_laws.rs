//! The octave progression and the sum of a constant in fixed-point
//! arithmetic, in closed form.

use vstd::prelude::*;
use vstd::arithmetic::div_mod::{
    lemma_div_multiples_vanish_quotient, lemma_div_nonincreasing, lemma_div_pos_is_pos,
    lemma_fundamental_div_mod, lemma_mod_bound,
};
use vstd::arithmetic::power2::{
    lemma2_to64, lemma_pow2_adds, lemma_pow2_pos, lemma_pow2_unfold, pow2,
};
use crate::brownian::{amplitude, frequency};
use crate::fixed::{
    lemma_mul_half, lemma_mul_two, lemma_one_mul, quotient, saturate, Fixed, UNIT,
};
use crate::laws::constant_series;
use crate::scalar::Scalar;

verus! {

/// The amplitude of octave `k` is exactly `2^-k` while that is a multiple of
/// the resolution `2^-32`, and zero from then on.
pub proof fn lemma_fixed_amplitude(k: nat)
    ensures
        amplitude::<Fixed>(k).raw == if k <= 32 {
            pow2((32 - k) as nat) as int
        } else {
            0
        },
    decreases k,
{
    lemma2_to64();
    if k > 0 {
        let before = amplitude::<Fixed>((k - 1) as nat);
        lemma_fixed_amplitude((k - 1) as nat);
        lemma_mul_half(before);
        if k <= 32 {
            lemma_pow2_unfold((32 - (k - 1)) as nat);
        }
    }
}

/// The frequency of octave `k` is the reciprocal of the wavelength times
/// `2^k`, held to the range of the type.
pub proof fn lemma_fixed_frequency(wavelength: Fixed, k: nat)
    ensures
        frequency(wavelength, k).raw == saturate(wavelength.recip_spec().raw * pow2(k)),
    decreases k,
{
    lemma2_to64();
    let base: int = wavelength.recip_spec().raw as int;
    if k > 0 {
        let before = frequency(wavelength, (k - 1) as nat);
        lemma_fixed_frequency(wavelength, (k - 1) as nat);
        lemma_mul_two(before);
        lemma_pow2_unfold(k);
        lemma_pow2_pos((k - 1) as nat);
        let half_way: int = base * pow2((k - 1) as nat);
        assert(base * pow2(k) == 2 * half_way) by (nonlinear_arith)
            requires
                pow2(k) == 2 * pow2((k - 1) as nat),
                half_way == base * pow2((k - 1) as nat),
        ;
    } else {
        assert(base * 1 == base);
    }
}

/// A noise function that returns one everywhere sums to
/// `1 + 1/2 + ... + 1/2^(octaves - 1)`, that is `2 - 2^(1 - octaves)`, without
/// any rounding, up to 33 octaves; further octaves add nothing.
pub proof fn lemma_fixed_unit_series(octaves: nat)
    ensures
        constant_series(Fixed::one_spec(), octaves).raw == if octaves <= 33 {
            pow2(33) - pow2((33 - octaves) as nat)
        } else {
            pow2(33) - 1
        },
    decreases octaves,
{
    lemma2_to64();
    assert(pow2(33) == 0x2_0000_0000) by {
        lemma_pow2_unfold(33);
    }
    if octaves > 0 {
        let k: nat = (octaves - 1) as nat;
        lemma_fixed_unit_series(k);
        lemma_fixed_amplitude(k);
        lemma_one_mul(amplitude::<Fixed>(k));
        if octaves <= 33 {
            lemma_pow2_unfold((33 - k) as nat);
            lemma_pow2_pos((33 - octaves) as nat);
        }
    }
}

/// Weighting a value by the amplitude of octave `k` divides its raw value by
/// `2^k`, rounding toward zero; from octave 33 on the weight is zero.
pub proof fn lemma_fixed_weight(c: Fixed, k: nat)
    ensures
        c.mul_spec(amplitude::<Fixed>(k)).raw == if k <= 32 {
            quotient(c.raw as int, pow2(k) as int)
        } else {
            0
        },
{
    lemma2_to64();
    lemma_fixed_amplitude(k);
    let a: int = c.raw as int;
    if k <= 32 {
        let m: int = pow2((32 - k) as nat) as int;
        let d: int = pow2(k) as int;
        lemma_pow2_pos((32 - k) as nat);
        lemma_pow2_pos(k);
        lemma_pow2_adds((32 - k) as nat, k);
        assert(m * d == UNIT);
        let size: int = if a >= 0 {
            a
        } else {
            -a
        };
        lemma_div_multiples_vanish_quotient(m, size, d);
        lemma_div_nonincreasing(size, d);
        lemma_div_pos_is_pos(size, d);
        assert(m * size == size * m) by (nonlinear_arith);
        assert(a >= 0 ==> a * m == size * m && a * m >= 0) by (nonlinear_arith)
            requires
                m > 0,
                size == if a >= 0 {
                    a
                } else {
                    -a
                },
        ;
        assert(a < 0 ==> -(a * m) == size * m && a * m < 0) by (nonlinear_arith)
            requires
                m > 0,
                size == if a >= 0 {
                    a
                } else {
                    -a
                },
        ;
    } else {
        assert(a * 0 == 0);
    }
}

/// One more octave of a constant `c >= 0`: where `s`, the sum so far, lies
/// within `k` units below `c * (2 - 2 / p)`, the sum with `c / p` added lies
/// within `k + 1` units below `c * (2 - 1 / p)`.
proof fn lemma_series_step(c: int, p: int, k: int, s: int)
    requires
        p >= 1,
        k >= 0,
        c >= 0,
        s >= 0,
        c * (2 * p - 2) - k * p <= s * p <= c * (2 * p - 2),
    ensures
        0 <= s + c / p,
        c > 0 ==> s + c / p < 2 * c,
        c == 0 ==> s + c / p == 0,
        c * (4 * p - 2) - (k + 1) * (2 * p) <= (s + c / p) * (2 * p) <= c * (4 * p - 2),
{
    let t: int = c / p;
    lemma_fundamental_div_mod(c, p);
    lemma_mod_bound(c, p);
    lemma_div_pos_is_pos(c, p);
    let sp: int = s * p;
    let tp: int = t * p;
    let cp: int = c * p;
    let kp: int = k * p;
    assert(tp == p * t) by (nonlinear_arith)
        requires
            tp == t * p,
    ;
    assert(tp <= c < tp + p);
    assert(c * (2 * p - 2) == 2 * cp - 2 * c) by (nonlinear_arith)
        requires
            cp == c * p,
    ;
    assert(c * (4 * p - 2) == 4 * cp - 2 * c) by (nonlinear_arith)
        requires
            cp == c * p,
    ;
    assert((s + t) * (2 * p) == 2 * sp + 2 * tp) by (nonlinear_arith)
        requires
            sp == s * p,
            tp == t * p,
    ;
    assert((k + 1) * (2 * p) == 2 * kp + 2 * p) by (nonlinear_arith)
        requires
            kp == k * p,
    ;
    assert((2 * c) * (2 * p) == 4 * cp) by (nonlinear_arith)
        requires
            cp == c * p,
    ;
    if c > 0 {
        assert((s + t) * (2 * p) < (2 * c) * (2 * p));
        assert(s + t < 2 * c) by (nonlinear_arith)
            requires
                (s + t) * (2 * p) < (2 * c) * (2 * p),
                p >= 1,
        ;
    } else {
        assert(t == 0);
        assert(sp <= 0);
        assert(s == 0) by (nonlinear_arith)
            requires
                s * p <= 0,
                s >= 0,
                p >= 1,
        ;
    }
}

/// A noise function that returns `c` everywhere sums to within `octaves`
/// units of the resolution of `c * (2 - 2^(1 - octaves))`, the geometric
/// series, and never beyond it: each octave rounds toward zero. Both sides
/// are stated times `2^octaves`.
pub proof fn lemma_fixed_constant_series(c: Fixed, octaves: nat)
    requires
        octaves <= 33,
        -0x4000_0000_0000_0000 <= c.raw <= 0x4000_0000_0000_0000,
    ensures
        ({
            let sum: int = constant_series(c, octaves).raw as int;
            let exact: int = c.raw * (pow2(octaves + 1) - 2);
            let slack: int = (octaves * pow2(octaves)) as int;
            &&& c.raw >= 0 ==> 0 <= sum && exact - slack <= sum * pow2(octaves) <= exact
            &&& c.raw <= 0 ==> sum <= 0 && exact <= sum * pow2(octaves) <= exact + slack
        }),
    decreases octaves,
{
    lemma2_to64();
    if octaves == 0 {
        assert(c.raw * (2 - 2) == 0);
    } else {
        let k: nat = (octaves - 1) as nat;
        let p: int = pow2(k) as int;
        let before: int = constant_series(c, k).raw as int;
        let a: int = c.raw as int;
        lemma_fixed_constant_series(c, k);
        lemma_fixed_weight(c, k);
        lemma_pow2_pos(k);
        lemma_pow2_unfold(octaves);
        lemma_pow2_unfold(octaves + 1);
        assert(pow2(octaves) == 2 * p);
        assert(pow2(octaves + 1) == 4 * p);
        if a >= 0 {
            lemma_series_step(a, p, k as int, before);
        } else {
            assert((-a) * (2 * p - 2) == -(a * (2 * p - 2))) by (nonlinear_arith);
            assert((-before) * p == -(before * p)) by (nonlinear_arith);
            lemma_series_step(-a, p, k as int, -before);
            let t: int = (-a) / p;
            assert((-a) * (4 * p - 2) == -(a * (4 * p - 2))) by (nonlinear_arith);
            assert((-before + t) * (2 * p) == -((before - t) * (2 * p))) by (nonlinear_arith);
        }
    }
}

} // verus!
