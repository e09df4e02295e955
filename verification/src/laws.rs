//! What holds of every fractal sum, whatever the scalar and the noise
//! function.

use vstd::prelude::*;
use crate::brownian::{
    amplitude, frequency, is_fractal_sum, lemma_scale, octave_point, sampled_from, scale,
    weighted_sum,
};
use crate::scalar::Scalar;

verus! {

/// The sum that a noise function returning `c` everywhere adds up to: `c`
/// times each of the first `octaves` amplitudes, added in order.
pub open spec fn constant_series<T: Scalar>(c: T, octaves: nat) -> T
    decreases octaves,
{
    if octaves == 0 {
        T::zero_spec()
    } else {
        constant_series(c, (octaves - 1) as nat).add_spec(
            c.mul_spec(amplitude::<T>((octaves - 1) as nat)),
        )
    }
}

/// A fractal sum of no octaves is zero, whatever the noise function.
pub proof fn lemma_no_octaves<S, T: Scalar, F: Fn(&S, &[T; N]) -> T, const N: usize>(
    result: T,
    noise_func: F,
    seed: &S,
    point: [T; N],
    wavelength: T,
)
    requires
        is_fractal_sum(result, noise_func, seed, point, wavelength, 0),
    ensures
        result == T::zero_spec(),
{
}

/// A fractal sum of one octave is a value that the noise function returns at
/// the point divided by the wavelength.
pub proof fn lemma_single_octave<S, T: Scalar, F: Fn(&S, &[T; N]) -> T, const N: usize>(
    result: T,
    noise_func: F,
    seed: &S,
    point: [T; N],
    wavelength: T,
)
    requires
        is_fractal_sum(result, noise_func, seed, point, wavelength, 1),
    ensures
        noise_func.ensures((seed, &scale(point, wavelength.recip_spec())), result),
{
    let samples = choose|samples: Seq<T>|
        samples.len() == 1 && #[trigger] sampled_from(samples, noise_func, seed, point, wavelength)
            && result == weighted_sum(samples);
    assert(octave_point(point, wavelength, 0) == scale(point, wavelength.recip_spec()));
    assert(weighted_sum(samples.drop_last()) == T::zero_spec());
    T::lemma_mul_one(samples[0]);
    T::lemma_zero_add(samples[0]);
}

/// From one octave to the next the frequency is multiplied by two and the
/// amplitude by one half, starting from the reciprocal of the wavelength and
/// from one.
pub proof fn lemma_octave_progression<T: Scalar>(wavelength: T, k: nat)
    ensures
        frequency(wavelength, 0) == wavelength.recip_spec(),
        frequency(wavelength, k + 1) == frequency(wavelength, k).mul_spec(T::two_spec()),
        amplitude::<T>(0) == T::one_spec(),
        amplitude::<T>(k + 1) == amplitude::<T>(k).mul_spec(T::half_spec()),
{
}

/// Two fractal sums with the same arguments are equal wherever the noise
/// function returns one value only at each octave's point.
pub proof fn lemma_deterministic<S, T: Scalar, F: Fn(&S, &[T; N]) -> T, const N: usize>(
    first: T,
    second: T,
    noise_func: F,
    seed: &S,
    point: [T; N],
    wavelength: T,
    octaves: nat,
)
    requires
        is_fractal_sum(first, noise_func, seed, point, wavelength, octaves),
        is_fractal_sum(second, noise_func, seed, point, wavelength, octaves),
        forall|k: nat, a: T, b: T|
            k < octaves && noise_func.ensures(
                (seed, &#[trigger] octave_point(point, wavelength, k)),
                a,
            ) && noise_func.ensures((seed, &octave_point(point, wavelength, k)), b) ==> a == b,
    ensures
        first == second,
{
    let s1 = choose|samples: Seq<T>|
        samples.len() == octaves && #[trigger] sampled_from(
            samples,
            noise_func,
            seed,
            point,
            wavelength,
        ) && first == weighted_sum(samples);
    let s2 = choose|samples: Seq<T>|
        samples.len() == octaves && #[trigger] sampled_from(
            samples,
            noise_func,
            seed,
            point,
            wavelength,
        ) && second == weighted_sum(samples);
    assert forall|k: int| 0 <= k < octaves implies s1[k] == s2[k] by {
        let p = octave_point(point, wavelength, k as nat);
        assert(noise_func.ensures((seed, &p), s1[k]));
        assert(noise_func.ensures((seed, &p), s2[k]));
    }
    assert(s1 =~= s2);
}

/// Where two noise functions, over points of any two dimensions, return a
/// value that is a function `h` of the first coordinate alone, fractal sums
/// around two points that share their first coordinate are equal.
pub proof fn lemma_first_coordinate_only<
    S,
    T: Scalar,
    F: Fn(&S, &[T; N]) -> T,
    G: Fn(&S, &[T; M]) -> T,
    const N: usize,
    const M: usize,
>(
    low: T,
    high: T,
    noise_low: F,
    noise_high: G,
    seed: &S,
    point_low: [T; N],
    point_high: [T; M],
    wavelength: T,
    octaves: nat,
    h: spec_fn(T) -> T,
)
    requires
        N >= 1,
        M >= 1,
        point_low@[0] == point_high@[0],
        forall|x: [T; N], r: T| #[trigger] noise_low.ensures((seed, &x), r) ==> r == h(x@[0]),
        forall|x: [T; M], r: T| #[trigger] noise_high.ensures((seed, &x), r) ==> r == h(x@[0]),
        is_fractal_sum(low, noise_low, seed, point_low, wavelength, octaves),
        is_fractal_sum(high, noise_high, seed, point_high, wavelength, octaves),
    ensures
        low == high,
{
    let s1 = choose|samples: Seq<T>|
        samples.len() == octaves && #[trigger] sampled_from(
            samples,
            noise_low,
            seed,
            point_low,
            wavelength,
        ) && low == weighted_sum(samples);
    let s2 = choose|samples: Seq<T>|
        samples.len() == octaves && #[trigger] sampled_from(
            samples,
            noise_high,
            seed,
            point_high,
            wavelength,
        ) && high == weighted_sum(samples);
    assert forall|k: int| 0 <= k < octaves implies s1[k] == s2[k] by {
        let factor = frequency(wavelength, k as nat);
        let p = octave_point(point_low, wavelength, k as nat);
        let q = octave_point(point_high, wavelength, k as nat);
        lemma_scale(point_low, factor);
        lemma_scale(point_high, factor);
        assert(noise_low.ensures((seed, &p), s1[k]));
        assert(noise_high.ensures((seed, &q), s2[k]));
        assert(p@[0] == q@[0]);
    }
    assert(s1 =~= s2);
}

/// The weighted sum of samples that all equal `c`.
proof fn lemma_constant_samples<T: Scalar>(samples: Seq<T>, c: T)
    requires
        forall|k: int| 0 <= k < samples.len() ==> samples[k] == c,
    ensures
        weighted_sum(samples) == constant_series(c, samples.len()),
    decreases samples.len(),
{
    if samples.len() > 0 {
        lemma_constant_samples(samples.drop_last(), c);
    }
}

/// Where the noise function returns `c` wherever it is sampled, the fractal
/// sum is `c` times each amplitude in turn, added up in order.
pub proof fn lemma_constant_noise<S, T: Scalar, F: Fn(&S, &[T; N]) -> T, const N: usize>(
    result: T,
    noise_func: F,
    seed: &S,
    point: [T; N],
    wavelength: T,
    octaves: nat,
    c: T,
)
    requires
        is_fractal_sum(result, noise_func, seed, point, wavelength, octaves),
        forall|x: [T; N], r: T| #[trigger] noise_func.ensures((seed, &x), r) ==> r == c,
    ensures
        result == constant_series(c, octaves),
{
    let samples = choose|samples: Seq<T>|
        samples.len() == octaves && #[trigger] sampled_from(
            samples,
            noise_func,
            seed,
            point,
            wavelength,
        ) && result == weighted_sum(samples);
    assert forall|k: int| 0 <= k < samples.len() implies samples[k] == c by {
        let p = octave_point(point, wavelength, k as nat);
        assert(noise_func.ensures((seed, &p), samples[k]));
    }
    lemma_constant_samples(samples, c);
}

} // verus!
