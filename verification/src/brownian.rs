//! The fractal sum itself: its mathematical model and the executable
//! combinators for points of two, three, four or any fixed number of
//! coordinates.

use vstd::prelude::*;
use vstd::array::spec_array_update;
use crate::scalar::Scalar;

verus! {

/// The factor applied to the point at octave `k`: the reciprocal of the
/// wavelength, doubled `k` times.
pub open spec fn frequency<T: Scalar>(wavelength: T, k: nat) -> T
    decreases k,
{
    if k == 0 {
        wavelength.recip_spec()
    } else {
        frequency(wavelength, (k - 1) as nat).mul_spec(T::two_spec())
    }
}

/// The weight of the sample taken at octave `k`: one, halved `k` times.
pub open spec fn amplitude<T: Scalar>(k: nat) -> T
    decreases k,
{
    if k == 0 {
        T::one_spec()
    } else {
        amplitude::<T>((k - 1) as nat).mul_spec(T::half_spec())
    }
}

/// Each of `coordinates` multiplied by `factor`.
pub open spec fn scaled_coordinates<T: Scalar>(coordinates: Seq<T>, factor: T) -> Seq<T> {
    Seq::new(coordinates.len(), |j: int| coordinates[j].mul_spec(factor))
}

/// `point` with its first `n` coordinates multiplied by `factor`.
spec fn scale_prefix<T: Scalar, const N: usize>(point: [T; N], factor: T, n: nat) -> [T; N]
    decreases n,
{
    if n == 0 {
        point
    } else {
        spec_array_update(
            scale_prefix(point, factor, (n - 1) as nat),
            n - 1,
            point@[n - 1].mul_spec(factor),
        )
    }
}

/// The point whose coordinates are those of `point` multiplied by `factor`,
/// as `lemma_scale` shows.
pub closed spec fn scale<T: Scalar, const N: usize>(point: [T; N], factor: T) -> [T; N] {
    scale_prefix(point, factor, N as nat)
}

/// The point at which octave `k` samples the noise function.
pub open spec fn octave_point<T: Scalar, const N: usize>(
    point: [T; N],
    wavelength: T,
    k: nat,
) -> [T; N] {
    scale(point, frequency(wavelength, k))
}

/// The samples of all octaves, each weighted by its amplitude, added up from
/// the lowest octave to the highest, starting from zero.
pub open spec fn weighted_sum<T: Scalar>(samples: Seq<T>) -> T
    decreases samples.len(),
{
    if samples.len() == 0 {
        T::zero_spec()
    } else {
        weighted_sum(samples.drop_last()).add_spec(
            samples.last().mul_spec(amplitude::<T>((samples.len() - 1) as nat)),
        )
    }
}

/// Each `samples[k]` is a value that `noise_func` may return at the point of
/// octave `k`.
pub open spec fn sampled_from<S, T: Scalar, F: Fn(&S, &[T; N]) -> T, const N: usize>(
    samples: Seq<T>,
    noise_func: F,
    seed: &S,
    point: [T; N],
    wavelength: T,
) -> bool {
    forall|k: int|
        0 <= k < samples.len() ==> noise_func.ensures(
            (seed, &#[trigger] octave_point(point, wavelength, k as nat)),
            samples[k],
        )
}

/// `result` is a fractal sum of `octaves` octaves of `noise_func` around
/// `point`: the weighted sum of one sample per octave.
pub open spec fn is_fractal_sum<S, T: Scalar, F: Fn(&S, &[T; N]) -> T, const N: usize>(
    result: T,
    noise_func: F,
    seed: &S,
    point: [T; N],
    wavelength: T,
    octaves: nat,
) -> bool {
    exists|samples: Seq<T>|
        samples.len() == octaves && #[trigger] sampled_from(
            samples,
            noise_func,
            seed,
            point,
            wavelength,
        ) && result == weighted_sum(samples)
}

/// Coordinate by coordinate, what `scale_prefix` holds.
proof fn lemma_scale_prefix<T: Scalar, const N: usize>(point: [T; N], factor: T, n: nat)
    requires
        n <= N,
    ensures
        forall|j: int|
            0 <= j < N ==> #[trigger] scale_prefix(point, factor, n)@[j] == if j < n {
                point@[j].mul_spec(factor)
            } else {
                point@[j]
            },
    decreases n,
{
    if n > 0 {
        let before = scale_prefix(point, factor, (n - 1) as nat);
        lemma_scale_prefix(point, factor, (n - 1) as nat);
        assert(scale_prefix(point, factor, n)@ == before@.update(
            n - 1,
            point@[n - 1].mul_spec(factor),
        ));
    }
}

/// The coordinates of `scale(point, factor)` are those of `point`, each
/// multiplied by `factor`.
pub proof fn lemma_scale<T: Scalar, const N: usize>(point: [T; N], factor: T)
    ensures
        scale(point, factor)@ == scaled_coordinates(point@, factor),
{
    lemma_scale_prefix(point, factor, N as nat);
    assert(scale(point, factor)@ =~= scaled_coordinates(point@, factor));
}

/// Multiplies every coordinate of `point` by `factor`.
pub fn scale_point<T: Scalar, const N: usize>(point: &[T; N], factor: T) -> (scaled: [T; N])
    ensures
        scaled == scale(*point, factor),
        scaled@ == scaled_coordinates(point@, factor),
{
    let mut scaled: [T; N] = *point;
    let mut i: usize = 0;
    while i < N
        invariant
            i <= N,
            forall|j: int|
                0 <= j < N ==> #[trigger] scaled@[j] == if j < i {
                    point@[j].mul_spec(factor)
                } else {
                    point@[j]
                },
        decreases N - i,
    {
        scaled[i] = point[i].mul(factor);
        i += 1;
    }
    proof {
        lemma_scale(*point, factor);
        assert(scaled =~= scale(*point, factor));
    }
    scaled
}

/// Sums `octaves` octaves of `noise_func` around `point`.
///
/// Octave `k` samples `noise_func` at `point` scaled by
/// `frequency(wavelength, k)` and weights the sample by `amplitude(k)`; the
/// weighted samples are added in order of rising frequency, starting from
/// zero. `noise_func` is called only at those points, so with no octaves it
/// is not called at all and may have any precondition.
pub fn brownian<S, T, F, const N: usize>(
    seed: &S,
    point: &[T; N],
    noise_func: F,
    wavelength: T,
    octaves: u32,
) -> (result: T) where T: Scalar, F: Fn(&S, &[T; N]) -> T
    requires
        forall|k: nat|
            k < octaves ==> noise_func.requires(
                (seed, &#[trigger] octave_point(*point, wavelength, k)),
            ),
    ensures
        is_fractal_sum(result, noise_func, seed, *point, wavelength, octaves as nat),
        octaves == 0 ==> result == T::zero_spec(),
        octaves == 1 ==> noise_func.ensures(
            (seed, &scale(*point, wavelength.recip_spec())),
            result,
        ),
{
    let mut frequency: T = wavelength.recip();
    let mut amplitude: T = T::one();
    let mut result: T = T::zero();
    let ghost mut samples: Seq<T> = Seq::empty();
    let mut done: u32 = 0;
    while done < octaves
        invariant
            done <= octaves,
            forall|k: nat|
                k < octaves ==> noise_func.requires(
                    (seed, &#[trigger] octave_point(*point, wavelength, k)),
                ),
            frequency == self::frequency(wavelength, done as nat),
            amplitude == self::amplitude::<T>(done as nat),
            samples.len() == done,
            sampled_from(samples, noise_func, seed, *point, wavelength),
            result == weighted_sum(samples),
            done == 1 ==> noise_func.ensures(
                (seed, &scale(*point, wavelength.recip_spec())),
                result,
            ),
        decreases octaves - done,
    {
        let scaled_point = scale_point(point, frequency);
        assert(scaled_point == octave_point(*point, wavelength, done as nat));
        let sample = noise_func(seed, &scaled_point);
        proof {
            assert(samples.push(sample).drop_last() =~= samples);
            if done == 0 {
                T::lemma_mul_one(sample);
                T::lemma_zero_add(sample);
            }
            samples = samples.push(sample);
        }
        result = result.add(sample.mul(amplitude));
        amplitude = amplitude.mul(T::half());
        frequency = frequency.mul(T::two());
        done += 1;
    }
    result
}

/// Sums `octaves` octaves of `noise_func` around a point of two coordinates.
pub fn brownian2<S, T, F>(
    seed: &S,
    point: &[T; 2],
    noise_func: F,
    wavelength: T,
    octaves: u32,
) -> (result: T) where T: Scalar, F: Fn(&S, &[T; 2]) -> T
    requires
        forall|k: nat|
            k < octaves ==> noise_func.requires(
                (seed, &#[trigger] octave_point(*point, wavelength, k)),
            ),
    ensures
        is_fractal_sum(result, noise_func, seed, *point, wavelength, octaves as nat),
        octaves == 0 ==> result == T::zero_spec(),
        octaves == 1 ==> noise_func.ensures(
            (seed, &scale(*point, wavelength.recip_spec())),
            result,
        ),
{
    brownian(seed, point, noise_func, wavelength, octaves)
}

/// Sums `octaves` octaves of `noise_func` around a point of three
/// coordinates.
pub fn brownian3<S, T, F>(
    seed: &S,
    point: &[T; 3],
    noise_func: F,
    wavelength: T,
    octaves: u32,
) -> (result: T) where T: Scalar, F: Fn(&S, &[T; 3]) -> T
    requires
        forall|k: nat|
            k < octaves ==> noise_func.requires(
                (seed, &#[trigger] octave_point(*point, wavelength, k)),
            ),
    ensures
        is_fractal_sum(result, noise_func, seed, *point, wavelength, octaves as nat),
        octaves == 0 ==> result == T::zero_spec(),
        octaves == 1 ==> noise_func.ensures(
            (seed, &scale(*point, wavelength.recip_spec())),
            result,
        ),
{
    brownian(seed, point, noise_func, wavelength, octaves)
}

/// Sums `octaves` octaves of `noise_func` around a point of four coordinates.
pub fn brownian4<S, T, F>(
    seed: &S,
    point: &[T; 4],
    noise_func: F,
    wavelength: T,
    octaves: u32,
) -> (result: T) where T: Scalar, F: Fn(&S, &[T; 4]) -> T
    requires
        forall|k: nat|
            k < octaves ==> noise_func.requires(
                (seed, &#[trigger] octave_point(*point, wavelength, k)),
            ),
    ensures
        is_fractal_sum(result, noise_func, seed, *point, wavelength, octaves as nat),
        octaves == 0 ==> result == T::zero_spec(),
        octaves == 1 ==> noise_func.ensures(
            (seed, &scale(*point, wavelength.recip_spec())),
            result,
        ),
{
    brownian(seed, point, noise_func, wavelength, octaves)
}

} // verus!
