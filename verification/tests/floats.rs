use std::cell::{Cell, RefCell};

use fbm::{brownian, brownian2, brownian3, brownian4, scale_point, Scalar};

/// Double precision as a scalar. The items that only contracts name repeat
/// the arithmetic; nothing calls them.
#[derive(Clone, Copy, Debug, PartialEq)]
struct Double(f64);

impl Scalar for Double {
    fn zero_spec() -> Self {
        Double(0.0)
    }

    fn one_spec() -> Self {
        Double(1.0)
    }

    fn half_spec() -> Self {
        Double(0.5)
    }

    fn two_spec() -> Self {
        Double(2.0)
    }

    fn add_spec(self, rhs: Self) -> Self {
        Double(self.0 + rhs.0)
    }

    fn mul_spec(self, rhs: Self) -> Self {
        Double(self.0 * rhs.0)
    }

    fn recip_spec(self) -> Self {
        Double(self.0.recip())
    }

    fn lemma_zero_add(_x: Self) {}

    fn lemma_mul_one(_x: Self) {}

    fn zero() -> Self {
        Double(0.0)
    }

    fn one() -> Self {
        Double(1.0)
    }

    fn half() -> Self {
        Double(0.5)
    }

    fn two() -> Self {
        Double(2.0)
    }

    fn add(self, rhs: Self) -> Self {
        Double(self.0 + rhs.0)
    }

    fn mul(self, rhs: Self) -> Self {
        Double(self.0 * rhs.0)
    }

    fn recip(self) -> Self {
        Double(self.0.recip())
    }
}

/// Single precision as a scalar.
#[derive(Clone, Copy, Debug, PartialEq)]
struct Single(f32);

impl Scalar for Single {
    fn zero_spec() -> Self {
        Single(0.0)
    }

    fn one_spec() -> Self {
        Single(1.0)
    }

    fn half_spec() -> Self {
        Single(0.5)
    }

    fn two_spec() -> Self {
        Single(2.0)
    }

    fn add_spec(self, rhs: Self) -> Self {
        Single(self.0 + rhs.0)
    }

    fn mul_spec(self, rhs: Self) -> Self {
        Single(self.0 * rhs.0)
    }

    fn recip_spec(self) -> Self {
        Single(self.0.recip())
    }

    fn lemma_zero_add(_x: Self) {}

    fn lemma_mul_one(_x: Self) {}

    fn zero() -> Self {
        Single(0.0)
    }

    fn one() -> Self {
        Single(1.0)
    }

    fn half() -> Self {
        Single(0.5)
    }

    fn two() -> Self {
        Single(2.0)
    }

    fn add(self, rhs: Self) -> Self {
        Single(self.0 + rhs.0)
    }

    fn mul(self, rhs: Self) -> Self {
        Single(self.0 * rhs.0)
    }

    fn recip(self) -> Self {
        Single(self.0.recip())
    }
}

/// A stand-in for a table of permutations.
struct Seed {
    offset: f64,
}

#[test]
fn three_octaves_of_constant_one() {
    let seed = Seed { offset: 0.0 };
    let one = |_: &Seed, _: &[Double; 2]| Double(1.0);
    let point = [Double(0.25), Double(3.0)];
    assert_eq!(brownian2(&seed, &point, one, Double(1.0), 3), Double(1.75));
    let one3 = |_: &Seed, _: &[Double; 3]| Double(1.0);
    let point3 = [Double(0.25), Double(3.0), Double(-8.0)];
    assert_eq!(brownian3(&seed, &point3, one3, Double(1.0), 3), Double(1.75));
    let one4 = |_: &Seed, _: &[Double; 4]| Double(1.0);
    let point4 = [Double(0.25), Double(3.0), Double(-8.0), Double(0.0)];
    assert_eq!(brownian4(&seed, &point4, one4, Double(1.0), 3), Double(1.75));
}

#[test]
fn three_octaves_of_constant_one_in_single_precision() {
    let one = |_: &u8, _: &[Single; 2]| Single(1.0);
    let point = [Single(0.25), Single(3.0)];
    assert_eq!(brownian2(&0u8, &point, one, Single(1.0), 3), Single(1.75));
}

#[test]
fn no_octaves_is_zero_without_a_call() {
    let calls = Cell::new(0u32);
    let seed = Seed { offset: 1.0 };
    let noise2 = |_: &Seed, _: &[Double; 2]| {
        calls.set(calls.get() + 1);
        Double(1.0)
    };
    let noise3 = |_: &Seed, _: &[Double; 3]| {
        calls.set(calls.get() + 1);
        Double(f64::NAN)
    };
    let noise4 = |_: &Seed, _: &[Double; 4]| {
        calls.set(calls.get() + 1);
        Double(-3.5)
    };
    for wavelength in [1.0, 0.5, -7.0, 1e300, 0.0, f64::INFINITY, f64::NAN] {
        let w = Double(wavelength);
        let r2 = brownian2(&seed, &[Double(1.0), Double(2.0)], &noise2, w, 0);
        let r3 = brownian3(&seed, &[Double(1.0), Double(2.0), Double(3.0)], &noise3, w, 0);
        let r4 =
            brownian4(&seed, &[Double(1.0), Double(2.0), Double(3.0), Double(4.0)], &noise4, w, 0);
        assert_eq!(r2.0.to_bits(), 0.0f64.to_bits());
        assert_eq!(r3.0.to_bits(), 0.0f64.to_bits());
        assert_eq!(r4.0.to_bits(), 0.0f64.to_bits());
    }
    assert_eq!(calls.get(), 0);
}

#[test]
fn single_octave_is_the_noise_itself() {
    let seed = Seed { offset: 0.125 };
    let noise = |s: &Seed, p: &[Double; 3]| Double((p[0].0 * 3.0 - p[1].0).sin() * p[2].0 + s.offset);
    let point = [Double(0.3), Double(-1.7), Double(2.9)];
    for wavelength in [1.0, 3.0, 0.1, -2.5, 1e-3] {
        let frequency = 1.0 / wavelength;
        let at = [Double(0.3 * frequency), Double(-1.7 * frequency), Double(2.9 * frequency)];
        let expected = noise(&seed, &at);
        let result = brownian3(&seed, &point, noise, Double(wavelength), 1);
        assert_eq!(result.0.to_bits(), expected.0.to_bits());
    }
}

#[test]
fn each_octave_doubles_the_coordinates() {
    let seen: RefCell<Vec<[f64; 3]>> = RefCell::new(Vec::new());
    let noise = |_: &u8, p: &[Double; 3]| {
        seen.borrow_mut().push([p[0].0, p[1].0, p[2].0]);
        Double(0.0)
    };
    let point = [Double(0.3), Double(-1.7), Double(2.9)];
    let wavelength = 3.0;
    brownian3(&0u8, &point, noise, Double(wavelength), 12);
    let seen = seen.borrow();
    assert_eq!(seen.len(), 12);
    let frequency = 1.0 / wavelength;
    assert_eq!(seen[0], [0.3 * frequency, -1.7 * frequency, 2.9 * frequency]);
    let mut power = 1.0;
    for k in 0..12 {
        for j in 0..3 {
            assert_eq!(seen[k][j], [0.3, -1.7, 2.9][j] * (frequency * power));
            if k > 0 {
                assert_eq!(seen[k][j] / seen[k - 1][j], 2.0);
            }
        }
        power *= 2.0;
    }
}

#[test]
fn each_octave_halves_the_weight() {
    // The noise is 1 at one octave and 0 at the others, so the sum is the
    // weight of that octave.
    for chosen in 0u32..20 {
        let calls = Cell::new(0u32);
        let noise = |_: &u8, _: &[Double; 2]| {
            let k = calls.get();
            calls.set(k + 1);
            Double(if k == chosen { 1.0 } else { 0.0 })
        };
        let result = brownian2(&0u8, &[Double(1.0), Double(1.0)], noise, Double(1.0), 20);
        assert_eq!(result, Double(0.5f64.powi(chosen as i32)));
        assert_eq!(calls.get(), 20);
    }
}

#[test]
fn octaves_are_sampled_in_rising_frequency() {
    let seen: RefCell<Vec<f64>> = RefCell::new(Vec::new());
    let noise = |_: &u8, p: &[Double; 4]| {
        seen.borrow_mut().push(p[3].0);
        Double(1.0)
    };
    let point = [Double(0.0), Double(0.0), Double(0.0), Double(5.0)];
    brownian4(&0u8, &point, noise, Double(10.0), 5);
    let tenth = 1.0 / 10.0;
    assert_eq!(
        *seen.borrow(),
        vec![5.0 * tenth, 5.0 * (tenth * 2.0), 5.0 * (tenth * 4.0), 5.0 * (tenth * 8.0), 5.0 * (tenth * 16.0)]
    );
}

#[test]
fn only_the_first_coordinate_counts() {
    let by_first = |x: f64| (x * 1.3).cos() + x * x;
    let noise2 = |_: &u8, p: &[Double; 2]| Double(by_first(p[0].0));
    let noise3 = |_: &u8, p: &[Double; 3]| Double(by_first(p[0].0));
    let noise4 = |_: &u8, p: &[Double; 4]| Double(by_first(p[0].0));
    let x = Double(0.7321);
    let w = Double(2.75);
    let r2 = brownian2(&0u8, &[x, Double(1.0)], noise2, w, 8);
    let r3 = brownian3(&0u8, &[x, Double(-4.0), Double(1e9)], noise3, w, 8);
    let r4 = brownian4(&0u8, &[x, Double(0.0), Double(f64::NAN), Double(-0.5)], noise4, w, 8);
    let other2 = brownian2(&0u8, &[x, Double(-77.0)], noise2, w, 8);
    assert_eq!(r2.0.to_bits(), r3.0.to_bits());
    assert_eq!(r3.0.to_bits(), r4.0.to_bits());
    assert_eq!(r2.0.to_bits(), other2.0.to_bits());
    assert!(r2.0.is_finite());
}

#[test]
fn constant_noise_sums_the_geometric_series() {
    for c in [1.0, -2.5, 0.1, 1e10, 3.0e-7] {
        let noise = move |_: &u8, _: &[Double; 2]| Double(c);
        let mut series = 0.0;
        let mut term = 1.0;
        for k in 0u32..30 {
            let result = brownian2(&0u8, &[Double(0.4), Double(0.6)], noise, Double(1.5), k);
            let expected = c * series;
            assert!((result.0 - expected).abs() <= 1e-12 * c.abs());
            // in closed form: 2 - 2^(1 - k)
            if k > 0 {
                let closed = c * (2.0 - 0.5f64.powi(k as i32 - 1));
                assert!((result.0 - closed).abs() <= 1e-12 * c.abs());
            }
            series += term;
            term *= 0.5;
        }
    }
}

#[test]
fn same_call_same_bits() {
    let seed = Seed { offset: 0.333 };
    let noise = |s: &Seed, p: &[Double; 4]| {
        Double((p[0].0 * 12.9898 + p[1].0 * 78.233 + p[2].0 * 37.719 + p[3].0 + s.offset).sin())
    };
    let point = [Double(0.1), Double(0.2), Double(0.3), Double(0.4)];
    let first = brownian4(&seed, &point, noise, Double(0.77), 16);
    let second = brownian4(&seed, &point, noise, Double(0.77), 16);
    assert_eq!(first.0.to_bits(), second.0.to_bits());
}

#[test]
fn the_combinator_for_any_dimension_agrees_with_the_named_ones() {
    let noise2 = |_: &u8, p: &[Double; 2]| Double(p[0].0 - p[1].0);
    let noise3 = |_: &u8, p: &[Double; 3]| Double(p[0].0 - p[1].0 * p[2].0);
    let noise4 = |_: &u8, p: &[Double; 4]| Double(p[0].0 - p[1].0 * p[2].0 + p[3].0);
    let flat = [Double(1.5), Double(0.25)];
    let solid = [Double(1.5), Double(0.25), Double(-3.0)];
    let hyper = [Double(1.5), Double(0.25), Double(-3.0), Double(9.0)];
    let w = Double(1.25);
    assert_eq!(brownian(&0u8, &flat, noise2, w, 7), brownian2(&0u8, &flat, noise2, w, 7));
    assert_eq!(brownian(&0u8, &solid, noise3, w, 7), brownian3(&0u8, &solid, noise3, w, 7));
    assert_eq!(brownian(&0u8, &hyper, noise4, w, 7), brownian4(&0u8, &hyper, noise4, w, 7));
    // two octaves by hand: n(p / w) + n(p * (1 / w * 2)) * 0.5
    let f = 1.0 / 1.25;
    let by_hand = (0.0 + (1.5 * f - 0.25 * f) * 1.0) + (1.5 * (f * 2.0) - 0.25 * (f * 2.0)) * 0.5;
    assert_eq!(brownian2(&0u8, &flat, noise2, w, 2), Double(by_hand));
}

#[test]
fn scaling_multiplies_each_coordinate() {
    let point = [Double(1.0), Double(-2.0), Double(0.5)];
    assert_eq!(
        scale_point(&point, Double(3.0)),
        [Double(3.0), Double(-6.0), Double(1.5)]
    );
}

#[test]
fn zero_wavelength_gives_a_result_that_is_not_finite() {
    let noise = |_: &u8, p: &[Double; 2]| p[0];
    let result = brownian2(&0u8, &[Double(1.0), Double(2.0)], noise, Double(0.0), 3);
    assert!(!result.0.is_finite());
    let at_origin = brownian2(&0u8, &[Double(0.0), Double(0.0)], noise, Double(0.0), 3);
    assert!(at_origin.0.is_nan());
}

#[test]
fn many_octaves_overflow_the_frequency() {
    let last = Cell::new(0.0f32);
    let noise = |_: &u8, p: &[Single; 2]| {
        last.set(p[0].0);
        Single(1.0)
    };
    let result = brownian2(&0u8, &[Single(1.0), Single(1.0)], noise, Single(1.0), 200);
    // the frequency has passed the largest single-precision value, and the
    // weights have long fallen below the resolution of the sum
    assert_eq!(last.get(), f32::INFINITY);
    assert_eq!(result, Single(2.0));
}
