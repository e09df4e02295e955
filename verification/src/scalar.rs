//! The arithmetic that the fractal sum needs from its number type.

use vstd::prelude::*;

verus! {

/// A number type closed under addition, multiplication and reciprocal, with
/// the four constants that the octave progression uses.
///
/// Every executable operation is total and returns exactly what its
/// specification counterpart denotes, so a computation over a `Scalar` is a
/// function of its inputs alone.
pub trait Scalar: Copy + Sized {
    /// The additive identity.
    spec fn zero_spec() -> Self;

    /// The multiplicative identity.
    spec fn one_spec() -> Self;

    /// The constant one half.
    spec fn half_spec() -> Self;

    /// The constant two.
    spec fn two_spec() -> Self;

    /// The sum of two values.
    spec fn add_spec(self, rhs: Self) -> Self;

    /// The product of two values.
    spec fn mul_spec(self, rhs: Self) -> Self;

    /// The multiplicative inverse of a value.
    spec fn recip_spec(self) -> Self;

    fn zero() -> (r: Self)
        ensures
            r == Self::zero_spec(),
    ;

    fn one() -> (r: Self)
        ensures
            r == Self::one_spec(),
    ;

    fn half() -> (r: Self)
        ensures
            r == Self::half_spec(),
    ;

    fn two() -> (r: Self)
        ensures
            r == Self::two_spec(),
    ;

    fn add(self, rhs: Self) -> (r: Self)
        ensures
            r == self.add_spec(rhs),
    ;

    fn mul(self, rhs: Self) -> (r: Self)
        ensures
            r == self.mul_spec(rhs),
    ;

    fn recip(self) -> (r: Self)
        ensures
            r == self.recip_spec(),
    ;

    /// Adding a value to zero gives the value back.
    proof fn lemma_zero_add(x: Self)
        ensures
            Self::zero_spec().add_spec(x) == x,
    ;

    /// Multiplying a value by one gives the value back.
    proof fn lemma_mul_one(x: Self)
        ensures
            x.mul_spec(Self::one_spec()) == x,
    ;
}

} // verus!
