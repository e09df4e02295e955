//! Fractal Brownian motion over an abstract scalar: a base noise function is
//! sampled at doubling frequencies and summed with halving amplitudes.
//!
//! `brownian` holds the combinators and their mathematical model, `scalar`
//! the arithmetic they are generic over, `fixed` a fixed-point scalar, and
//! `laws` and `fixed_laws` what is proved of every fractal sum.

pub mod brownian;
pub mod fixed;
pub mod fixed_laws;
pub mod laws;
pub mod scalar;

pub use crate::brownian::{brownian, brownian2, brownian3, brownian4, scale_point};
pub use crate::fixed::Fixed;
pub use crate::scalar::Scalar;
