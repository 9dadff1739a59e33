//! Decision kernel of a Monte Carlo path tracer.
//!
//! Real numbers travel through this crate as IEEE-754 binary64 bit patterns
//! ([`scalar::Scalar`]). Ordering, sign handling and selection are carried out
//! on the patterns themselves and are proved exact; rounding arithmetic is the
//! caller's business and enters as arguments or through the
//! [`graphics::Hit`], [`graphics::Material`] and [`graphics::Texture`] traits.

pub mod scalar;
pub mod math;
pub mod rng;
pub mod graphics;
pub mod object;
pub mod raster;
