//! Scene objects.

pub mod sphere;

pub use sphere::{Contact, MovingSphere, Roots, Sphere};
