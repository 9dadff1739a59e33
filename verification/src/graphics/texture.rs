//! Surface colors.

use vstd::prelude::*;
use crate::graphics::perlin::Perlin;
use crate::math::{Point, Rgb, Vec3};
use crate::scalar::Scalar;

verus! {

/// A color for every point of a surface.
///
/// The color is a function of the surface coordinates and the point.
pub trait Texture {
    /// The color that [`Texture::value`] reports.
    open spec fn value_spec(&self, u: Scalar, v: Scalar, p: Point) -> Rgb {
        arbitrary()
    }

    /// The color at the surface coordinates `(u, v)` and the point `p`.
    fn value(&self, u: Scalar, v: Scalar, p: &Point) -> (c: Rgb)
        ensures
            c == self.value_spec(u, v, *p),
    ;
}

/// Texture with a solid color.
pub struct Solid {
    pub color: Rgb,
}

impl Solid {
    pub fn new(color: Rgb) -> (s: Solid)
        ensures
            s.color == color,
    {
        Solid { color }
    }
}

impl Texture for Solid {
    open spec fn value_spec(&self, u: Scalar, v: Scalar, p: Point) -> Rgb {
        self.color
    }

    fn value(&self, _u: Scalar, _v: Scalar, _p: &Point) -> (c: Rgb) {
        self.color
    }
}

/// Checkered texture.
pub struct Checkered<E, O> {
    pub even: E,
    pub odd: O,
}

impl<E: Texture, O: Texture> Checkered<E, O> {
    /// The color of the field that `lattice` selects: the even texture where
    /// it is negative, the odd one elsewhere.
    pub open spec fn value_spec(&self, u: Scalar, v: Scalar, p: Point, lattice: Scalar) -> Rgb {
        if lattice.lt_spec(Scalar { bits: 0 }) {
            self.even.value_spec(u, v, p)
        } else {
            self.odd.value_spec(u, v, p)
        }
    }

    pub fn new(even: E, odd: O) -> (c: Self)
        ensures
            c.even == even,
            c.odd == odd,
    {
        Checkered { even, odd }
    }

    /// The color at `p`, where `lattice` is the product of the sines of ten
    /// times each coordinate of `p`; its sign tells the fields apart.
    pub fn value(&self, u: Scalar, v: Scalar, p: &Point, lattice: Scalar) -> (c: Rgb)
        ensures
            c == self.value_spec(u, v, *p, lattice),
    {
        if lattice.lt(Scalar::zero()) {
            self.even.value(u, v, p)
        } else {
            self.odd.value(u, v, p)
        }
    }
}

impl Checkered<Solid, Solid> {
    /// A checkered texture of two solid colors.
    pub fn from_colors(even: Rgb, odd: Rgb) -> (c: Self)
        ensures
            c.even.color == even,
            c.odd.color == odd,
    {
        Checkered { even: Solid::new(even), odd: Solid::new(odd) }
    }
}

/// Noise texture.
pub struct Noise {
    pub perlin: Perlin,
}

impl Noise {
    pub fn new(perlin: Perlin) -> (n: Noise)
        ensures
            n.perlin == perlin,
    {
        Noise { perlin }
    }

    /// White scaled by a noise value: a gray whose three channels all equal
    /// `noise`.
    pub fn value(&self, noise: Scalar) -> (c: Rgb)
        ensures
            c == (Vec3 { x: noise, y: noise, z: noise }),
    {
        Rgb::new_all(noise)
    }
}

} // verus!
