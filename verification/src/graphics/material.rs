//! Surface materials.

use vstd::prelude::*;
use rand::rngs::ThreadRng;
use crate::graphics::hit::{Face, HitRecord};
use crate::graphics::ray::Ray;
use crate::graphics::texture::Texture;
use crate::math::{Rgb, Vec3};
use crate::scalar::{Scalar, ONE_BITS};

verus! {

/// Trait for object materials to define how they scatter [`Ray`]s.
pub trait Material: Sized {
    /// Whether the material may answer the intersection `rec` of the ray
    /// `r` with `o`. Scattering draws random numbers, so many answers may be
    /// open to it; unless a material says otherwise, all are.
    open spec fn may_scatter(&self, r: Ray, rec: HitRecord<'_, Self>, o: Option<Scatter>) -> bool {
        true
    }

    /// Calculates a scattered [`Ray`] and its resulting color attenuation
    /// from a ray-object intersection; `None` when the ray is absorbed.
    fn scatter(&self, r: &Ray, rec: &HitRecord<'_, Self>, rng: &mut ThreadRng) -> (o: Option<
        Scatter,
    >)
        ensures
            self.may_scatter(*r, *rec, o),
    ;
}

/// A scattered [`Ray`] and its color.
#[derive(Clone, Copy, Debug, PartialEq, Eq, Structural)]
pub struct Scatter {
    /// The scattered ray.
    pub ray: Ray,
    /// The color of the scattered ray.
    pub attenuation: Rgb,
}

impl Scatter {
    pub fn new(ray: Ray, attenuation: Rgb) -> (s: Scatter)
        ensures
            s == (Scatter { ray, attenuation }),
    {
        Scatter { ray, attenuation }
    }
}

/// [`Material`] with Lambertian reflection.
pub struct Lambertian<X> {
    /// The texture of the material.
    pub albedo: X,
}

impl<X: Texture> Lambertian<X> {
    /// Direction of the scattered ray: the candidate, unless it has all but
    /// vanished, in which case the surface normal stands in.
    pub open spec fn direction_spec(candidate: Vec3, normal: Vec3) -> Vec3 {
        if candidate.near_zero_spec() {
            normal
        } else {
            candidate
        }
    }

    pub fn new(albedo: X) -> (m: Self)
        ensures
            m.albedo == albedo,
    {
        Lambertian { albedo }
    }

    /// Diffuse scattering. `candidate` is the sum of the surface normal and a
    /// random unit vector. The ray always scatters, in the candidate's
    /// direction unless that is near the zero vector, and so never in a
    /// direction near zero where the normal is not; it leaves the point that
    /// was struck at the incoming ray's instant, and is tinted by the texture
    /// there, so a texture with channels in `[0, 1]` amplifies nothing.
    pub fn scatter<M>(&self, r: &Ray, rec: &HitRecord<'_, M>, candidate: Vec3) -> (o: Option<
        Scatter,
    >)
        ensures
            o == Some(
                Scatter {
                    ray: Ray {
                        origin: rec.point,
                        direction: Self::direction_spec(candidate, rec.normal),
                        t: r.t,
                    },
                    attenuation: self.albedo.value_spec(rec.u, rec.v, rec.point),
                },
            ),
            self.albedo.value_spec(rec.u, rec.v, rec.point).in_unit_range()
                ==> o.unwrap().attenuation.in_unit_range(),
            !rec.normal.near_zero_spec() ==> !o.unwrap().ray.direction.near_zero_spec(),
    {
        let mut direction = candidate;
        // Catch degenerate scatter direction.
        if direction.near_zero() {
            direction = rec.normal;
        }
        let scattered = Ray::new(rec.point, direction, r.t);
        Some(Scatter::new(scattered, self.albedo.value(rec.u, rec.v, &rec.point)))
    }
}

/// [`Material`] with metallic reflection.
#[derive(Clone, Copy, Debug, PartialEq, Eq, Structural)]
pub struct Metallic {
    /// The color of the material.
    pub albedo: Rgb,
    /// The roughness of the material.
    pub blur: Scalar,
}

impl Metallic {
    /// A metal of the given color; a roughness above one counts as one.
    pub fn new(albedo: Rgb, blur: Scalar) -> (m: Metallic)
        ensures
            m.albedo == albedo,
            m.blur == blur.min_spec(Scalar { bits: ONE_BITS }),
    {
        Metallic { albedo, blur: blur.min(Scalar::one()) }
    }

    /// Specular scattering. `direction` is the mirrored direction of the
    /// incoming ray, perturbed by the roughness, and `facing` its dot product
    /// with the surface normal. The ray scatters exactly when it leaves on
    /// the outer side of the surface, `facing > 0`, and is then tinted by the
    /// metal's color, so a color with channels in `[0, 1]` amplifies nothing.
    pub fn scatter<M>(&self, r: &Ray, rec: &HitRecord<'_, M>, direction: Vec3, facing: Scalar) -> (o:
        Option<Scatter>)
        ensures
            o == if (Scalar { bits: 0 }).lt_spec(facing) {
                Some(
                    Scatter {
                        ray: Ray { origin: rec.point, direction, t: r.t },
                        attenuation: self.albedo,
                    },
                )
            } else {
                None
            },
            self.albedo.in_unit_range() && o is Some ==> o.unwrap().attenuation.in_unit_range(),
    {
        let scattered = Ray::new(rec.point, direction, r.t);
        if facing.gt(Scalar::zero()) {
            Some(Scatter::new(scattered, self.albedo))
        } else {
            None
        }
    }
}

/// [`Material`] with dielectric refraction.
#[derive(Clone, Copy, Debug, PartialEq, Eq, Structural)]
pub struct Dielectric {
    /// The refractive index of the material.
    pub idx: Scalar,
}

impl Dielectric {
    /// Whether the ray is mirrored rather than bent: always under total
    /// internal reflection, `bend > 1`, and otherwise when the reflectance
    /// exceeds the sample.
    pub open spec fn reflects_spec(bend: Scalar, reflectance: Scalar, sample: Scalar) -> bool {
        (Scalar { bits: ONE_BITS }).lt_spec(bend) || sample.lt_spec(reflectance)
    }

    pub fn new(idx: Scalar) -> (m: Dielectric)
        ensures
            m.idx == idx,
    {
        Dielectric { idx }
    }

    /// Ratio of the refractive indices across the surface: `inverse`, the
    /// reciprocal of the material's index, for a ray that enters through the
    /// front face, and the index itself for one that leaves.
    pub fn ratio(&self, face: Face, inverse: Scalar) -> (ratio: Scalar)
        ensures
            ratio == match face {
                Face::Front => inverse,
                Face::Back => self.idx,
            },
    {
        match face {
            Face::Front => inverse,
            Face::Back => self.idx,
        }
    }

    /// Whether the ray is mirrored rather than bent. `bend` is the product of
    /// the index ratio with the sine of the angle of incidence, `reflectance`
    /// the Fresnel reflectance at that angle, and `sample` a uniform draw
    /// from `[0, 1)`.
    pub fn reflects(bend: Scalar, reflectance: Scalar, sample: Scalar) -> (r: bool)
        ensures
            r == Self::reflects_spec(bend, reflectance, sample),
    {
        bend.gt(Scalar::one()) || reflectance.gt(sample)
    }

    /// Refractive scattering. `reflected` and `refracted` are the mirrored
    /// and the bent direction of the incoming ray; the other three arguments
    /// are those of [`Dielectric::reflects`]. The ray always scatters, and
    /// nothing is absorbed: the attenuation is white.
    pub fn scatter<M>(
        &self,
        r: &Ray,
        rec: &HitRecord<'_, M>,
        bend: Scalar,
        reflectance: Scalar,
        sample: Scalar,
        reflected: Vec3,
        refracted: Vec3,
    ) -> (o: Option<Scatter>)
        ensures
            o == Some(
                Scatter {
                    ray: Ray {
                        origin: rec.point,
                        direction: if Self::reflects_spec(bend, reflectance, sample) {
                            reflected
                        } else {
                            refracted
                        },
                        t: r.t,
                    },
                    attenuation: Vec3 {
                        x: Scalar { bits: ONE_BITS },
                        y: Scalar { bits: ONE_BITS },
                        z: Scalar { bits: ONE_BITS },
                    },
                },
            ),
    {
        let direction = if Self::reflects(bend, reflectance, sample) {
            reflected
        } else {
            refracted
        };
        let scattered = Ray::new(rec.point, direction, r.t);
        Some(Scatter::new(scattered, Rgb::one()))
    }
}

} // verus!
