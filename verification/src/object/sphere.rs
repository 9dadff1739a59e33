//! Spheres.

use vstd::prelude::*;
use crate::graphics::aabb::Aabb;
use crate::graphics::closest::{clip, steady};
use crate::graphics::hit::{Hit, HitRecord};
use crate::graphics::ray::Ray;
use crate::math::{Point, Vec3};
use crate::scalar::{Scalar, INFINITY_BITS};

verus! {

/// The quadratic that a ray and a sphere make: its discriminant, and the ray
/// parameters at which the ray enters and leaves the sphere.
#[derive(Clone, Copy, Debug, PartialEq, Eq, Structural)]
pub struct Roots {
    pub discriminant: Scalar,
    pub near: Scalar,
    pub far: Scalar,
}

/// The place where a ray strikes a sphere.
#[derive(Clone, Copy, Debug, PartialEq, Eq, Structural)]
pub struct Contact {
    /// The point that was struck.
    pub point: Point,
    /// The unit normal at the point, away from the center.
    pub outward_normal: Vec3,
    /// The dot product of the ray's direction with the outward normal.
    pub facing: Scalar,
    /// Surface coordinates of the point.
    pub u: Scalar,
    pub v: Scalar,
}

impl Roots {
    /// Whether `t` is not known to lie outside `[t_min, t_max]`.
    pub open spec fn admits(t: Scalar, t_min: Scalar, t_max: Scalar) -> bool {
        !(t.lt_spec(t_min) || t_max.lt_spec(t))
    }

    /// The parameter at which the sphere is struck: none without a real
    /// root; else the smaller root if it lies in `[t_min, t_max]`, else the
    /// larger one if that does.
    pub open spec fn select_spec(self, t_min: Scalar, t_max: Scalar) -> Option<Scalar> {
        if self.discriminant.lt_spec(Scalar { bits: 0 }) {
            None
        } else if Self::admits(self.near, t_min, t_max) {
            Some(self.near)
        } else if Self::admits(self.far, t_min, t_max) {
            Some(self.far)
        } else {
            None
        }
    }

    /// Chooses the parameter at which the sphere is struck.
    pub fn select(&self, t_min: Scalar, t_max: Scalar) -> (o: Option<Scalar>)
        ensures
            o == self.select_spec(t_min, t_max),
    {
        if self.discriminant.lt(Scalar::zero()) {
            return None;
        }
        let mut root = self.near;
        if root.lt(t_min) || t_max.lt(root) {
            root = self.far;
            if root.lt(t_min) || t_max.lt(root) {
                return None;
            }
        }
        Some(root)
    }
}

/// A selected root is not known to lie outside the interval, and where the
/// roots stand in order and the smaller one is selected, no root that the
/// interval admits lies before it.
pub proof fn lemma_select_is_nearest(roots: Roots, t_min: Scalar, t_max: Scalar)
    requires
        roots.near.le_spec(roots.far),
    ensures
        match roots.select_spec(t_min, t_max) {
            Some(t) => {
                &&& Roots::admits(t, t_min, t_max)
                &&& t == roots.near || t == roots.far
                &&& Roots::admits(roots.near, t_min, t_max) ==> t == roots.near
            },
            None => roots.discriminant.lt_spec(Scalar { bits: 0 }) || (!Roots::admits(
                roots.near,
                t_min,
                t_max,
            ) && !Roots::admits(roots.far, t_min, t_max)),
        },
{
}

/// Selection is steady under a shrinking upper bound: where the roots stand
/// in order, the root selected within `t_max` is the one selected without an
/// upper bound, if that lies within `t_max`, and none otherwise.
pub proof fn lemma_select_is_steady(roots: Roots, t_min: Scalar, t_max: Scalar)
    requires
        roots.near.le_spec(roots.far),
        !t_max.nan(),
    ensures
        roots.select_spec(t_min, t_max) == match roots.select_spec(
            t_min,
            Scalar { bits: INFINITY_BITS },
        ) {
            Some(t) => if t.le_spec(t_max) {
                Some(t)
            } else {
                None
            },
            None => None,
        },
{
    let inf = Scalar { bits: INFINITY_BITS };
    assert(inf.magnitude() == INFINITY_BITS) by {
        assert(0x7ff0_0000_0000_0000u64 & 0x7fff_ffff_ffff_ffffu64 == 0x7ff0_0000_0000_0000u64)
            by (bit_vector);
    }
    assert(!inf.negative()) by {
        assert(0x7ff0_0000_0000_0000u64 & 0x8000_0000_0000_0000u64 == 0) by (bit_vector);
    }
    assert(roots.near.magnitude() <= INFINITY_BITS);
    assert(roots.far.magnitude() <= INFINITY_BITS);
}

/// The record of a hit on a surface of material `mat` at the parameter
/// `root`: the normal is turned against the ray.
pub open spec fn record_spec<'a, M>(mat: &'a M, root: Scalar, contact: Contact) -> HitRecord<'a, M> {
    let (face, normal) = HitRecord::<M>::face_normal_spec(contact.facing, contact.outward_normal);
    HitRecord { point: contact.point, normal, mat, t: root, u: contact.u, v: contact.v, face }
}

/// What a sphere of material `mat` reports for a ray, where `contact_at`
/// gives the place struck at a parameter.
pub open spec fn hit_spec<'a, M>(
    mat: &'a M,
    roots: Roots,
    t_min: Scalar,
    t_max: Scalar,
    contact_at: spec_fn(Scalar) -> Contact,
) -> Option<HitRecord<'a, M>> {
    match roots.select_spec(t_min, t_max) {
        Some(root) => Some(record_spec(mat, root, contact_at(root))),
        None => None,
    }
}

/// An object that answers a ray as a sphere does, from roots that stand in
/// order and do not depend on the upper bound, answers steadily: it has one
/// nearest hit, which a query reports exactly when it lies within the bound.
pub proof fn lemma_sphere_is_steady<'a, T: Hit>(
    item: T,
    mat: &'a T::Mat,
    r: Ray,
    roots: Roots,
    t_min: Scalar,
    contact_at: spec_fn(Scalar) -> Contact,
)
    requires
        roots.near.le_spec(roots.far),
        forall|t_max: Scalar| #[trigger]
            item.hit_spec(r, t_min, t_max) == hit_spec(mat, roots, t_min, t_max, contact_at),
    ensures
        steady(item, r, t_min),
{
    let inf = Scalar { bits: INFINITY_BITS };
    assert forall|t_max: Scalar| !t_max.nan() implies #[trigger] item.hit_spec(r, t_min, t_max)
        == clip(item.hit_spec(r, t_min, inf), t_max) by {
        lemma_select_is_steady(roots, t_min, t_max);
        assert(item.hit_spec(r, t_min, t_max) == hit_spec(mat, roots, t_min, t_max, contact_at));
        assert(item.hit_spec(r, t_min, inf) == hit_spec(mat, roots, t_min, inf, contact_at));
    }
    assert(item.hit_spec(r, t_min, inf) == hit_spec(mat, roots, t_min, inf, contact_at));
}

/// Intersection of a ray with a round surface of material `mat`.
fn strike<'a, M, F: Fn(Scalar) -> Contact>(
    mat: &'a M,
    roots: &Roots,
    t_min: Scalar,
    t_max: Scalar,
    contact_at: &F,
) -> (o: Option<HitRecord<'a, M>>)
    requires
        forall|t: Scalar| call_requires(contact_at, (t,)),
    ensures
        o is Some == roots.select_spec(t_min, t_max) is Some,
        match o {
            Some(rec) => {
                &&& roots.select_spec(t_min, t_max) == Some(rec.t)
                &&& exists|c: Contact|
                    call_ensures(contact_at, (rec.t,), c) && rec == record_spec(mat, rec.t, c)
            },
            None => true,
        },
        forall|model: spec_fn(Scalar) -> Contact|
            (forall|t: Scalar, out: Contact| #[trigger]
                call_ensures(contact_at, (t,), out) ==> out == model(t)) ==> o == #[trigger] hit_spec(
                mat,
                *roots,
                t_min,
                t_max,
                model,
            ),
{
    match roots.select(t_min, t_max) {
        Some(root) => {
            let contact = contact_at(root);
            let (face, normal) = HitRecord::<M>::face_normal(
                contact.facing,
                contact.outward_normal,
            );
            let rec = HitRecord::new(contact.point, normal, mat, root, contact.u, contact.v, face);
            proof {
                assert(call_ensures(contact_at, (rec.t,), contact) && rec == record_spec(
                    mat,
                    rec.t,
                    contact,
                ));
                assert forall|model: spec_fn(Scalar) -> Contact|
                    (forall|t: Scalar, out: Contact| #[trigger]
                        call_ensures(contact_at, (t,), out) ==> out == model(t)) implies Some(rec)
                    == #[trigger] hit_spec(mat, *roots, t_min, t_max, model) by {
                    assert(contact == model(root));
                }
            }
            Some(rec)
        },
        None => None,
    }
}

/// A sphere object.
pub struct Sphere<M> {
    pub center: Point,
    pub radius: Scalar,
    pub mat: M,
}

impl<M> Sphere<M> {
    pub fn new(center: Point, radius: Scalar, mat: M) -> (s: Self)
        ensures
            s.center == center,
            s.radius == radius,
            s.mat == mat,
    {
        Sphere { center, radius, mat }
    }

    /// Intersection of a ray with the sphere, from the quadratic that the two
    /// make. There is a hit exactly when a root is selected; `contact_at`
    /// computes the place struck at the selected parameter, and whenever it
    /// is a function of the parameter, the record is the one [`hit_spec`]
    /// describes.
    pub fn hit<F: Fn(Scalar) -> Contact>(
        &self,
        roots: &Roots,
        t_min: Scalar,
        t_max: Scalar,
        contact_at: &F,
    ) -> (o: Option<HitRecord<'_, M>>)
        requires
            forall|t: Scalar| call_requires(contact_at, (t,)),
        ensures
            o is Some == roots.select_spec(t_min, t_max) is Some,
            match o {
                Some(rec) => {
                    &&& roots.select_spec(t_min, t_max) == Some(rec.t)
                    &&& exists|c: Contact|
                        call_ensures(contact_at, (rec.t,), c) && rec == record_spec(
                            &self.mat,
                            rec.t,
                            c,
                        )
                },
                None => true,
            },
            forall|model: spec_fn(Scalar) -> Contact|
                (forall|t: Scalar, out: Contact| #[trigger]
                    call_ensures(contact_at, (t,), out) ==> out == model(t)) ==> o
                    == #[trigger] hit_spec(&self.mat, *roots, t_min, t_max, model),
    {
        strike(&self.mat, roots, t_min, t_max, contact_at)
    }
}

/// A moving sphere object: its center travels from `center_start` at the
/// instant `t_start` to `center_end` at the instant `t_end`.
pub struct MovingSphere<M> {
    pub center_start: Point,
    pub center_end: Point,
    pub t_start: Scalar,
    pub t_end: Scalar,
    pub radius: Scalar,
    pub mat: M,
}

impl<M> MovingSphere<M> {
    pub fn new(
        center_start: Point,
        center_end: Point,
        t_start: Scalar,
        t_end: Scalar,
        radius: Scalar,
        mat: M,
    ) -> (s: Self)
        ensures
            s.center_start == center_start,
            s.center_end == center_end,
            s.t_start == t_start,
            s.t_end == t_end,
            s.radius == radius,
            s.mat == mat,
    {
        MovingSphere { center_start, center_end, t_start, t_end, radius, mat }
    }

    /// The box around the whole sweep of the sphere over an interval: the
    /// union of the boxes around the sphere at the start and at the end of
    /// the interval.
    pub fn bounding_box(&self, box_start: Aabb, box_end: Aabb) -> (o: Option<Aabb>)
        ensures
            o == Some(box_start.surrounding_box_spec(box_end)),
    {
        Some(box_start.surrounding_box(box_end))
    }

    /// Intersection of a ray with the sphere where it is at the ray's
    /// instant; see [`Sphere::hit`].
    pub fn hit<F: Fn(Scalar) -> Contact>(
        &self,
        roots: &Roots,
        t_min: Scalar,
        t_max: Scalar,
        contact_at: &F,
    ) -> (o: Option<HitRecord<'_, M>>)
        requires
            forall|t: Scalar| call_requires(contact_at, (t,)),
        ensures
            o is Some == roots.select_spec(t_min, t_max) is Some,
            match o {
                Some(rec) => {
                    &&& roots.select_spec(t_min, t_max) == Some(rec.t)
                    &&& exists|c: Contact|
                        call_ensures(contact_at, (rec.t,), c) && rec == record_spec(
                            &self.mat,
                            rec.t,
                            c,
                        )
                },
                None => true,
            },
            forall|model: spec_fn(Scalar) -> Contact|
                (forall|t: Scalar, out: Contact| #[trigger]
                    call_ensures(contact_at, (t,), out) ==> out == model(t)) ==> o
                    == #[trigger] hit_spec(&self.mat, *roots, t_min, t_max, model),
    {
        strike(&self.mat, roots, t_min, t_max, contact_at)
    }
}

} // verus!
