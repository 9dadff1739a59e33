//! Axis-aligned bounding boxes.

use vstd::prelude::*;
use crate::math::{Axis, Point, Vec3};
use crate::scalar::Scalar;

verus! {

/// Where a ray meets the two planes that bound a box along one axis.
///
/// For the axis `i`, `inv_d` is the reciprocal of the ray direction's
/// component, `near` the product of `min[i] - origin[i]` with `inv_d`, and
/// `far` the product of `max[i] - origin[i]` with `inv_d`.
#[derive(Clone, Copy, Debug, PartialEq, Eq, Structural)]
pub struct Slab {
    pub inv_d: Scalar,
    pub near: Scalar,
    pub far: Scalar,
}

impl Slab {
    /// Ray parameter at which the ray enters the slab: the two crossings
    /// trade places when the ray runs against the axis.
    pub open spec fn entry(self) -> Scalar {
        if self.inv_d.lt_spec(Scalar { bits: 0 }) {
            self.far
        } else {
            self.near
        }
    }

    /// Ray parameter at which the ray leaves the slab.
    pub open spec fn exit(self) -> Scalar {
        if self.inv_d.lt_spec(Scalar { bits: 0 }) {
            self.near
        } else {
            self.far
        }
    }

    /// Lower end of `[t_min, ..]` after intersecting with the slab.
    pub open spec fn raise(self, t_min: Scalar) -> Scalar {
        if t_min.lt_spec(self.entry()) {
            self.entry()
        } else {
            t_min
        }
    }

    /// Upper end of `[.., t_max]` after intersecting with the slab.
    pub open spec fn lower(self, t_max: Scalar) -> Scalar {
        if self.exit().lt_spec(t_max) {
            self.exit()
        } else {
            t_max
        }
    }

    /// Whether the interval is empty after intersecting with the slab.
    pub open spec fn closes(self, t_min: Scalar, t_max: Scalar) -> bool {
        self.lower(t_max).le_spec(self.raise(t_min))
    }
}

/// An axis-aligned bounding box.
#[derive(Clone, Copy, Debug, PartialEq, Eq, Structural)]
pub struct Aabb {
    pub min: Point,
    pub max: Point,
}

impl Aabb {
    /// The box invariant: along every axis the lower corner does not exceed
    /// the upper one. No coordinate of such a box is NaN.
    pub open spec fn well_formed(self) -> bool {
        &&& self.min.x.le_spec(self.max.x)
        &&& self.min.y.le_spec(self.max.y)
        &&& self.min.z.le_spec(self.max.z)
    }

    /// Whether `p` lies in the box, borders included.
    pub open spec fn contains(self, p: Point) -> bool {
        &&& self.min.x.le_spec(p.x) && p.x.le_spec(self.max.x)
        &&& self.min.y.le_spec(p.y) && p.y.le_spec(self.max.y)
        &&& self.min.z.le_spec(p.z) && p.z.le_spec(self.max.z)
    }

    /// Whether the box holds all of `other`.
    pub open spec fn covers(self, other: Aabb) -> bool {
        &&& self.min.x.le_spec(other.min.x) && other.max.x.le_spec(self.max.x)
        &&& self.min.y.le_spec(other.min.y) && other.max.y.le_spec(self.max.y)
        &&& self.min.z.le_spec(other.min.z) && other.max.z.le_spec(self.max.z)
    }

    /// One of the eight corners: along each axis the upper bound where the
    /// flag is set, the lower bound where it is not.
    pub open spec fn corner(self, upper_x: bool, upper_y: bool, upper_z: bool) -> Point {
        Vec3 {
            x: if upper_x { self.max.x } else { self.min.x },
            y: if upper_y { self.max.y } else { self.min.y },
            z: if upper_z { self.max.z } else { self.min.z },
        }
    }

    /// The smallest box that holds both boxes.
    pub open spec fn surrounding_box_spec(self, other: Aabb) -> Aabb {
        Aabb {
            min: Vec3 {
                x: self.min.x.min_spec(other.min.x),
                y: self.min.y.min_spec(other.min.y),
                z: self.min.z.min_spec(other.min.z),
            },
            max: Vec3 {
                x: self.max.x.max_spec(other.max.x),
                y: self.max.y.max_spec(other.max.y),
                z: self.max.z.max_spec(other.max.z),
            },
        }
    }

    /// Outcome of the slab test: the interval `[t_min, t_max]` is narrowed by
    /// the three slabs in turn, and the ray misses as soon as it is empty.
    pub open spec fn hit_spec(crossings: [Slab; 3], t_min: Scalar, t_max: Scalar) -> bool {
        let x = crossings[0];
        let y = crossings[1];
        let z = crossings[2];
        let (lo1, hi1) = (x.raise(t_min), x.lower(t_max));
        let (lo2, hi2) = (y.raise(lo1), y.lower(hi1));
        &&& !x.closes(t_min, t_max)
        &&& !y.closes(lo1, hi1)
        &&& !z.closes(lo2, hi2)
    }

    pub fn new(min: Point, max: Point) -> (b: Aabb)
        ensures
            b == (Aabb { min, max }),
    {
        Aabb { min, max }
    }

    /// Slab test of a ray against the box, given the ray's crossings with the
    /// box's three slabs in the order X, Y, Z.
    pub fn hit(crossings: &[Slab; 3], t_min: Scalar, t_max: Scalar) -> (r: bool)
        ensures
            r == Self::hit_spec(*crossings, t_min, t_max),
    {
        let mut lo = t_min;
        let mut hi = t_max;
        let mut i: usize = 0;
        while i < 3
            invariant
                i <= 3,
                i == 0 ==> lo == t_min && hi == t_max,
                i == 1 ==> lo == crossings[0].raise(t_min) && hi == crossings[0].lower(t_max)
                    && !crossings[0].closes(t_min, t_max),
                i == 2 ==> lo == crossings[1].raise(crossings[0].raise(t_min))
                    && hi == crossings[1].lower(crossings[0].lower(t_max))
                    && !crossings[0].closes(t_min, t_max)
                    && !crossings[1].closes(crossings[0].raise(t_min), crossings[0].lower(t_max)),
                i == 3 ==> Self::hit_spec(*crossings, t_min, t_max),
            decreases 3 - i,
        {
            let slab = crossings[i];
            let zero = Scalar::zero();
            let (t_start, t_end) = if slab.inv_d.lt(zero) {
                (slab.far, slab.near)
            } else {
                (slab.near, slab.far)
            };
            lo = if t_start.gt(lo) { t_start } else { lo };
            hi = if t_end.lt(hi) { t_end } else { hi };
            if hi.le(lo) {
                return false;
            }
            i = i + 1;
        }
        true
    }

    /// The smallest box that holds both boxes.
    pub fn surrounding_box(self, other: Aabb) -> (b: Aabb)
        ensures
            b == self.surrounding_box_spec(other),
            self.well_formed() && other.well_formed() ==> b.well_formed() && b.covers(self)
                && b.covers(other),
    {
        let small = Point::newf(
            self.min.x.min(other.min.x),
            self.min.y.min(other.min.y),
            self.min.z.min(other.min.z),
        );
        let big = Point::newf(
            self.max.x.max(other.max.x),
            self.max.y.max(other.max.y),
            self.max.z.max(other.max.z),
        );
        Aabb::new(small, big)
    }

    /// The lower corner's component along `axis`.
    pub fn min_along(&self, axis: Axis) -> (c: Scalar)
        ensures
            c == self.min.get(axis),
    {
        self.min.index(axis)
    }
}

/// The union of two boxes holds every corner of each, and every other point
/// of each; it is again a box.
pub proof fn lemma_union_encloses(a: Aabb, b: Aabb)
    requires
        a.well_formed(),
        b.well_formed(),
    ensures
        a.surrounding_box_spec(b).well_formed(),
        forall|ux: bool, uy: bool, uz: bool| #[trigger]
            a.surrounding_box_spec(b).contains(a.corner(ux, uy, uz)),
        forall|ux: bool, uy: bool, uz: bool| #[trigger]
            a.surrounding_box_spec(b).contains(b.corner(ux, uy, uz)),
        forall|p: Point| a.contains(p) ==> #[trigger] a.surrounding_box_spec(b).contains(p),
        forall|p: Point| b.contains(p) ==> #[trigger] a.surrounding_box_spec(b).contains(p),
{
}

/// The union of two boxes covers whatever either of them covers.
pub proof fn lemma_union_covers(a: Aabb, b: Aabb, inner: Aabb)
    requires
        a.well_formed(),
        b.well_formed(),
        a.covers(inner) || b.covers(inner),
    ensures
        a.surrounding_box_spec(b).covers(inner),
        a.surrounding_box_spec(b).well_formed(),
        a.surrounding_box_spec(b).covers(a),
        a.surrounding_box_spec(b).covers(b),
{
}

} // verus!
