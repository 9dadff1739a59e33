//! Ray-surface intersections.

use vstd::prelude::*;
use crate::graphics::aabb::{lemma_union_covers, Aabb};
use crate::graphics::ray::Ray;
use crate::math::{Point, Vec3};
use crate::scalar::Scalar;

verus! {

/// Abstraction for objects whose surface may intersect a [`Ray`].
///
/// Both queries are functions of their arguments: an implementation answers
/// the same question the same way every time.
pub trait Hit {
    /// The material that the object's surface is made of.
    type Mat;

    /// The intersection that [`Hit::hit`] reports.
    open spec fn hit_spec(&self, r: Ray, t_min: Scalar, t_max: Scalar) -> Option<
        HitRecord<'_, Self::Mat>,
    > {
        arbitrary()
    }

    /// The box that [`Hit::bounding_box`] reports.
    open spec fn bounding_box_spec(&self, t_start: Scalar, t_end: Scalar) -> Option<Aabb> {
        arbitrary()
    }

    /// Checks whether a [`Ray`] intersects `self` at a parameter between
    /// `t_min` and `t_max`, and if it does, gets a record of the
    /// intersection.
    fn hit(&self, r: &Ray, t_min: Scalar, t_max: Scalar) -> (o: Option<HitRecord<'_, Self::Mat>>)
        ensures
            o == self.hit_spec(*r, t_min, t_max),
    ;

    /// A box around everything the object occupies during the interval from
    /// `t_start` to `t_end`, or `None` for an object that has no bounds.
    fn bounding_box(&self, t_start: Scalar, t_end: Scalar) -> (o: Option<Aabb>)
        ensures
            o == self.bounding_box_spec(t_start, t_end),
    ;
}

/// The front or back of an object's surface.
#[derive(Clone, Copy, Debug, PartialEq, Eq, Structural)]
pub enum Face {
    Front,
    Back,
}

impl Default for Face {
    fn default() -> (f: Face)
        ensures
            f == Face::Back,
    {
        Face::Back
    }
}

/// A record of a ray-object intersection. The material is borrowed from the
/// object that was struck.
pub struct HitRecord<'a, M> {
    pub point: Point,
    pub normal: Vec3,
    pub mat: &'a M,
    pub t: Scalar,
    pub u: Scalar,
    pub v: Scalar,
    pub face: Face,
}

impl<'a, M> HitRecord<'a, M> {
    /// The face that a ray strikes and the normal turned against the ray,
    /// where `facing` is the dot product of the ray's direction with the
    /// outward normal.
    pub open spec fn face_normal_spec(facing: Scalar, outward_normal: Vec3) -> (Face, Vec3) {
        if facing.lt_spec(Scalar { bits: 0 }) {
            (Face::Front, outward_normal)
        } else {
            (Face::Back, outward_normal.neg_spec())
        }
    }

    pub fn new(
        point: Point,
        normal: Vec3,
        mat: &'a M,
        t: Scalar,
        u: Scalar,
        v: Scalar,
        face: Face,
    ) -> (rec: Self)
        ensures
            rec == (HitRecord { point, normal, mat, t, u, v, face }),
    {
        HitRecord { point, normal, mat, t, u, v, face }
    }

    /// Gets a [`Face`] and a normal such that the normal always points
    /// against the incident ray. `facing` is the dot product of the ray's
    /// direction with `outward_normal`.
    pub fn face_normal(facing: Scalar, outward_normal: Vec3) -> (r: (Face, Vec3))
        ensures
            r == Self::face_normal_spec(facing, outward_normal),
    {
        if facing.lt(Scalar::zero()) {
            (Face::Front, outward_normal)
        } else {
            (Face::Back, outward_normal.neg())
        }
    }

    /// Turns the record's face and normal against the incident ray, as
    /// [`HitRecord::face_normal`] does.
    pub fn set_face_normal(&mut self, facing: Scalar, outward_normal: Vec3)
        ensures
            (final(self).face, final(self).normal) == Self::face_normal_spec(
                facing,
                outward_normal,
            ),
            final(self).point == old(self).point,
            final(self).mat == old(self).mat,
            final(self).t == old(self).t,
            final(self).u == old(self).u,
            final(self).v == old(self).v,
    {
        let (face, normal) = Self::face_normal(facing, outward_normal);
        self.face = face;
        self.normal = normal;
    }
}

/// The record kept after the first `n` of `items` have been tried in turn:
/// each is asked for a hit no farther than the closest one so far.
pub open spec fn scan_spec<'a, T: Hit>(
    items: Seq<T>,
    n: int,
    r: Ray,
    t_min: Scalar,
    t_max: Scalar,
) -> Option<HitRecord<'a, T::Mat>>
    decreases n,
{
    if n <= 0 {
        None
    } else {
        let before = scan_spec(items, n - 1, r, t_min, t_max);
        let closest = match before {
            Some(rec) => rec.t,
            None => t_max,
        };
        match items[n - 1].hit_spec(r, t_min, closest) {
            Some(rec) => Some(rec),
            None => before,
        }
    }
}

/// The box after the first `n` of `items` have been joined; `None` as soon
/// as one of them has no box. With no items it is the empty box at the
/// origin.
pub open spec fn boxes_spec<T: Hit>(items: Seq<T>, n: int, t_start: Scalar, t_end: Scalar) -> Option<
    Aabb,
>
    decreases n,
{
    if n <= 0 {
        Some(Aabb { min: Vec3::zero_spec(), max: Vec3::zero_spec() })
    } else {
        match (
            boxes_spec(items, n - 1, t_start, t_end),
            items[n - 1].bounding_box_spec(t_start, t_end),
        ) {
            (Some(acc), Some(b)) => if n == 1 {
                Some(b)
            } else {
                Some(acc.surrounding_box_spec(b))
            },
            _ => None,
        }
    }
}

/// Container of singly-owned objects that implement [`Hit`].
pub struct HitList<T> {
    pub inner: Vec<T>,
}

impl<T> View for HitList<T> {
    type V = Seq<T>;

    open spec fn view(&self) -> Seq<T> {
        self.inner@
    }
}

impl<T> HitList<T> {
    pub fn new() -> (list: Self)
        ensures
            list@ == Seq::<T>::empty(),
    {
        HitList { inner: Vec::new() }
    }

    pub fn clear(&mut self)
        ensures
            final(self)@ == Seq::<T>::empty(),
    {
        self.inner.clear();
    }

    pub fn push(&mut self, value: T)
        ensures
            final(self)@ == old(self)@.push(value),
    {
        self.inner.push(value);
    }

    pub fn len(&self) -> (n: usize)
        ensures
            n == self@.len(),
    {
        self.inner.len()
    }
}

impl<T: Hit> Hit for HitList<T> {
    type Mat = T::Mat;

    open spec fn hit_spec(&self, r: Ray, t_min: Scalar, t_max: Scalar) -> Option<
        HitRecord<'_, T::Mat>,
    > {
        scan_spec(self@, self@.len() as int, r, t_min, t_max)
    }

    open spec fn bounding_box_spec(&self, t_start: Scalar, t_end: Scalar) -> Option<Aabb> {
        boxes_spec(self@, self@.len() as int, t_start, t_end)
    }

    /// Linear scan that keeps the closest hit.
    fn hit(&self, r: &Ray, t_min: Scalar, t_max: Scalar) -> (o: Option<HitRecord<'_, T::Mat>>)
    {
        let mut rec: Option<HitRecord<'_, T::Mat>> = None;
        let mut closest_so_far = t_max;
        let mut i: usize = 0;
        while i < self.inner.len()
            invariant
                i <= self@.len(),
                rec == scan_spec(self@, i as int, *r, t_min, t_max),
                closest_so_far == match rec {
                    Some(h) => h.t,
                    None => t_max,
                },
            decreases self@.len() - i,
        {
            if let Some(hit) = self.inner[i].hit(r, t_min, closest_so_far) {
                closest_so_far = hit.t;
                rec = Some(hit);
            }
            i = i + 1;
        }
        rec
    }

    /// The union of the members' boxes.
    fn bounding_box(&self, t_start: Scalar, t_end: Scalar) -> (o: Option<Aabb>)
    {
        let mut box_ = Aabb::new(Vec3::zero(), Vec3::zero());
        let mut i: usize = 0;
        while i < self.inner.len()
            invariant
                i <= self@.len(),
                Some(box_) == boxes_spec(self@, i as int, t_start, t_end),
            decreases self@.len() - i,
        {
            match self.inner[i].bounding_box(t_start, t_end) {
                Some(bounding_box) => {
                    box_ = if i == 0 {
                        bounding_box
                    } else {
                        box_.surrounding_box(bounding_box)
                    };
                },
                None => {
                    proof {
                        lemma_boxes_none_stays(self@, i as int + 1, self@.len() as int, t_start, t_end);
                    }
                    return None;
                },
            }
            i = i + 1;
        }
        Some(box_)
    }
}

/// Once a member without a box has been met, the list has none.
pub proof fn lemma_boxes_none_stays<T: Hit>(
    items: Seq<T>,
    n: int,
    m: int,
    t_start: Scalar,
    t_end: Scalar,
)
    requires
        0 <= n <= m,
        boxes_spec(items, n, t_start, t_end) is None,
    ensures
        boxes_spec(items, m, t_start, t_end) is None,
    decreases m - n,
{
    if n < m {
        lemma_boxes_none_stays(items, n, m - 1, t_start, t_end);
    }
}

/// The box of a list covers the box of each of its members, provided that
/// the members' boxes are boxes.
pub proof fn lemma_list_box_covers_members<T: Hit>(
    items: Seq<T>,
    n: int,
    t_start: Scalar,
    t_end: Scalar,
)
    requires
        0 < n <= items.len(),
        boxes_spec(items, n, t_start, t_end) is Some,
        forall|i: int|
            0 <= i < n ==> match (#[trigger] items[i]).bounding_box_spec(t_start, t_end) {
                Some(b) => b.well_formed(),
                None => true,
            },
    ensures
        boxes_spec(items, n, t_start, t_end).unwrap().well_formed(),
        forall|i: int|
            0 <= i < n ==> match (#[trigger] items[i]).bounding_box_spec(t_start, t_end) {
                Some(b) => boxes_spec(items, n, t_start, t_end).unwrap().covers(b),
                None => false,
            },
    decreases n,
{
    if n > 1 {
        lemma_list_box_covers_members(items, n - 1, t_start, t_end);
        let acc = boxes_spec(items, n - 1, t_start, t_end).unwrap();
        let last = items[n - 1].bounding_box_spec(t_start, t_end).unwrap();
        assert forall|i: int| 0 <= i < n implies match (#[trigger] items[i]).bounding_box_spec(
            t_start,
            t_end,
        ) {
            Some(b) => boxes_spec(items, n, t_start, t_end).unwrap().covers(b),
            None => false,
        } by {
            if i < n - 1 {
                lemma_union_covers(acc, last, items[i].bounding_box_spec(t_start, t_end).unwrap());
            } else {
                lemma_union_covers(acc, last, last);
            }
        }
        lemma_union_covers(acc, last, last);
    }
}

} // verus!
