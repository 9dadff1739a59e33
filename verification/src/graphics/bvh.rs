//! Bounding volume hierarchies.

use vstd::prelude::*;
use vstd::seq_lib::*;
use vstd::arithmetic::power2::{lemma2_to64, lemma_pow2_strictly_increases, lemma_pow2_unfold, pow2};
use std::cmp::Ordering;
use rand::rngs::ThreadRng;
use crate::graphics::aabb::{lemma_union_covers, Aabb, Slab};
use crate::graphics::hit::{Hit, HitRecord};
use crate::graphics::ray::Ray;
use crate::math::Axis;
use crate::rng::random_axis;
use crate::scalar::Scalar;

verus! {

/// A node in a bounding volume hierarchy.
pub enum Node<T> {
    Branch { left: Box<Bvh<T>>, right: Box<Bvh<T>> },
    Leaf(T),
}

/// A bounding volume hierarchy.
pub struct Bvh<T> {
    pub node: Node<T>,
    pub aabb: Aabb,
}

/// Whether an object can be placed in the sorting order: it reports a box at
/// the instant zero, and no coordinate of that box's lower corner is NaN.
pub open spec fn sortable<T: Hit>(item: T) -> bool {
    match item.bounding_box_spec(Scalar { bits: 0 }, Scalar { bits: 0 }) {
        Some(b) => !b.min.x.nan() && !b.min.y.nan() && !b.min.z.nan(),
        None => false,
    }
}

/// Place of an object in the order along `axis`: the key of the lower corner
/// of its box at the instant zero.
pub open spec fn box_key<T: Hit>(item: T, axis: Axis) -> int {
    item.bounding_box_spec(Scalar { bits: 0 }, Scalar { bits: 0 }).unwrap().min.get(axis).key()
}

/// Whether the objects stand in ascending order along `axis`.
pub open spec fn sorted_along<T: Hit>(items: Seq<T>, axis: Axis) -> bool {
    forall|i: int, j: int|
        0 <= i <= j < items.len() ==> box_key(items[i], axis) <= box_key(items[j], axis)
}

/// Whether no object of `left` comes after an object of `right` along `axis`.
pub open spec fn split_along<T: Hit>(left: Seq<T>, right: Seq<T>, axis: Axis) -> bool {
    forall|i: int, j: int|
        0 <= i < left.len() && 0 <= j < right.len() ==> box_key(left[i], axis) <= box_key(
            right[j],
            axis,
        )
}

/// The upper bound left for later candidates once `near` has been found:
/// the parameter of that hit, or `t_max` where there is none.
pub open spec fn tightened<M>(near: Option<HitRecord<'_, M>>, t_max: Scalar) -> Scalar {
    match near {
        Some(rec) => rec.t,
        None => t_max,
    }
}

/// The hit that is kept of two: the later one, which was sought no farther
/// than the earlier one, and the earlier one where there is no later one.
pub open spec fn preferred<'a, M>(
    far: Option<HitRecord<'a, M>>,
    near: Option<HitRecord<'a, M>>,
) -> Option<HitRecord<'a, M>> {
    match far {
        Some(rec) => Some(rec),
        None => near,
    }
}

impl<T: Hit> Bvh<T> {
    /// The objects at the leaves, from left to right.
    pub open spec fn leaves(self) -> Seq<T>
        decreases self,
    {
        match self.node {
            Node::Leaf(obj) => seq![obj],
            Node::Branch { left, right } => left.leaves() + right.leaves(),
        }
    }

    /// Number of leaves.
    pub open spec fn size(self) -> nat
        decreases self,
    {
        match self.node {
            Node::Leaf(_) => 1,
            Node::Branch { left, right } => left.size() + right.size(),
        }
    }

    /// Number of branches on the longest way from the root to a leaf.
    pub open spec fn depth(self) -> nat
        decreases self,
    {
        match self.node {
            Node::Leaf(_) => 0,
            Node::Branch { left, right } => 1 + if left.depth() >= right.depth() {
                left.depth()
            } else {
                right.depth()
            },
        }
    }

    /// Every leaf carries its object's box for the interval, and every branch
    /// the union of its children's boxes.
    pub open spec fn boxed(self, t_start: Scalar, t_end: Scalar) -> bool
        decreases self,
    {
        match self.node {
            Node::Leaf(obj) => obj.bounding_box_spec(t_start, t_end) == Some(self.aabb),
            Node::Branch { left, right } => {
                &&& left.boxed(t_start, t_end)
                &&& right.boxed(t_start, t_end)
                &&& self.aabb == left.aabb.surrounding_box_spec(right.aabb)
            },
        }
    }

    /// Every branch is a median split: its left child holds half of its
    /// leaves, rounded down, and along some axis no leaf of the left child
    /// comes after a leaf of the right child.
    pub open spec fn median_split(self) -> bool
        decreases self,
    {
        match self.node {
            Node::Leaf(_) => true,
            Node::Branch { left, right } => {
                &&& left.median_split()
                &&& right.median_split()
                &&& left.size() == self.size() / 2
                &&& exists|axis: Axis| split_along(left.leaves(), right.leaves(), axis)
            },
        }
    }

    /// What a traversal for the closest hit returns when `crossings` gives a
    /// ray's crossings with each box: a subtree whose box is missed yields
    /// nothing; a branch asks its left child first and its right child for a
    /// hit no farther than the left one, which it then prefers.
    pub open spec fn hit_spec(
        &self,
        r: Ray,
        t_min: Scalar,
        t_max: Scalar,
        crossings: spec_fn(Aabb) -> [Slab; 3],
    ) -> Option<HitRecord<'_, T::Mat>>
        decreases self,
    {
        if !Aabb::hit_spec(crossings(self.aabb), t_min, t_max) {
            None
        } else {
            match self.node {
                Node::Leaf(obj) => obj.hit_spec(r, t_min, t_max),
                Node::Branch { left, right } => {
                    let near = left.hit_spec(r, t_min, t_max, crossings);
                    let closest = match near {
                        Some(rec) => rec.t,
                        None => t_max,
                    };
                    match right.hit_spec(r, t_min, closest, crossings) {
                        Some(rec) => Some(rec),
                        None => near,
                    }
                },
            }
        }
    }

    /// Whether a traversal for the closest hit may return `o`, whatever
    /// `crossings` computes: at each node it yields some crossings with the
    /// node's box; a subtree whose box is missed by them yields nothing; a
    /// leaf yields its object's hit; a branch asks its left child first and
    /// its right child for a hit no farther than the left one, which it then
    /// prefers.
    pub open spec fn finds<F: Fn(&Aabb) -> [Slab; 3]>(
        &self,
        r: Ray,
        t_min: Scalar,
        t_max: Scalar,
        crossings: &F,
        o: Option<HitRecord<'_, T::Mat>>,
    ) -> bool
        decreases self,
    {
        exists|slabs: [Slab; 3]| #[trigger]
            call_ensures(crossings, (&self.aabb,), slabs) && if !Aabb::hit_spec(
                slabs,
                t_min,
                t_max,
            ) {
                o is None
            } else {
                match self.node {
                    Node::Leaf(obj) => o == obj.hit_spec(r, t_min, t_max),
                    Node::Branch { left, right } => exists|
                        near: Option<HitRecord<'_, T::Mat>>,
                        far: Option<HitRecord<'_, T::Mat>>,
                    |
                        {
                            &&& left.finds(r, t_min, t_max, crossings, near)
                            &&& right.finds(r, t_min, tightened(near, t_max), crossings, far)
                            &&& o == #[trigger] preferred(far, near)
                        },
                }
            }
    }

    /// Compares two objects by the lower corners of their boxes along `axis`.
    fn box_cmp(left: &T, right: &T, axis: Axis) -> (o: Ordering)
        requires
            sortable(*left),
            sortable(*right),
        ensures
            match o {
                Ordering::Less => box_key(*left, axis) < box_key(*right, axis),
                Ordering::Equal => box_key(*left, axis) == box_key(*right, axis),
                Ordering::Greater => box_key(*left, axis) > box_key(*right, axis),
            },
    {
        let zero = Scalar::zero();
        let l = left.bounding_box(zero, zero).unwrap().min_along(axis);
        let r = right.bounding_box(zero, zero).unwrap().min_along(axis);
        if l.lt(r) {
            Ordering::Less
        } else if r.lt(l) {
            Ordering::Greater
        } else {
            Ordering::Equal
        }
    }

    /// Whether `left` comes strictly before `right` along `axis`.
    fn precedes(left: &T, right: &T, axis: Axis) -> (r: bool)
        requires
            sortable(*left),
            sortable(*right),
        ensures
            r == (box_key(*left, axis) < box_key(*right, axis)),
    {
        match Self::box_cmp(left, right, axis) {
            Ordering::Less => true,
            _ => false,
        }
    }

    /// Merges two sorted runs into one.
    fn merge_along(mut a: Vec<T>, mut b: Vec<T>, axis: Axis) -> (out: Vec<T>)
        requires
            sorted_along(a@, axis),
            sorted_along(b@, axis),
            forall|i: int| 0 <= i < a@.len() ==> sortable(a@[i]),
            forall|i: int| 0 <= i < b@.len() ==> sortable(b@[i]),
        ensures
            out@.to_multiset() == a@.to_multiset().add(b@.to_multiset()),
            out@.len() == a@.len() + b@.len(),
            sorted_along(out@, axis),
            forall|i: int| 0 <= i < out@.len() ==> sortable(out@[i]),
    {
        broadcast use vstd::multiset::group_multiset_axioms;

        let ghost a0 = a@;
        let ghost b0 = b@;
        // The greatest object left moves over first, so `falling` descends.
        let mut falling: Vec<T> = Vec::new();
        proof {
            to_multiset_len(falling@);
            assert(falling@.to_multiset() =~= vstd::multiset::Multiset::<T>::empty());
            assert(falling@.to_multiset().add(a@.to_multiset()).add(b@.to_multiset())
                =~= a0.to_multiset().add(b0.to_multiset()));
            assert(a@ =~= a0.subrange(0, a@.len() as int));
            assert(b@ =~= b0.subrange(0, b@.len() as int));
        }
        while a.len() > 0 || b.len() > 0
            invariant
                a@ == a0.subrange(0, a@.len() as int),
                b@ == b0.subrange(0, b@.len() as int),
                a@.len() <= a0.len(),
                b@.len() <= b0.len(),
                sorted_along(a0, axis),
                sorted_along(b0, axis),
                forall|i: int| 0 <= i < a0.len() ==> sortable(a0[i]),
                forall|i: int| 0 <= i < b0.len() ==> sortable(b0[i]),
                forall|i: int| 0 <= i < falling@.len() ==> sortable(falling@[i]),
                falling@.len() + a@.len() + b@.len() == a0.len() + b0.len(),
                falling@.to_multiset().add(a@.to_multiset()).add(b@.to_multiset())
                    == a0.to_multiset().add(b0.to_multiset()),
                forall|i: int, j: int|
                    0 <= i <= j < falling@.len() ==> box_key(falling@[i], axis) >= box_key(
                        falling@[j],
                        axis,
                    ),
                forall|i: int, j: int|
                    0 <= i < falling@.len() && 0 <= j < a@.len() ==> box_key(falling@[i], axis)
                        >= box_key(a0[j], axis),
                forall|i: int, j: int|
                    0 <= i < falling@.len() && 0 <= j < b@.len() ==> box_key(falling@[i], axis)
                        >= box_key(b0[j], axis),
            decreases a@.len() + b@.len(),
        {
            let ghost a1 = a@;
            let ghost b1 = b@;
            let ghost f1 = falling@;
            let from_a = if b.len() == 0 {
                true
            } else if a.len() == 0 {
                false
            } else {
                !Self::precedes(&a[a.len() - 1], &b[b.len() - 1], axis)
            };
            let x = if from_a {
                a.pop().unwrap()
            } else {
                b.pop().unwrap()
            };
            falling.push(x);
            proof {
                to_multiset_build(f1, x);
                if from_a {
                    assert(a1 =~= a@.push(x));
                    to_multiset_build(a@, x);
                } else {
                    assert(b1 =~= b@.push(x));
                    to_multiset_build(b@, x);
                }
                assert(falling@.to_multiset().add(a@.to_multiset()).add(b@.to_multiset())
                    =~= f1.to_multiset().add(a1.to_multiset()).add(b1.to_multiset()));
                assert(a@ =~= a0.subrange(0, a@.len() as int));
                assert(b@ =~= b0.subrange(0, b@.len() as int));
                assert(from_a ==> x == a0[a1.len() - 1]);
                assert(!from_a ==> x == b0[b1.len() - 1]);
            }
        }
        let ghost peak = falling@;
        let mut out: Vec<T> = Vec::new();
        proof {
            to_multiset_len(out@);
            assert(out@.to_multiset() =~= vstd::multiset::Multiset::<T>::empty());
            assert(out@.to_multiset().add(falling@.to_multiset()) =~= peak.to_multiset());
            assert(falling@ =~= peak.subrange(0, falling@.len() as int));
        }
        while falling.len() > 0
            invariant
                falling@ == peak.subrange(0, falling@.len() as int),
                falling@.len() <= peak.len(),
                out@.len() + falling@.len() == peak.len(),
                out@.to_multiset().add(falling@.to_multiset()) == peak.to_multiset(),
                forall|i: int| 0 <= i < peak.len() ==> sortable(peak[i]),
                forall|i: int| 0 <= i < out@.len() ==> sortable(out@[i]),
                forall|i: int, j: int|
                    0 <= i <= j < peak.len() ==> box_key(peak[i], axis) >= box_key(peak[j], axis),
                sorted_along(out@, axis),
                forall|i: int, j: int|
                    0 <= i < out@.len() && 0 <= j < falling@.len() ==> box_key(out@[i], axis)
                        <= box_key(peak[j], axis),
            decreases falling@.len(),
        {
            let ghost f1 = falling@;
            let ghost o1 = out@;
            let x = falling.pop().unwrap();
            out.push(x);
            proof {
                assert(f1 =~= falling@.push(x));
                to_multiset_build(falling@, x);
                to_multiset_build(o1, x);
                assert(out@.to_multiset().add(falling@.to_multiset()) =~= o1.to_multiset().add(
                    f1.to_multiset(),
                ));
                assert(falling@ =~= peak.subrange(0, falling@.len() as int));
                assert(x == peak[f1.len() - 1]);
            }
        }
        proof {
            assert(falling@ =~= Seq::<T>::empty());
            assert(a@ =~= Seq::<T>::empty());
            assert(b@ =~= Seq::<T>::empty());
            assert(out@.to_multiset() =~= peak.to_multiset());
            assert(peak.to_multiset() =~= a0.to_multiset().add(b0.to_multiset()));
        }
        out
    }

    /// Sorts the objects along `axis`, by merging sorted halves.
    fn sort_along(mut objects: Vec<T>, axis: Axis) -> (sorted: Vec<T>)
        requires
            forall|i: int| 0 <= i < objects@.len() ==> sortable(objects@[i]),
        ensures
            sorted@.to_multiset() == objects@.to_multiset(),
            sorted@.len() == objects@.len(),
            sorted_along(sorted@, axis),
            forall|i: int| 0 <= i < sorted@.len() ==> sortable(sorted@[i]),
        decreases objects@.len(),
    {
        let ghost given = objects@;
        let n = objects.len();
        if n <= 1 {
            return objects;
        }
        let upper = objects.split_off(n / 2);
        proof {
            assert(given =~= objects@ + upper@);
            lemma_multiset_commutative(objects@, upper@);
        }
        let lower = Self::sort_along(objects, axis);
        let upper = Self::sort_along(upper, axis);
        Self::merge_along(lower, upper, axis)
    }

    /// Builds the hierarchy over `objects` by recursive median splits: the
    /// objects are sorted along a randomly drawn axis and divided in the
    /// middle.
    pub fn new(mut objects: Vec<T>, t_start: Scalar, t_end: Scalar, rng: &mut ThreadRng) -> (bvh:
        Self)
        requires
            Self::accepts(objects@, t_start, t_end),
        ensures
            bvh.leaves().to_multiset() == objects@.to_multiset(),
            bvh.size() == objects@.len(),
            bvh.boxed(t_start, t_end),
            bvh.median_split(),
        decreases objects@.len(),
    {
        let ghost given = objects@;
        let n = objects.len();
        if n == 1 {
            let obj = objects.pop().unwrap();
            let aabb = obj.bounding_box(t_start, t_end).unwrap();
            let bvh = Bvh { node: Node::Leaf(obj), aabb };
            proof {
                assert(given =~= seq![obj]);
                assert(bvh.leaves() =~= given);
            }
            bvh
        } else {
            let axis = random_axis(rng);
            let mut objects = Self::sort_along(objects, axis);
            let ghost sorted = objects@;
            proof {
                assert forall|k: int| 0 <= k < sorted.len() implies (
                #[trigger] sorted[k]).bounding_box_spec(t_start, t_end) is Some by {
                    to_multiset_contains(sorted, sorted[k]);
                    to_multiset_contains(given, sorted[k]);
                    assert(sorted.contains(sorted[k]));
                }
            }
            let upper = objects.split_off(n / 2);
            let ghost lower_half = objects@;
            let ghost upper_half = upper@;
            let left = Box::new(Self::new(objects, t_start, t_end, rng));
            let right = Box::new(Self::new(upper, t_start, t_end, rng));
            let aabb = left.aabb.surrounding_box(right.aabb);
            let bvh = Bvh { node: Node::Branch { left, right }, aabb };
            proof {
                assert(sorted =~= lower_half + upper_half);
                lemma_multiset_commutative(lower_half, upper_half);
                lemma_multiset_commutative(left.leaves(), right.leaves());
                assert(bvh.leaves() == left.leaves() + right.leaves());
                left.lemma_size_is_leaf_count();
                right.lemma_size_is_leaf_count();
                assert(left.size() == n / 2);
                assert forall|i: int, j: int|
                    0 <= i < left.leaves().len() && 0 <= j < right.leaves().len() implies box_key(
                    left.leaves()[i],
                    axis,
                ) <= box_key(right.leaves()[j], axis) by {
                    let l = left.leaves()[i];
                    let r = right.leaves()[j];
                    to_multiset_contains(left.leaves(), l);
                    to_multiset_contains(lower_half, l);
                    to_multiset_contains(right.leaves(), r);
                    to_multiset_contains(upper_half, r);
                    assert(left.leaves().contains(l));
                    assert(right.leaves().contains(r));
                    let a = choose|a: int| 0 <= a < lower_half.len() && lower_half[a] == l;
                    let b = choose|b: int| 0 <= b < upper_half.len() && upper_half[b] == r;
                    assert(sorted[a] == l);
                    assert(sorted[n / 2 + b] == r);
                }
                assert(split_along(left.leaves(), right.leaves(), axis));
            }
            bvh
        }
    }

    /// Whether a hierarchy can be built over `objects` for the interval from
    /// `t_start` to `t_end`: there is an object, and every object reports a
    /// box for the interval; where there are several, which have to be
    /// sorted, each can be placed in the sorting order.
    pub open spec fn accepts(objects: Seq<T>, t_start: Scalar, t_end: Scalar) -> bool {
        &&& objects.len() > 0
        &&& forall|i: int|
            0 <= i < objects.len() ==> (#[trigger] objects[i]).bounding_box_spec(t_start, t_end) is Some
        &&& objects.len() > 1 ==> forall|i: int|
            0 <= i < objects.len() ==> sortable(#[trigger] objects[i])
    }

    /// Builds the hierarchy over `objects` as [`Bvh::new`] does, or returns
    /// `None` where no hierarchy can be built over them.
    pub fn build(objects: Vec<T>, t_start: Scalar, t_end: Scalar, rng: &mut ThreadRng) -> (o: Option<
        Self,
    >)
        ensures
            o is Some == Self::accepts(objects@, t_start, t_end),
            match o {
                Some(bvh) => {
                    &&& bvh.leaves().to_multiset() == objects@.to_multiset()
                    &&& bvh.size() == objects@.len()
                    &&& bvh.boxed(t_start, t_end)
                    &&& bvh.median_split()
                },
                None => true,
            },
    {
        if objects.len() == 0 {
            return None;
        }
        let zero = Scalar::zero();
        let several = objects.len() > 1;
        let mut i: usize = 0;
        while i < objects.len()
            invariant
                i <= objects@.len(),
                zero == (Scalar { bits: 0 }),
                several == (objects@.len() > 1),
                forall|k: int|
                    0 <= k < i ==> (#[trigger] objects@[k]).bounding_box_spec(t_start, t_end) is Some,
                several ==> forall|k: int| 0 <= k < i ==> sortable(#[trigger] objects@[k]),
            decreases objects@.len() - i,
        {
            if objects[i].bounding_box(t_start, t_end).is_none() {
                return None;
            }
            if several {
                match objects[i].bounding_box(zero, zero) {
                    Some(b) => {
                        if b.min.x.is_nan() || b.min.y.is_nan() || b.min.z.is_nan() {
                            return None;
                        }
                    },
                    None => {
                        return None;
                    },
                }
            }
            i = i + 1;
        }
        Some(Self::new(objects, t_start, t_end, rng))
    }

    /// Finds the closest intersection of `r` with the objects of the
    /// hierarchy at a parameter between `t_min` and `t_max`. `crossings`
    /// computes the crossings of `r` with the slabs of a box. The result is
    /// one that [`Bvh::finds`] admits, and whenever `crossings` is a function
    /// of the box, it is the one [`Bvh::hit_spec`] describes.
    pub fn hit<F: Fn(&Aabb) -> [Slab; 3]>(
        &self,
        r: &Ray,
        t_min: Scalar,
        t_max: Scalar,
        crossings: &F,
    ) -> (o: Option<HitRecord<'_, T::Mat>>)
        requires
            forall|b: &Aabb| call_requires(crossings, (b,)),
        ensures
            self.finds(*r, t_min, t_max, crossings, o),
            forall|model: spec_fn(Aabb) -> [Slab; 3]|
                (forall|b: &Aabb, out: [Slab; 3]| #[trigger]
                    call_ensures(crossings, (b,), out) ==> out == model(*b)) ==> o
                    == #[trigger] self.hit_spec(*r, t_min, t_max, model),
        decreases self,
    {
        let slabs = crossings(&self.aabb);
        assert(call_ensures(crossings, (&self.aabb,), slabs));
        if !Aabb::hit(&slabs, t_min, t_max) {
            return None;
        }
        match &self.node {
            Node::Branch { left, right } => {
                let near = left.hit(r, t_min, t_max, crossings);
                let closest = match &near {
                    Some(rec) => rec.t,
                    None => t_max,
                };
                let far = right.hit(r, t_min, closest, crossings);
                let o = match far {
                    Some(rec) => Some(rec),
                    None => near,
                };
                proof {
                    assert(closest == tightened(near, t_max));
                    assert(o == preferred(far, near));
                    assert(self.finds(*r, t_min, t_max, crossings, o));
                    assert forall|model: spec_fn(Aabb) -> [Slab; 3]|
                        (forall|b: &Aabb, out: [Slab; 3]| #[trigger]
                            call_ensures(crossings, (b,), out) ==> out == model(
                                *b,
                            )) implies o == #[trigger] self.hit_spec(*r, t_min, t_max, model) by {
                        assert(slabs == model(self.aabb));
                        assert(near == left.hit_spec(*r, t_min, t_max, model));
                        assert(far == right.hit_spec(*r, t_min, closest, model));
                    }
                }
                o
            },
            Node::Leaf(obj) => {
                let o = obj.hit(r, t_min, t_max);
                proof {
                    assert forall|model: spec_fn(Aabb) -> [Slab; 3]|
                        (forall|b: &Aabb, out: [Slab; 3]| #[trigger]
                            call_ensures(crossings, (b,), out) ==> out == model(
                                *b,
                            )) implies o == #[trigger] self.hit_spec(*r, t_min, t_max, model) by {
                        assert(slabs == model(self.aabb));
                    }
                }
                o
            },
        }
    }

    /// The box around everything in the hierarchy.
    pub fn bounding_box(&self, _t_start: Scalar, _t_end: Scalar) -> (o: Option<Aabb>)
        ensures
            o == Some(self.aabb),
    {
        Some(self.aabb)
    }

    /// The box of a hierarchy covers the box of every object in it, provided
    /// that the objects' boxes are boxes.
    pub proof fn lemma_root_covers_leaves(self, t_start: Scalar, t_end: Scalar)
        requires
            self.boxed(t_start, t_end),
            forall|i: int|
                0 <= i < self.leaves().len() ==> match (#[trigger] self.leaves()[i]).bounding_box_spec(
                    t_start,
                    t_end,
                ) {
                    Some(b) => b.well_formed(),
                    None => true,
                },
        ensures
            self.aabb.well_formed(),
            forall|i: int|
                0 <= i < self.leaves().len() ==> match (#[trigger] self.leaves()[i]).bounding_box_spec(
                    t_start,
                    t_end,
                ) {
                    Some(b) => self.aabb.covers(b),
                    None => false,
                },
        decreases self,
    {
        match self.node {
            Node::Leaf(obj) => {
                assert(self.leaves()[0] == obj);
            },
            Node::Branch { left, right } => {
                let ll = left.leaves();
                let rl = right.leaves();
                let leaves = self.leaves();
                assert forall|i: int| 0 <= i < ll.len() implies match (#[trigger] ll[i]).bounding_box_spec(
                    t_start,
                    t_end,
                ) {
                    Some(b) => b.well_formed(),
                    None => true,
                } by {
                    assert(leaves[i] == ll[i]);
                }
                assert forall|j: int| 0 <= j < rl.len() implies match (#[trigger] rl[j]).bounding_box_spec(
                    t_start,
                    t_end,
                ) {
                    Some(b) => b.well_formed(),
                    None => true,
                } by {
                    assert(leaves[ll.len() + j] == rl[j]);
                }
                left.lemma_root_covers_leaves(t_start, t_end);
                right.lemma_root_covers_leaves(t_start, t_end);
                assert forall|i: int| 0 <= i < leaves.len() implies match (
                #[trigger] leaves[i]).bounding_box_spec(t_start, t_end) {
                    Some(b) => self.aabb.covers(b),
                    None => false,
                } by {
                    if i < ll.len() {
                        assert(leaves[i] == ll[i]);
                        lemma_union_covers(
                            left.aabb,
                            right.aabb,
                            ll[i].bounding_box_spec(t_start, t_end).unwrap(),
                        );
                    } else {
                        assert(leaves[i] == rl[i - ll.len()]);
                        lemma_union_covers(
                            left.aabb,
                            right.aabb,
                            rl[i - ll.len()].bounding_box_spec(t_start, t_end).unwrap(),
                        );
                    }
                }
                lemma_union_covers(left.aabb, right.aabb, left.aabb);
            },
        }
    }

    /// A hierarchy of median splits is as shallow as its size allows: its
    /// depth is the logarithm of its size to the base two, rounded up.
    pub proof fn lemma_depth_is_logarithmic(self)
        requires
            self.median_split(),
        ensures
            self.size() <= pow2(self.depth()),
            self.depth() > 0 ==> pow2((self.depth() - 1) as nat) < self.size(),
        decreases self,
    {
        lemma2_to64();
        match self.node {
            Node::Leaf(_) => {},
            Node::Branch { left, right } => {
                left.lemma_depth_is_logarithmic();
                right.lemma_depth_is_logarithmic();
                left.lemma_size_is_leaf_count();
                right.lemma_size_is_leaf_count();
                let dl = left.depth();
                let dr = right.depth();
                let d = self.depth();
                let n = self.size();
                assert(left.size() == n / 2);
                assert(right.size() == n - n / 2);
                lemma_pow2_unfold(d);
                if dl > 0 {
                    lemma_pow2_unfold(dl);
                }
                if dr > 0 {
                    lemma_pow2_unfold(dr);
                }
                if dl >= dr {
                    if dr < dl {
                        lemma_pow2_strictly_increases(dr, dl);
                    }
                } else {
                    lemma_pow2_strictly_increases(dl, dr);
                }
            },
        }
    }

    /// The hierarchy has as many leaves as its size says.
    pub proof fn lemma_size_is_leaf_count(self)
        ensures
            self.leaves().len() == self.size(),
            self.size() >= 1,
        decreases self,
    {
        match self.node {
            Node::Leaf(_) => {},
            Node::Branch { left, right } => {
                left.lemma_size_is_leaf_count();
                right.lemma_size_is_leaf_count();
            },
        }
    }
}

} // verus!
