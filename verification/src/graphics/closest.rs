//! Why a hierarchy and a linear scan find hits at the same distance.

use vstd::prelude::*;
use vstd::seq_lib::*;
use crate::graphics::aabb::{Aabb, Slab};
use crate::graphics::bvh::{Bvh, Node};
use crate::graphics::hit::{scan_spec, Hit, HitRecord};
use crate::graphics::ray::Ray;
use crate::scalar::{Scalar, INFINITY_BITS};

verus! {

/// The hit, unless it lies beyond `t_max`.
pub open spec fn clip<'a, M>(o: Option<HitRecord<'a, M>>, t_max: Scalar) -> Option<
    HitRecord<'a, M>,
> {
    match o {
        Some(rec) => if rec.t.le_spec(t_max) {
            Some(rec)
        } else {
            None
        },
        None => None,
    }
}

/// Whether an object answers a ray steadily: it has one nearest hit from
/// `t_min` on, at a parameter that is a number, and a query with an upper
/// bound reports that hit exactly when it lies within the bound.
pub open spec fn steady<T: Hit>(item: T, r: Ray, t_min: Scalar) -> bool {
    &&& forall|t_max: Scalar|
        !t_max.nan() ==> #[trigger] item.hit_spec(r, t_min, t_max) == clip(
            item.hit_spec(r, t_min, Scalar { bits: INFINITY_BITS }),
            t_max,
        )
    &&& match item.hit_spec(r, t_min, Scalar { bits: INFINITY_BITS }) {
        Some(rec) => !rec.t.nan(),
        None => true,
    }
}

/// Whether `o` is a closest hit among the first `n` of `items`: it is the
/// hit of one of them, and none of them reports a nearer one; or there is no
/// hit, and none of them reports any.
pub open spec fn closest_among<'a, T: Hit>(
    items: Seq<T>,
    n: int,
    r: Ray,
    t_min: Scalar,
    t_max: Scalar,
    o: Option<HitRecord<'a, T::Mat>>,
) -> bool {
    match o {
        None => forall|i: int| 0 <= i < n ==> (#[trigger] items[i]).hit_spec(r, t_min, t_max) is None,
        Some(rec) => {
            &&& !rec.t.nan()
            &&& rec.t.le_spec(t_max)
            &&& exists|i: int| 0 <= i < n && (#[trigger] items[i]).hit_spec(r, t_min, t_max) == Some(rec)
            &&& forall|i: int|
                0 <= i < n ==> match (#[trigger] items[i]).hit_spec(r, t_min, t_max) {
                    Some(h) => rec.t.key() <= h.t.key(),
                    None => true,
                }
        },
    }
}

/// Whether two queries agree on the distance: both miss, or both hit at the
/// same parameter.
pub open spec fn same_distance<'a, 'b, M>(
    a: Option<HitRecord<'a, M>>,
    b: Option<HitRecord<'b, M>>,
) -> bool {
    match (a, b) {
        (None, None) => true,
        (Some(x), Some(y)) => !x.t.nan() && !y.t.nan() && x.t.key() == y.t.key(),
        _ => false,
    }
}

impl<T: Hit> Bvh<T> {
    /// Whether every box of the hierarchy shelters the objects below it from
    /// pruning: a ray that hits one of them within a bound also passes the
    /// slab test of the box within that bound.
    pub open spec fn shelters(
        self,
        r: Ray,
        t_min: Scalar,
        crossings: spec_fn(Aabb) -> [Slab; 3],
    ) -> bool
        decreases self,
    {
        &&& forall|i: int, t_max: Scalar|
            0 <= i < self.leaves().len() && !t_max.nan() && (#[trigger] self.leaves()[i].hit_spec(
                r,
                t_min,
                t_max,
            )) is Some ==> Aabb::hit_spec(crossings(self.aabb), t_min, t_max)
        &&& match self.node {
            Node::Leaf(_) => true,
            Node::Branch { left, right } => left.shelters(r, t_min, crossings) && right.shelters(
                r,
                t_min,
                crossings,
            ),
        }
    }
}

/// A linear scan over steady objects returns a closest hit among them.
pub proof fn lemma_scan_is_closest<T: Hit>(
    items: Seq<T>,
    n: int,
    r: Ray,
    t_min: Scalar,
    t_max: Scalar,
)
    requires
        0 <= n <= items.len(),
        !t_max.nan(),
        forall|i: int| 0 <= i < n ==> steady(#[trigger] items[i], r, t_min),
    ensures
        closest_among(items, n, r, t_min, t_max, scan_spec(items, n, r, t_min, t_max)),
    decreases n,
{
    if n > 0 {
        lemma_scan_is_closest(items, n - 1, r, t_min, t_max);
        let before = scan_spec(items, n - 1, r, t_min, t_max);
        let closest = match before {
            Some(rec) => rec.t,
            None => t_max,
        };
        let last = items[n - 1];
        let now = last.hit_spec(r, t_min, closest);
        let o = scan_spec(items, n, r, t_min, t_max);
        assert(steady(last, r, t_min));
        assert(last.hit_spec(r, t_min, t_max) == clip(
            last.hit_spec(r, t_min, Scalar { bits: INFINITY_BITS }),
            t_max,
        ));
        assert(now == clip(last.hit_spec(r, t_min, Scalar { bits: INFINITY_BITS }), closest));
        match now {
            Some(rec) => {
                assert(items[n - 1].hit_spec(r, t_min, t_max) == Some(rec));
                assert forall|i: int| 0 <= i < n implies match (#[trigger] items[i]).hit_spec(
                    r,
                    t_min,
                    t_max,
                ) {
                    Some(h) => rec.t.key() <= h.t.key(),
                    None => true,
                } by {
                    if i < n - 1 {
                        if items[i].hit_spec(r, t_min, t_max) is Some {
                            assert(before is Some);
                        }
                    }
                }
            },
            None => {
                match before {
                    Some(b) => {
                        let i0 = choose|i: int|
                            0 <= i < n - 1 && (#[trigger] items[i]).hit_spec(r, t_min, t_max)
                                == Some(b);
                        assert(items[i0].hit_spec(r, t_min, t_max) == Some(b));
                    },
                    None => {},
                }
            },
        }
    }
}

/// A traversal of a hierarchy over steady objects, sheltered by its boxes,
/// returns a closest hit among its leaves.
pub proof fn lemma_traversal_is_closest<T: Hit>(
    bvh: Bvh<T>,
    r: Ray,
    t_min: Scalar,
    t_max: Scalar,
    crossings: spec_fn(Aabb) -> [Slab; 3],
)
    requires
        !t_max.nan(),
        forall|i: int| 0 <= i < bvh.leaves().len() ==> steady(#[trigger] bvh.leaves()[i], r, t_min),
        bvh.shelters(r, t_min, crossings),
    ensures
        closest_among(
            bvh.leaves(),
            bvh.leaves().len() as int,
            r,
            t_min,
            t_max,
            bvh.hit_spec(r, t_min, t_max, crossings),
        ),
    decreases bvh,
{
    let leaves = bvh.leaves();
    let o = bvh.hit_spec(r, t_min, t_max, crossings);
    if !Aabb::hit_spec(crossings(bvh.aabb), t_min, t_max) {
        assert forall|i: int| 0 <= i < leaves.len() implies (#[trigger] leaves[i]).hit_spec(
            r,
            t_min,
            t_max,
        ) is None by {}
    } else {
        match bvh.node {
            Node::Leaf(obj) => {
                assert(leaves[0] == obj);
                assert(steady(leaves[0], r, t_min));
            },
            Node::Branch { left, right } => {
                let ll = left.leaves();
                let rl = right.leaves();
                assert forall|i: int| 0 <= i < ll.len() implies steady(#[trigger] ll[i], r, t_min) by {
                    assert(leaves[i] == ll[i]);
                }
                assert forall|j: int| 0 <= j < rl.len() implies steady(#[trigger] rl[j], r, t_min) by {
                    assert(leaves[ll.len() + j] == rl[j]);
                }
                lemma_traversal_is_closest(*left, r, t_min, t_max, crossings);
                let near = left.hit_spec(r, t_min, t_max, crossings);
                let closest = match near {
                    Some(rec) => rec.t,
                    None => t_max,
                };
                lemma_traversal_is_closest(*right, r, t_min, closest, crossings);
                let far = right.hit_spec(r, t_min, closest, crossings);
                assert forall|j: int| 0 <= j < rl.len() implies (#[trigger] rl[j]).hit_spec(
                    r,
                    t_min,
                    t_max,
                ) == clip(rl[j].hit_spec(r, t_min, Scalar { bits: INFINITY_BITS }), t_max)
                    && rl[j].hit_spec(r, t_min, closest) == clip(
                    rl[j].hit_spec(r, t_min, Scalar { bits: INFINITY_BITS }),
                    closest,
                ) by {
                    assert(steady(rl[j], r, t_min));
                }
                match far {
                    Some(rec) => {
                        let j0 = choose|j: int|
                            0 <= j < rl.len() && (#[trigger] rl[j]).hit_spec(r, t_min, closest)
                                == Some(rec);
                        assert(leaves[ll.len() + j0] == rl[j0]);
                        assert(leaves[ll.len() + j0].hit_spec(r, t_min, t_max) == Some(rec));
                        assert forall|i: int| 0 <= i < leaves.len() implies match (
                        #[trigger] leaves[i]).hit_spec(r, t_min, t_max) {
                            Some(h) => rec.t.key() <= h.t.key(),
                            None => true,
                        } by {
                            if i < ll.len() {
                                assert(leaves[i] == ll[i]);
                            } else {
                                assert(leaves[i] == rl[i - ll.len()]);
                            }
                        }
                    },
                    None => {
                        match near {
                            Some(b) => {
                                let i0 = choose|i: int|
                                    0 <= i < ll.len() && (#[trigger] ll[i]).hit_spec(r, t_min, t_max)
                                        == Some(b);
                                assert(leaves[i0] == ll[i0]);
                                assert forall|i: int| 0 <= i < leaves.len() implies match (
                                #[trigger] leaves[i]).hit_spec(r, t_min, t_max) {
                                    Some(h) => b.t.key() <= h.t.key(),
                                    None => true,
                                } by {
                                    if i < ll.len() {
                                        assert(leaves[i] == ll[i]);
                                    } else {
                                        assert(leaves[i] == rl[i - ll.len()]);
                                    }
                                }
                            },
                            None => {
                                assert forall|i: int| 0 <= i < leaves.len() implies (
                                #[trigger] leaves[i]).hit_spec(r, t_min, t_max) is None by {
                                    if i < ll.len() {
                                        assert(leaves[i] == ll[i]);
                                    } else {
                                        assert(leaves[i] == rl[i - ll.len()]);
                                    }
                                }
                            },
                        }
                    },
                }
            },
        }
    }
}

/// Closest hits among the same objects, in whatever order, lie at the same
/// distance.
pub proof fn lemma_closest_is_unique<'a, 'b, T: Hit>(
    xs: Seq<T>,
    ys: Seq<T>,
    r: Ray,
    t_min: Scalar,
    t_max: Scalar,
    a: Option<HitRecord<'a, T::Mat>>,
    b: Option<HitRecord<'b, T::Mat>>,
)
    requires
        xs.to_multiset() == ys.to_multiset(),
        closest_among(xs, xs.len() as int, r, t_min, t_max, a),
        closest_among(ys, ys.len() as int, r, t_min, t_max, b),
    ensures
        same_distance(a, b),
{
    if let Some(x) = a {
        let i = choose|i: int| 0 <= i < xs.len() && (#[trigger] xs[i]).hit_spec(r, t_min, t_max) == Some(x);
        to_multiset_contains(xs, xs[i]);
        to_multiset_contains(ys, xs[i]);
        assert(xs.contains(xs[i]));
        let j = choose|j: int| 0 <= j < ys.len() && ys[j] == xs[i];
        assert(ys[j].hit_spec(r, t_min, t_max) == Some(x));
    }
    if let Some(y) = b {
        let j = choose|j: int| 0 <= j < ys.len() && (#[trigger] ys[j]).hit_spec(r, t_min, t_max) == Some(y);
        to_multiset_contains(ys, ys[j]);
        to_multiset_contains(xs, ys[j]);
        assert(ys.contains(ys[j]));
        let i = choose|i: int| 0 <= i < xs.len() && xs[i] == ys[j];
        assert(xs[i].hit_spec(r, t_min, t_max) == Some(y));
    }
}

/// For a fixed scene and ray, a traversal of the hierarchy and a linear scan
/// over the same objects, in whatever order, find the closest hit at the same
/// distance, provided that the objects answer steadily and that the boxes
/// shelter them.
pub proof fn lemma_traversal_matches_scan<T: Hit>(
    bvh: Bvh<T>,
    items: Seq<T>,
    r: Ray,
    t_min: Scalar,
    t_max: Scalar,
    crossings: spec_fn(Aabb) -> [Slab; 3],
)
    requires
        items.to_multiset() == bvh.leaves().to_multiset(),
        !t_max.nan(),
        forall|i: int| 0 <= i < items.len() ==> steady(#[trigger] items[i], r, t_min),
        bvh.shelters(r, t_min, crossings),
    ensures
        same_distance(
            bvh.hit_spec(r, t_min, t_max, crossings),
            scan_spec(items, items.len() as int, r, t_min, t_max),
        ),
{
    let leaves = bvh.leaves();
    assert forall|i: int| 0 <= i < leaves.len() implies steady(#[trigger] leaves[i], r, t_min) by {
        to_multiset_contains(leaves, leaves[i]);
        to_multiset_contains(items, leaves[i]);
        assert(leaves.contains(leaves[i]));
        let j = choose|j: int| 0 <= j < items.len() && items[j] == leaves[i];
        assert(steady(items[j], r, t_min));
    }
    lemma_traversal_is_closest(bvh, r, t_min, t_max, crossings);
    lemma_scan_is_closest(items, items.len() as int, r, t_min, t_max);
    lemma_closest_is_unique(
        leaves,
        items,
        r,
        t_min,
        t_max,
        bvh.hit_spec(r, t_min, t_max, crossings),
        scan_spec(items, items.len() as int, r, t_min, t_max),
    );
}

} // verus!
