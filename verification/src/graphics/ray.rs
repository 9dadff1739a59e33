//! Rays.

use vstd::prelude::*;
use rand::rngs::ThreadRng;
use crate::graphics::hit::{Hit, HitRecord};
use crate::graphics::material::{Material, Scatter};
use crate::math::{Point, Rgb, Vec3};
use crate::scalar::{Scalar, INFINITY_BITS};

verus! {

/// Pattern of 0.001, the smallest ray parameter at which a surface counts as
/// struck; it keeps a ray from striking the surface it has just left.
pub const T_MIN_BITS: u64 = 0x3f50_624d_d2f1_a9fc;

/// A half-line `origin + t * direction`, cast at the instant `t` of the
/// shutter interval.
#[derive(Clone, Copy, Debug, PartialEq, Eq, Structural)]
pub struct Ray {
    pub origin: Point,
    pub direction: Vec3,
    pub t: Scalar,
}

/// How a light path ends.
#[derive(Clone, Copy, Debug, PartialEq, Eq, Structural)]
pub enum PathEnd {
    /// The bounce budget ran out: no more light is gathered.
    Exhausted,
    /// A material absorbed the ray.
    Absorbed,
    /// The ray left the scene in the given direction and meets the sky.
    Escaped(Vec3),
}

/// What happens to a ray at one bounce.
#[derive(Clone, Copy, Debug, PartialEq, Eq, Structural)]
pub enum Step {
    /// The path ends here.
    Done(PathEnd),
    /// The path goes on with the scattered ray.
    Continue(Scatter),
}

/// The light gathered along a path: the tint of every bounce in the order
/// travelled, and how the path ended. Its color is that of the end, black
/// unless the ray escaped to the sky, multiplied by every tint.
pub struct Light {
    pub attenuations: Vec<Rgb>,
    pub end: PathEnd,
}

/// The surface that `ray` strikes first in the scene, at a parameter of at
/// least 0.001.
pub open spec fn seen<W: Hit>(world: &W, ray: Ray) -> Option<HitRecord<'_, W::Mat>> {
    world.hit_spec(ray, Scalar { bits: T_MIN_BITS }, Scalar { bits: INFINITY_BITS })
}

/// Whether the ray `from` may bounce into the ray `to` with the tint `tint`:
/// it strikes a surface whose material may scatter it so.
pub open spec fn bounces<W: Hit>(world: &W, from: Ray, to: Ray, tint: Rgb) -> bool where
    W::Mat: Material,
 {
    match seen(world, from) {
        Some(rec) => rec.mat.may_scatter(from, rec, Some(Scatter { ray: to, attenuation: tint })),
        None => false,
    }
}

/// Whether a path may end with `end` at the ray `last`: a ray escapes only
/// where it strikes nothing, and then in its own direction; it is absorbed
/// only by a surface whose material may absorb it.
pub open spec fn ends<W: Hit>(world: &W, last: Ray, end: PathEnd) -> bool where W::Mat: Material {
    match end {
        PathEnd::Exhausted => true,
        PathEnd::Escaped(direction) => seen(world, last) is None && direction == last.direction,
        PathEnd::Absorbed => match seen(world, last) {
            Some(rec) => rec.mat.may_scatter(last, rec, None),
            None => false,
        },
    }
}

/// Whether light with the given tints and end may have been gathered along
/// the rays `rays`, starting with `start` and over at most `depth` bounces:
/// each ray bounces into the next with its tint, the last ray ends the path,
/// and the path is exhausted exactly when it has used every bounce.
pub open spec fn follows<W: Hit>(
    world: &W,
    rays: Seq<Ray>,
    tints: Seq<Rgb>,
    end: PathEnd,
    start: Ray,
    depth: usize,
) -> bool where W::Mat: Material {
    &&& rays.len() == tints.len() + 1
    &&& rays[0] == start
    &&& forall|i: int| 0 <= i < tints.len() ==> bounces(world, rays[i], rays[i + 1], #[trigger] tints[i])
    &&& ends(world, rays.last(), end)
    &&& tints.len() <= depth
    &&& (end == PathEnd::Exhausted) == (tints.len() == depth)
}

impl Ray {
    /// What one bounce does to a ray headed in `direction`: `encounter` is
    /// `None` when the scene was missed, and otherwise what the material of
    /// the surface that was struck made of the ray.
    pub open spec fn step_spec(direction: Vec3, encounter: Option<Option<Scatter>>) -> Step {
        match encounter {
            None => Step::Done(PathEnd::Escaped(direction)),
            Some(None) => Step::Done(PathEnd::Absorbed),
            Some(Some(scattered)) => Step::Continue(scattered),
        }
    }

    pub fn new(origin: Point, direction: Vec3, t: Scalar) -> (r: Ray)
        ensures
            r == (Ray { origin, direction, t }),
    {
        Ray { origin, direction, t }
    }

    /// Decides one bounce, as [`Ray::step_spec`] describes.
    pub fn step(&self, encounter: Option<Option<Scatter>>) -> (s: Step)
        ensures
            s == Self::step_spec(self.direction, encounter),
    {
        match encounter {
            None => Step::Done(PathEnd::Escaped(self.direction)),
            Some(None) => Step::Done(PathEnd::Absorbed),
            Some(Some(scattered)) => Step::Continue(scattered),
        }
    }

    /// The light seen along the ray, gathered over at most `depth` bounces.
    ///
    /// With no bounce left the path is exhausted at once, whatever the scene
    /// holds, and the generator is left as it was; so it is for a ray that
    /// strikes nothing. Otherwise the ray is cast at the scene for a hit at a parameter
    /// of at least 0.001: a ray that misses escapes in its own direction, and
    /// one that hits is handed to the material of the surface, which absorbs
    /// it or scatters it with a tint.
    pub fn color<W: Hit>(&self, world: &W, depth: usize, rng: &mut ThreadRng) -> (light: Light)
        where W::Mat: Material
        ensures
            depth == 0 ==> light.attenuations@.len() == 0 && light.end == PathEnd::Exhausted,
            exists|rays: Seq<Ray>| follows(world, rays, light.attenuations@, light.end, *self, depth),
            depth == 0 || seen(world, *self) is None ==> *final(rng) == *old(rng),
    {
        let mut attenuations: Vec<Rgb> = Vec::new();
        let mut ray = *self;
        let mut left = depth;
        let mut end = PathEnd::Exhausted;
        let ghost mut rays: Seq<Ray> = seq![*self];
        while left > 0
            invariant_except_break
                attenuations@.len() == 0 ==> *rng == *old(rng),
                end == PathEnd::Exhausted,
                attenuations@.len() + left == depth,
            invariant
                attenuations@.len() > 0 ==> seen(world, *self) is Some,
                rays.len() == attenuations@.len() + 1,
                rays[0] == *self,
                rays.last() == ray,
                forall|i: int|
                    0 <= i < attenuations@.len() ==> bounces(
                        world,
                        rays[i],
                        rays[i + 1],
                        #[trigger] attenuations@[i],
                    ),
            ensures
                follows(world, rays, attenuations@, end, *self, depth),
                depth == 0 || seen(world, *self) is None ==> *rng == *old(rng),
            decreases left,
        {
            let encounter = match world.hit(&ray, Scalar::from_bits(T_MIN_BITS), Scalar::infinity()) {
                Some(rec) => Some(rec.mat.scatter(&ray, &rec, rng)),
                None => None,
            };
            match ray.step(encounter) {
                Step::Done(reached) => {
                    end = reached;
                    break ;
                },
                Step::Continue(scattered) => {
                    proof {
                        let ghost before = rays;
                        rays = rays.push(scattered.ray);
                        assert forall|i: int| 0 <= i < attenuations@.len() + 1 implies bounces(
                            world,
                            rays[i],
                            rays[i + 1],
                            #[trigger] attenuations@.push(scattered.attenuation)[i],
                        ) by {
                            if i < attenuations@.len() {
                                assert(rays[i] == before[i]);
                                assert(rays[i + 1] == before[i + 1]);
                                assert(bounces(world, before[i], before[i + 1], attenuations@[i]));
                            }
                        }
                    }
                    attenuations.push(scattered.attenuation);
                    ray = scattered.ray;
                    left = left - 1;
                },
            }
        }
        let light = Light { attenuations, end };
        assert(follows(world, rays, light.attenuations@, light.end, *self, depth));
        light
    }
}

/// A path from a ray that strikes nothing gathers no tint: with a bounce at
/// hand the ray escapes in its own direction.
pub proof fn lemma_miss_escapes<W: Hit>(
    world: &W,
    rays: Seq<Ray>,
    tints: Seq<Rgb>,
    end: PathEnd,
    start: Ray,
    depth: usize,
) where W::Mat: Material
    requires
        follows(world, rays, tints, end, start, depth),
        seen(world, start) is None,
    ensures
        tints.len() == 0,
        depth > 0 ==> end == PathEnd::Escaped(start.direction),
        depth == 0 ==> end == PathEnd::Exhausted,
{
    if tints.len() > 0 {
        assert(bounces(world, rays[0], rays[1], tints[0]));
    }
}

/// A path from a ray that strikes a surface gathers a tint, unless the
/// surface absorbs the ray or no bounce is at hand.
pub proof fn lemma_hit_tints_or_absorbs<W: Hit>(
    world: &W,
    rays: Seq<Ray>,
    tints: Seq<Rgb>,
    end: PathEnd,
    start: Ray,
    depth: usize,
) where W::Mat: Material
    requires
        follows(world, rays, tints, end, start, depth),
        seen(world, start) is Some,
        depth > 0,
    ensures
        tints.len() > 0 || end == PathEnd::Absorbed,
{
}

} // verus!
