use rand::rngs::ThreadRng;
use sidewinder::graphics::aabb::{Aabb, Slab};
use sidewinder::graphics::bvh::{Bvh, Node};
use sidewinder::graphics::hit::{Face, Hit, HitList, HitRecord};
use sidewinder::graphics::material::{Lambertian, Material, Scatter};
use sidewinder::graphics::ray::{Light, PathEnd, Ray, Step};
use sidewinder::graphics::texture::Solid;
use sidewinder::math::{Axis, Point, Rgb, Vec3};
use sidewinder::object::sphere::{Contact, MovingSphere, Roots, Sphere};
use sidewinder::raster::pixel_position;
use sidewinder::scalar::Scalar;

fn s(x: f64) -> Scalar {
    Scalar::from_bits(x.to_bits())
}

fn f(x: Scalar) -> f64 {
    f64::from_bits(x.to_bits())
}

fn v(x: f64, y: f64, z: f64) -> Vec3 {
    Vec3::newf(s(x), s(y), s(z))
}

fn arr(p: &Vec3) -> [f64; 3] {
    [f(p.x), f(p.y), f(p.z)]
}

fn dot(a: [f64; 3], b: [f64; 3]) -> f64 {
    a[0] * b[0] + a[1] * b[1] + a[2] * b[2]
}

fn sub(a: [f64; 3], b: [f64; 3]) -> [f64; 3] {
    [a[0] - b[0], a[1] - b[1], a[2] - b[2]]
}

fn unit(a: [f64; 3]) -> [f64; 3] {
    let len = dot(a, a).sqrt();
    [a[0] / len, a[1] / len, a[2] / len]
}

/// A diffuse white surface that scatters every ray along the normal.
struct Matte {
    surface: Lambertian<Solid>,
}

impl Matte {
    fn white() -> Matte {
        Matte { surface: Lambertian::new(Solid::new(v(1.0, 1.0, 1.0))) }
    }
}

impl Material for Matte {
    fn scatter(&self, r: &Ray, rec: &HitRecord<'_, Self>, _rng: &mut ThreadRng) -> Option<Scatter> {
        let n = arr(&rec.normal);
        let candidate = v(n[0] + 0.0, n[1] + 1.0e-3, n[2] + 0.0);
        self.surface.scatter(r, rec, candidate)
    }
}

/// A material that swallows every ray.
struct Soot;

impl Material for Soot {
    fn scatter(&self, _r: &Ray, _rec: &HitRecord<'_, Self>, _rng: &mut ThreadRng) -> Option<Scatter> {
        None
    }
}

struct Ball<M> {
    shape: Sphere<M>,
    bounded: bool,
}

impl<M> Ball<M> {
    fn new(center: [f64; 3], radius: f64, mat: M) -> Ball<M> {
        Ball { shape: Sphere::new(v(center[0], center[1], center[2]), s(radius), mat), bounded: true }
    }
}

fn roots_of(center: [f64; 3], radius: f64, r: &Ray) -> (Roots, [f64; 3], [f64; 3]) {
    let o = arr(&r.origin);
    let d = arr(&r.direction);
    let oc = sub(o, center);
    let a = dot(d, d);
    let half_b = dot(oc, d);
    let c = dot(oc, oc) - radius * radius;
    let discriminant = half_b * half_b - a * c;
    let sqrt_d = discriminant.sqrt();
    let roots = Roots {
        discriminant: s(discriminant),
        near: s((-half_b - sqrt_d) / a),
        far: s((-half_b + sqrt_d) / a),
    };
    (roots, o, d)
}

impl<M> Hit for Ball<M> {
    type Mat = M;

    fn hit(&self, r: &Ray, t_min: Scalar, t_max: Scalar) -> Option<HitRecord<'_, M>> {
        let center = arr(&self.shape.center);
        let radius = f(self.shape.radius);
        let (roots, o, d) = roots_of(center, radius, r);
        let contact_at = move |t: Scalar| {
            let t = f(t);
            let p = [o[0] + t * d[0], o[1] + t * d[1], o[2] + t * d[2]];
            let n = sub(p, center);
            let n = [n[0] / radius, n[1] / radius, n[2] / radius];
            Contact {
                point: v(p[0], p[1], p[2]),
                outward_normal: v(n[0], n[1], n[2]),
                facing: s(dot(d, n)),
                u: s(0.0),
                v: s(0.0),
            }
        };
        self.shape.hit(&roots, t_min, t_max, &contact_at)
    }

    fn bounding_box(&self, _t_start: Scalar, _t_end: Scalar) -> Option<Aabb> {
        if !self.bounded {
            return None;
        }
        let c = arr(&self.shape.center);
        let r = f(self.shape.radius);
        Some(Aabb::new(v(c[0] - r, c[1] - r, c[2] - r), v(c[0] + r, c[1] + r, c[2] + r)))
    }
}

fn crossings(b: &Aabb, r: &Ray) -> [Slab; 3] {
    let o = arr(&r.origin);
    let d = arr(&r.direction);
    let lo = arr(&b.min);
    let hi = arr(&b.max);
    let slab = |i: usize| {
        let inv_d = 1.0 / d[i];
        Slab { inv_d: s(inv_d), near: s((lo[i] - o[i]) * inv_d), far: s((hi[i] - o[i]) * inv_d) }
    };
    [slab(0), slab(1), slab(2)]
}

fn ray(origin: [f64; 3], direction: [f64; 3]) -> Ray {
    Ray::new(v(origin[0], origin[1], origin[2]), v(direction[0], direction[1], direction[2]), s(0.0))
}

fn sky(direction: &Vec3) -> [f64; 3] {
    let u = unit(arr(direction));
    let t = 0.5 * (u[1] + 1.0);
    [(1.0 - t) + t * 0.5, (1.0 - t) + t * 0.7, (1.0 - t) + t * 1.0]
}

fn shade(light: &Light) -> [f64; 3] {
    let mut c = match &light.end {
        PathEnd::Escaped(direction) => sky(direction),
        _ => [0.0, 0.0, 0.0],
    };
    for a in light.attenuations.iter().rev() {
        let a = arr(a);
        c = [a[0] * c[0], a[1] * c[1], a[2] * c[2]];
    }
    c
}

/// A deterministic stream of numbers in `[0, 1)`.
struct Stream(u64);

impl Stream {
    fn next(&mut self) -> f64 {
        self.0 = self.0.wrapping_mul(6364136223846793005).wrapping_add(1442695040888963407);
        (self.0 >> 11) as f64 / (1u64 << 53) as f64
    }
}

fn scattered_balls(count: usize) -> Vec<Ball<Soot>> {
    let mut stream = Stream(7);
    let mut balls = Vec::new();
    for _ in 0..count {
        let center = [
            20.0 * stream.next() - 10.0,
            20.0 * stream.next() - 10.0,
            -5.0 - 20.0 * stream.next(),
        ];
        balls.push(Ball::new(center, 0.2 + stream.next(), Soot));
    }
    balls
}

fn count_leaves<T>(bvh: &Bvh<T>) -> usize {
    match &bvh.node {
        Node::Leaf(_) => 1,
        Node::Branch { left, right } => count_leaves(left) + count_leaves(right),
    }
}

fn check_shape<T: Hit>(bvh: &Bvh<T>) {
    match &bvh.node {
        Node::Leaf(obj) => {
            assert_eq!(obj.bounding_box(s(0.0), s(1.0)), Some(bvh.aabb));
        }
        Node::Branch { left, right } => {
            let n = count_leaves(bvh);
            assert_eq!(count_leaves(left), n / 2);
            assert_eq!(count_leaves(right), n - n / 2);
            assert_eq!(bvh.aabb, left.aabb.surrounding_box(right.aabb));
            check_shape(left);
            check_shape(right);
        }
    }
}

fn collect_keys<T: Hit>(bvh: &Bvh<T>, axis: Axis, out: &mut Vec<f64>) {
    match &bvh.node {
        Node::Leaf(obj) => out.push(f(obj.bounding_box(s(0.0), s(0.0)).unwrap().min.index(axis))),
        Node::Branch { left, right } => {
            collect_keys(left, axis, out);
            collect_keys(right, axis, out);
        }
    }
}

fn check_median_split<T: Hit>(bvh: &Bvh<T>) {
    if let Node::Branch { left, right } = &bvh.node {
        let split = Axis::all().iter().any(|axis| {
            let mut l = Vec::new();
            let mut r = Vec::new();
            collect_keys(left, *axis, &mut l);
            collect_keys(right, *axis, &mut r);
            let top = l.iter().cloned().fold(f64::NEG_INFINITY, f64::max);
            let bottom = r.iter().cloned().fold(f64::INFINITY, f64::min);
            top <= bottom
        });
        assert!(split);
        check_median_split(left);
        check_median_split(right);
    }
}

#[test]
fn sphere_is_struck_at_distance_minus_radius() {
    let ball = Ball::new([0.0, 0.0, 0.0], 0.5, Soot);
    let r = ray([0.0, 0.0, 5.0], [0.0, 0.0, -1.0]);
    let rec = ball.hit(&r, s(0.001), s(f64::INFINITY)).unwrap();
    assert!((f(rec.t) - 4.5).abs() < 1.0e-12);
    assert_eq!(rec.face, Face::Front);
    assert!((f(rec.point.z) - 0.5).abs() < 1.0e-12);
    assert!((f(rec.normal.z) - 1.0).abs() < 1.0e-12);
}

#[test]
fn sphere_is_struck_from_inside_on_its_back() {
    let ball = Ball::new([0.0, 0.0, 0.0], 0.5, Soot);
    let r = ray([0.0, 0.0, 0.0], [0.0, 0.0, -1.0]);
    let rec = ball.hit(&r, s(0.001), s(f64::INFINITY)).unwrap();
    assert!((f(rec.t) - 0.5).abs() < 1.0e-12);
    assert_eq!(rec.face, Face::Back);
    assert!((f(rec.normal.z) - 1.0).abs() < 1.0e-12);
}

#[test]
fn roots_are_selected_in_order() {
    let roots = Roots { discriminant: s(4.0), near: s(1.0), far: s(3.0) };
    assert_eq!(roots.select(s(0.0), s(10.0)), Some(s(1.0)));
    assert_eq!(roots.select(s(1.0), s(1.0)), Some(s(1.0)));
    assert_eq!(roots.select(s(2.0), s(10.0)), Some(s(3.0)));
    assert_eq!(roots.select(s(2.0), s(2.5)), None);
    assert_eq!(roots.select(s(4.0), s(10.0)), None);
    assert_eq!(roots.select(s(0.0), s(0.5)), None);
    let none = Roots { discriminant: s(-1.0), near: s(1.0), far: s(3.0) };
    assert_eq!(none.select(s(0.0), s(10.0)), None);
    let tangent = Roots { discriminant: s(0.0), near: s(2.0), far: s(2.0) };
    assert_eq!(tangent.select(s(0.0), s(10.0)), Some(s(2.0)));
}

#[test]
fn ray_misses_a_sphere_beside_it() {
    let ball = Ball::new([3.0, 0.0, 0.0], 0.5, Soot);
    let r = ray([0.0, 0.0, 5.0], [0.0, 0.0, -1.0]);
    assert!(ball.hit(&r, s(0.001), s(f64::INFINITY)).is_none());
}

#[test]
fn list_keeps_the_closest_hit() {
    let mut list: HitList<Ball<Soot>> = HitList::new();
    list.push(Ball::new([0.0, 0.0, -9.0], 1.0, Soot));
    list.push(Ball::new([0.0, 0.0, -3.0], 1.0, Soot));
    list.push(Ball::new([0.0, 0.0, -6.0], 1.0, Soot));
    assert_eq!(list.len(), 3);
    let r = ray([0.0, 0.0, 0.0], [0.0, 0.0, -1.0]);
    let rec = list.hit(&r, s(0.001), s(f64::INFINITY)).unwrap();
    assert!((f(rec.t) - 2.0).abs() < 1.0e-12);
    assert!(list.hit(&r, s(0.001), s(1.5)).is_none());
    list.clear();
    assert_eq!(list.len(), 0);
    assert!(list.hit(&r, s(0.001), s(f64::INFINITY)).is_none());
}

#[test]
fn list_box_is_the_union_of_its_members() {
    let mut list: HitList<Ball<Soot>> = HitList::new();
    assert_eq!(list.bounding_box(s(0.0), s(1.0)), Some(Aabb::new(Vec3::zero(), Vec3::zero())));
    list.push(Ball::new([0.0, 0.0, -3.0], 1.0, Soot));
    assert_eq!(
        list.bounding_box(s(0.0), s(1.0)),
        Some(Aabb::new(v(-1.0, -1.0, -4.0), v(1.0, 1.0, -2.0)))
    );
    list.push(Ball::new([5.0, 2.0, 1.0], 2.0, Soot));
    assert_eq!(
        list.bounding_box(s(0.0), s(1.0)),
        Some(Aabb::new(v(-1.0, -1.0, -4.0), v(7.0, 4.0, 3.0)))
    );
    let mut unbounded = Ball::new([0.0, 0.0, 0.0], 1.0, Soot);
    unbounded.bounded = false;
    list.push(unbounded);
    list.push(Ball::new([0.0, 0.0, 0.0], 1.0, Soot));
    assert_eq!(list.bounding_box(s(0.0), s(1.0)), None);
}

#[test]
fn hierarchy_of_one_is_a_leaf() {
    let mut rng = rand::rng();
    let bvh = Bvh::new(vec![Ball::new([1.0, 2.0, 3.0], 1.0, Soot)], s(0.0), s(1.0), &mut rng);
    assert!(matches!(bvh.node, Node::Leaf(_)));
    assert_eq!(bvh.aabb, Aabb::new(v(0.0, 1.0, 2.0), v(2.0, 3.0, 4.0)));
    assert_eq!(bvh.bounding_box(s(0.0), s(1.0)), Some(bvh.aabb));
}

#[test]
fn hierarchy_is_built_by_median_splits() {
    let mut rng = rand::rng();
    for count in [2usize, 3, 4, 5, 8, 13, 64, 101] {
        let bvh = Bvh::new(scattered_balls(count), s(0.0), s(1.0), &mut rng);
        assert_eq!(count_leaves(&bvh), count);
        check_shape(&bvh);
        check_median_split(&bvh);
    }
}

#[test]
fn hierarchy_holds_every_object_once() {
    let mut rng = rand::rng();
    let bvh = Bvh::new(scattered_balls(40), s(0.0), s(1.0), &mut rng);
    let mut found = Vec::new();
    collect_keys(&bvh, Axis::X, &mut found);
    let mut given: Vec<f64> = scattered_balls(40)
        .iter()
        .map(|b| f(b.bounding_box(s(0.0), s(0.0)).unwrap().min.x))
        .collect();
    found.sort_by(|a, b| a.partial_cmp(b).unwrap());
    given.sort_by(|a, b| a.partial_cmp(b).unwrap());
    assert_eq!(found, given);
}

#[test]
fn hierarchy_and_linear_scan_agree() {
    let mut rng = rand::rng();
    let bvh = Bvh::new(scattered_balls(60), s(0.0), s(1.0), &mut rng);
    let mut list: HitList<Ball<Soot>> = HitList::new();
    for ball in scattered_balls(60) {
        list.push(ball);
    }
    let mut stream = Stream(99);
    let mut hits = 0;
    for _ in 0..400 {
        let r = ray(
            [0.0, 0.0, 0.0],
            [2.0 * stream.next() - 1.0, 2.0 * stream.next() - 1.0, -1.0 - stream.next()],
        );
        let by_tree = bvh.hit(&r, s(0.001), s(f64::INFINITY), &|b: &Aabb| crossings(b, &r));
        let by_scan = list.hit(&r, s(0.001), s(f64::INFINITY));
        match (by_tree, by_scan) {
            (Some(a), Some(b)) => {
                hits += 1;
                assert!((f(a.t) - f(b.t)).abs() < 1.0e-9);
            }
            (None, None) => {}
            _ => panic!("the hierarchy and the scan disagree on a hit"),
        }
    }
    assert!(hits > 10);
}

#[test]
fn box_is_hit_through_its_slabs() {
    let b = Aabb::new(v(-1.0, -1.0, -4.0), v(1.0, 1.0, -2.0));
    let through = ray([0.0, 0.0, 0.0], [0.1, 0.1, -1.0]);
    assert!(Aabb::hit(&crossings(&b, &through), s(0.001), s(f64::INFINITY)));
    assert!(!Aabb::hit(&crossings(&b, &through), s(0.001), s(1.5)));
    assert!(!Aabb::hit(&crossings(&b, &through), s(4.5), s(f64::INFINITY)));
    let beside = ray([0.0, 0.0, 0.0], [1.0, 0.1, -1.0]);
    assert!(!Aabb::hit(&crossings(&b, &beside), s(0.001), s(f64::INFINITY)));
    let away = ray([0.0, 0.0, 0.0], [0.1, 0.1, 1.0]);
    assert!(!Aabb::hit(&crossings(&b, &away), s(0.001), s(f64::INFINITY)));
    let backwards = ray([0.0, 0.0, -6.0], [-0.1, -0.1, 1.0]);
    assert!(Aabb::hit(&crossings(&b, &backwards), s(0.001), s(f64::INFINITY)));
}

#[test]
fn box_is_hit_along_an_axis() {
    let b = Aabb::new(v(-1.0, -1.0, -4.0), v(1.0, 1.0, -2.0));
    let along = ray([0.0, 0.0, 0.0], [0.0, 0.0, -1.0]);
    assert!(Aabb::hit(&crossings(&b, &along), s(0.001), s(f64::INFINITY)));
    let outside = ray([2.0, 0.0, 0.0], [0.0, 0.0, -1.0]);
    assert!(!Aabb::hit(&crossings(&b, &outside), s(0.001), s(f64::INFINITY)));
}

#[test]
fn slab_intervals_narrow_across_axes() {
    let x = Slab { inv_d: s(1.0), near: s(0.0), far: s(2.0) };
    let y = Slab { inv_d: s(1.0), near: s(3.0), far: s(5.0) };
    let open = Slab { inv_d: s(1.0), near: s(f64::NEG_INFINITY), far: s(f64::INFINITY) };
    assert!(!Aabb::hit(&[x, y, open], s(0.0), s(10.0)));
    assert!(!Aabb::hit(&[open, x, y], s(0.0), s(10.0)));
    assert!(Aabb::hit(&[x, open, open], s(0.0), s(10.0)));
    let flipped = Slab { inv_d: s(-1.0), near: s(2.0), far: s(0.5) };
    assert!(Aabb::hit(&[x, flipped, open], s(0.0), s(10.0)));
    assert!(!Aabb::hit(&[x, flipped, open], s(2.0), s(10.0)));
    let unknown = Slab { inv_d: s(f64::INFINITY), near: s(f64::NAN), far: s(f64::NAN) };
    assert!(Aabb::hit(&[x, unknown, open], s(0.0), s(10.0)));
}

#[test]
fn color_at_depth_zero_is_exhausted() {
    let mut rng = rand::rng();
    let mut list: HitList<Ball<Matte>> = HitList::new();
    list.push(Ball::new([0.0, 0.0, -1.0], 0.5, Matte::white()));
    let r = ray([0.0, 0.0, 0.0], [0.0, 0.0, -1.0]);
    let light = r.color(&list, 0, &mut rng);
    assert_eq!(light.end, PathEnd::Exhausted);
    assert!(light.attenuations.is_empty());
    assert_eq!(shade(&light), [0.0, 0.0, 0.0]);
    let empty: HitList<Ball<Matte>> = HitList::new();
    let light = r.color(&empty, 0, &mut rng);
    assert_eq!(light.end, PathEnd::Exhausted);
    assert!(light.attenuations.is_empty());
}

#[test]
fn color_of_a_miss_is_the_sky() {
    let mut rng = rand::rng();
    let empty: HitList<Ball<Matte>> = HitList::new();
    let r = ray([0.0, 0.0, 0.0], [0.0, 1.0, 0.0]);
    let light = r.color(&empty, 5, &mut rng);
    assert_eq!(light.end, PathEnd::Escaped(v(0.0, 1.0, 0.0)));
    assert!(light.attenuations.is_empty());
    assert_eq!(shade(&light), [0.5, 0.7, 1.0]);
    let down = ray([0.0, 0.0, 0.0], [0.0, -2.0, 0.0]);
    assert_eq!(shade(&down.color(&empty, 5, &mut rng)), [1.0, 1.0, 1.0]);
}

#[test]
fn color_of_an_absorbed_ray_is_black() {
    let mut rng = rand::rng();
    let mut list: HitList<Ball<Soot>> = HitList::new();
    list.push(Ball::new([0.0, 0.0, -1.0], 0.5, Soot));
    let r = ray([0.0, 0.0, 0.0], [0.0, 0.0, -1.0]);
    let light = r.color(&list, 5, &mut rng);
    assert_eq!(light.end, PathEnd::Absorbed);
    assert!(light.attenuations.is_empty());
    assert_eq!(shade(&light), [0.0, 0.0, 0.0]);
}

#[test]
fn color_gathers_one_tint_per_bounce() {
    let mut rng = rand::rng();
    let mut list: HitList<Ball<Matte>> = HitList::new();
    list.push(Ball::new([0.0, 0.0, -1.0], 0.5, Matte::white()));
    let r = ray([0.0, 0.0, 0.0], [0.0, 0.0, -1.0]);
    let light = r.color(&list, 1, &mut rng);
    assert_eq!(light.end, PathEnd::Exhausted);
    assert_eq!(light.attenuations, vec![v(1.0, 1.0, 1.0)]);
    let light = r.color(&list, 2, &mut rng);
    assert_eq!(light.attenuations, vec![v(1.0, 1.0, 1.0)]);
    assert!(matches!(light.end, PathEnd::Escaped(_)));
    let c = shade(&light);
    assert!(c[0] > 0.0 && c[1] > 0.0 && c[2] > 0.0);
}

#[test]
fn step_follows_the_encounter() {
    let r = ray([0.0, 0.0, 0.0], [1.0, 2.0, 3.0]);
    assert_eq!(r.step(None), Step::Done(PathEnd::Escaped(v(1.0, 2.0, 3.0))));
    assert_eq!(r.step(Some(None)), Step::Done(PathEnd::Absorbed));
    let scattered = Scatter::new(ray([1.0, 1.0, 1.0], [0.0, 1.0, 0.0]), v(0.5, 0.5, 0.5));
    assert_eq!(r.step(Some(Some(scattered))), Step::Continue(scattered));
}

#[test]
fn single_sphere_is_rendered_over_the_sky() {
    let mut rng = rand::rng();
    let mut list: HitList<Ball<Matte>> = HitList::new();
    list.push(Ball::new([0.0, 0.0, -1.0], 0.5, Matte::white()));
    let width: u32 = 9;
    let height: u32 = 5;
    let eye = [0.0, 0.0, 0.0];
    let lower_left = [-2.0, -1.0, -1.0];
    let mut image = Vec::new();
    let mut lights = Vec::new();
    for i in 0..width * height {
        let (x, y) = pixel_position(i, width, height);
        let u = (f64::from(x) + 0.5) / f64::from(width);
        let w = (f64::from(y) + 0.5) / f64::from(height);
        let r = ray(eye, [lower_left[0] + 4.0 * u, lower_left[1] + 2.0 * w, lower_left[2]]);
        let shallow = r.color(&list, 1, &mut rng);
        let deep = r.color(&list, 2, &mut rng);
        image.push(shade(&deep));
        lights.push((r, shallow, deep));
    }
    let center = (width * (height / 2) + width / 2) as usize;
    let (_, shallow, deep) = &lights[center];
    assert_eq!(shallow.end, PathEnd::Exhausted);
    assert_eq!(shallow.attenuations.len(), 1);
    assert_eq!(shade(shallow), [0.0, 0.0, 0.0]);
    assert_eq!(deep.attenuations.len(), 1);
    let c = image[center];
    assert!(0.2126 * c[0] + 0.7152 * c[1] + 0.0722 * c[2] > 0.0);
    for corner in [0usize, (width - 1) as usize, (width * (height - 1)) as usize] {
        let (r, shallow, deep) = &lights[corner];
        assert_eq!(shallow.end, PathEnd::Escaped(r.direction));
        assert_eq!(deep.end, PathEnd::Escaped(r.direction));
        assert!(deep.attenuations.is_empty());
        let c = image[corner];
        let t = (1.0 - c[0]) / 0.5;
        assert!((0.0..=1.0).contains(&t));
        assert!((c[1] - ((1.0 - t) + 0.7 * t)).abs() < 1.0e-12);
        assert!((c[2] - 1.0).abs() < 1.0e-12);
    }
}

fn depth_of<T>(bvh: &Bvh<T>) -> u32 {
    match &bvh.node {
        Node::Leaf(_) => 0,
        Node::Branch { left, right } => 1 + depth_of(left).max(depth_of(right)),
    }
}

#[test]
fn hierarchy_is_refused_over_nothing() {
    let mut rng = rand::rng();
    let nothing: Vec<Ball<Soot>> = Vec::new();
    assert!(Bvh::build(nothing, s(0.0), s(1.0), &mut rng).is_none());
}

#[test]
fn hierarchy_is_refused_without_a_box() {
    let mut rng = rand::rng();
    let mut balls = scattered_balls(5);
    balls[3].bounded = false;
    assert!(Bvh::build(balls, s(0.0), s(1.0), &mut rng).is_none());
}

#[test]
fn hierarchy_is_refused_over_a_box_that_has_no_place() {
    let mut rng = rand::rng();
    let mut balls = scattered_balls(5);
    balls.push(Ball::new([f64::NAN, 0.0, 0.0], 1.0, Soot));
    assert!(Bvh::build(balls, s(0.0), s(1.0), &mut rng).is_none());
}

#[test]
fn hierarchy_of_one_needs_no_place_in_the_order() {
    let mut rng = rand::rng();
    let lone = vec![Ball::new([f64::NAN, 0.0, 0.0], 1.0, Soot)];
    let bvh = Bvh::build(lone, s(0.0), s(1.0), &mut rng).unwrap();
    assert!(matches!(bvh.node, Node::Leaf(_)));
    let two = vec![Ball::new([f64::NAN, 0.0, 0.0], 1.0, Soot), Ball::new([0.0, 0.0, 0.0], 1.0, Soot)];
    assert!(Bvh::build(two, s(0.0), s(1.0), &mut rng).is_none());
}

#[test]
fn hierarchy_is_built_where_it_can_be() {
    let mut rng = rand::rng();
    let bvh = Bvh::build(scattered_balls(5), s(0.0), s(1.0), &mut rng).unwrap();
    assert_eq!(count_leaves(&bvh), 5);
    check_shape(&bvh);
}

#[test]
fn hierarchy_is_as_shallow_as_its_size_allows() {
    let mut rng = rand::rng();
    for (count, depth) in [(1usize, 0u32), (2, 1), (3, 2), (4, 2), (5, 3), (64, 6), (65, 7), (100, 7)] {
        let bvh = Bvh::new(scattered_balls(count), s(0.0), s(1.0), &mut rng);
        assert_eq!(depth_of(&bvh), depth);
    }
}

#[test]
fn hierarchy_box_covers_every_object() {
    let mut rng = rand::rng();
    let bvh = Bvh::new(scattered_balls(30), s(0.0), s(1.0), &mut rng);
    for ball in scattered_balls(30) {
        let b = ball.bounding_box(s(0.0), s(1.0)).unwrap();
        assert!(bvh.aabb.min.x.le(b.min.x) && b.max.x.le(bvh.aabb.max.x));
        assert!(bvh.aabb.min.y.le(b.min.y) && b.max.y.le(bvh.aabb.max.y));
        assert!(bvh.aabb.min.z.le(b.min.z) && b.max.z.le(bvh.aabb.max.z));
    }
}

#[test]
fn hierarchy_sorts_equal_keys() {
    let mut rng = rand::rng();
    let mut balls = Vec::new();
    for i in 0..9 {
        balls.push(Ball::new([1.0, 1.0, -f64::from(i % 3)], 0.5, Soot));
    }
    let bvh = Bvh::new(balls, s(0.0), s(1.0), &mut rng);
    assert_eq!(count_leaves(&bvh), 9);
    check_shape(&bvh);
    check_median_split(&bvh);
}

#[test]
fn moving_sphere_is_struck_where_it_is() {
    let mat = Soot;
    let ball = MovingSphere::new(v(0.0, 0.0, 0.0), v(0.0, 2.0, 0.0), s(0.0), s(1.0), s(0.5), mat);
    assert_eq!(ball.center_start, v(0.0, 0.0, 0.0));
    assert_eq!(ball.center_end, v(0.0, 2.0, 0.0));
    assert_eq!(f(ball.t_start), 0.0);
    assert_eq!(f(ball.t_end), 1.0);
    assert_eq!(f(ball.radius), 0.5);
    let r = ray([0.0, 1.0, 5.0], [0.0, 0.0, -1.0]);
    let (roots, _, _) = roots_of([0.0, 1.0, 0.0], 0.5, &r);
    let contact_at = |t: Scalar| Contact {
        point: v(0.0, 1.0, 5.0 - f(t)),
        outward_normal: v(0.0, 0.0, 1.0),
        facing: s(-1.0),
        u: s(0.25),
        v: s(0.75),
    };
    let rec = ball.hit(&roots, s(0.001), s(f64::INFINITY), &contact_at).unwrap();
    assert!((f(rec.t) - 4.5).abs() < 1.0e-12);
    assert_eq!(rec.face, Face::Front);
    assert_eq!(rec.normal, v(0.0, 0.0, 1.0));
    assert_eq!(f(rec.u), 0.25);
    assert_eq!(f(rec.v), 0.75);
    assert!(ball.hit(&roots, s(0.001), s(4.0), &contact_at).is_none());
    let (missed, _, _) = roots_of([0.0, 3.0, 0.0], 0.5, &r);
    assert!(ball.hit(&missed, s(0.001), s(f64::INFINITY), &contact_at).is_none());
}

#[test]
fn moving_sphere_box_covers_the_sweep() {
    let ball = MovingSphere::new(v(0.0, 0.0, 0.0), v(0.0, 2.0, 0.0), s(0.0), s(1.0), s(0.5), Soot);
    let start = Aabb::new(v(-0.5, -0.5, -0.5), v(0.5, 0.5, 0.5));
    let end = Aabb::new(v(-0.5, 1.5, -0.5), v(0.5, 2.5, 0.5));
    assert_eq!(
        ball.bounding_box(start, end),
        Some(Aabb::new(v(-0.5, -0.5, -0.5), v(0.5, 2.5, 0.5)))
    );
}

#[test]
fn points_and_colors_are_vectors() {
    let p: Point = v(1.0, 2.0, 3.0);
    let c: Rgb = p;
    assert_eq!(c, Vec3::new(s(1.0), s(2.0), s(3.0)));
}
