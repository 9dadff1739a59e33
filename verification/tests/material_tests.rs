use sidewinder::graphics::hit::{Face, HitRecord};
use sidewinder::graphics::material::{Dielectric, Lambertian, Metallic};
use sidewinder::graphics::perlin::Perlin;
use sidewinder::graphics::ray::Ray;
use sidewinder::graphics::texture::{Checkered, Noise, Solid, Texture};
use sidewinder::math::Vec3;
use sidewinder::scalar::Scalar;

fn s(x: f64) -> Scalar {
    Scalar::from_bits(x.to_bits())
}

fn f(x: Scalar) -> f64 {
    f64::from_bits(x.to_bits())
}

fn v(x: f64, y: f64, z: f64) -> Vec3 {
    Vec3::newf(s(x), s(y), s(z))
}

fn incoming() -> Ray {
    Ray::new(v(0.0, 0.0, 5.0), v(0.0, 0.0, -1.0), s(0.25))
}

fn record(mat: &u8) -> HitRecord<'_, u8> {
    HitRecord::new(v(0.0, 0.0, 0.5), v(0.0, 0.0, 1.0), mat, s(4.5), s(0.3), s(0.6), Face::Front)
}

fn lattice_values() -> [Scalar; 256] {
    let mut values = [s(0.0); 256];
    for (i, value) in values.iter_mut().enumerate() {
        *value = s(i as f64 / 256.0);
    }
    values
}

#[test]
fn lambertian_scatters_along_the_candidate() {
    let mat = 0u8;
    let rec = record(&mat);
    let m = Lambertian::new(Solid::new(v(0.8, 0.4, 0.2)));
    let out = m.scatter(&incoming(), &rec, v(0.3, 0.4, 1.5)).unwrap();
    assert_eq!(out.ray, Ray::new(v(0.0, 0.0, 0.5), v(0.3, 0.4, 1.5), s(0.25)));
    assert_eq!(out.attenuation, v(0.8, 0.4, 0.2));
}

#[test]
fn lambertian_falls_back_to_the_normal() {
    let mat = 0u8;
    let rec = record(&mat);
    let m = Lambertian::new(Solid::new(v(0.8, 0.4, 0.2)));
    let out = m.scatter(&incoming(), &rec, v(1.0e-9, 0.0, 1.0e-10)).unwrap();
    assert_eq!(out.ray.direction, v(0.0, 0.0, 1.0));
    assert_eq!(out.ray.origin, v(0.0, 0.0, 0.5));
    assert_eq!(f(out.ray.t), 0.25);
}

#[test]
fn lambertian_keeps_a_candidate_that_points_backwards() {
    let mat = 0u8;
    let rec = record(&mat);
    let m = Lambertian::new(Solid::new(v(0.8, 0.4, 0.2)));
    let out = m.scatter(&incoming(), &rec, v(-1.0, -1.0, -1.0)).unwrap();
    assert_eq!(out.ray.direction, v(-1.0, -1.0, -1.0));
    let out = m.scatter(&incoming(), &rec, v(-0.5, 0.0, 0.2)).unwrap();
    assert_eq!(out.ray.direction, v(-0.5, 0.0, 0.2));
    let out = m.scatter(&incoming(), &rec, v(-1.0e-9, 1.0e-9, -0.0)).unwrap();
    assert_eq!(out.ray.direction, v(0.0, 0.0, 1.0));
}

#[test]
fn lambertian_attenuation_stays_in_the_unit_range() {
    let mat = 0u8;
    let rec = record(&mat);
    let m = Lambertian::new(Solid::new(v(1.0, 0.0, 0.5)));
    let a = m.scatter(&incoming(), &rec, v(0.0, 1.0, 1.0)).unwrap().attenuation;
    for c in [a.x, a.y, a.z] {
        assert!(s(0.0).le(c) && c.le(s(1.0)));
    }
}

#[test]
fn metallic_blur_is_capped_at_one() {
    assert_eq!(f(Metallic::new(v(0.7, 0.6, 0.5), s(0.3)).blur), 0.3);
    assert_eq!(f(Metallic::new(v(0.7, 0.6, 0.5), s(1.0)).blur), 1.0);
    assert_eq!(f(Metallic::new(v(0.7, 0.6, 0.5), s(4.0)).blur), 1.0);
    assert_eq!(f(Metallic::new(v(0.7, 0.6, 0.5), s(f64::NAN)).blur), 1.0);
    assert_eq!(Metallic::new(v(0.7, 0.6, 0.5), s(0.0)).albedo, v(0.7, 0.6, 0.5));
}

#[test]
fn metallic_scatters_only_outwards() {
    let mat = 0u8;
    let rec = record(&mat);
    let m = Metallic::new(v(0.7, 0.6, 0.5), s(0.0));
    let out = m.scatter(&incoming(), &rec, v(0.0, 0.0, 1.0), s(1.0)).unwrap();
    assert_eq!(out.ray, Ray::new(v(0.0, 0.0, 0.5), v(0.0, 0.0, 1.0), s(0.25)));
    assert_eq!(out.attenuation, v(0.7, 0.6, 0.5));
    assert!(m.scatter(&incoming(), &rec, v(0.0, 1.0, 0.0), s(0.0)).is_none());
    assert!(m.scatter(&incoming(), &rec, v(0.0, 1.0, -0.1), s(-0.1)).is_none());
    assert!(m.scatter(&incoming(), &rec, v(0.0, 1.0, -0.1), s(f64::NAN)).is_none());
}

#[test]
fn dielectric_ratio_depends_on_the_face() {
    let glass = Dielectric::new(s(1.5));
    assert_eq!(f(glass.idx), 1.5);
    assert_eq!(f(glass.ratio(Face::Front, s(1.0 / 1.5))), 1.0 / 1.5);
    assert_eq!(f(glass.ratio(Face::Back, s(1.0 / 1.5))), 1.5);
}

#[test]
fn dielectric_reflects_or_refracts() {
    assert!(Dielectric::reflects(s(1.2), s(0.0), s(0.9)));
    assert!(Dielectric::reflects(s(0.5), s(0.6), s(0.5)));
    assert!(!Dielectric::reflects(s(0.5), s(0.5), s(0.5)));
    assert!(!Dielectric::reflects(s(1.0), s(0.04), s(0.5)));
    assert!(!Dielectric::reflects(s(f64::NAN), s(f64::NAN), s(0.5)));
    let mat = 0u8;
    let rec = record(&mat);
    let glass = Dielectric::new(s(1.5));
    let mirrored = v(0.0, 0.0, 1.0);
    let bent = v(0.0, 0.0, -1.0);
    let out = glass
        .scatter(&incoming(), &rec, s(1.2), s(0.04), s(0.9), mirrored, bent)
        .unwrap();
    assert_eq!(out.ray, Ray::new(v(0.0, 0.0, 0.5), mirrored, s(0.25)));
    assert_eq!(out.attenuation, v(1.0, 1.0, 1.0));
    let out = glass
        .scatter(&incoming(), &rec, s(0.3), s(0.04), s(0.9), mirrored, bent)
        .unwrap();
    assert_eq!(out.ray, Ray::new(v(0.0, 0.0, 0.5), bent, s(0.25)));
    assert_eq!(out.attenuation, v(1.0, 1.0, 1.0));
}

#[test]
fn solid_texture_is_one_color() {
    let t = Solid::new(v(0.1, 0.2, 0.3));
    assert_eq!(t.value(s(0.0), s(0.0), &v(5.0, 6.0, 7.0)), v(0.1, 0.2, 0.3));
    assert_eq!(t.value(s(0.9), s(0.1), &v(-5.0, 0.0, 7.0)), v(0.1, 0.2, 0.3));
}

#[test]
fn checkered_texture_alternates() {
    let t = Checkered::from_colors(v(0.2, 0.3, 0.1), v(0.9, 0.9, 0.9));
    let p = v(0.1, 0.2, 0.3);
    assert_eq!(t.value(s(0.0), s(0.0), &p, s(-0.5)), v(0.2, 0.3, 0.1));
    assert_eq!(t.value(s(0.0), s(0.0), &p, s(0.5)), v(0.9, 0.9, 0.9));
    assert_eq!(t.value(s(0.0), s(0.0), &p, s(0.0)), v(0.9, 0.9, 0.9));
    let other = Checkered::new(Solid::new(v(1.0, 0.0, 0.0)), Solid::new(v(0.0, 0.0, 1.0)));
    assert_eq!(other.even.value(s(0.0), s(0.0), &p), v(1.0, 0.0, 0.0));
    assert_eq!(other.value(s(0.0), s(0.0), &p, s(-1.0)), v(1.0, 0.0, 0.0));
    assert_eq!(other.value(s(0.0), s(0.0), &p, s(f64::NAN)), v(0.0, 0.0, 1.0));
}

#[test]
fn noise_texture_is_gray() {
    let mut rng = rand::rng();
    let t = Noise::new(Perlin::new(lattice_values(), &mut rng));
    assert_eq!(t.value(s(0.25)), v(0.25, 0.25, 0.25));
}

#[test]
fn perlin_tables_are_permutations() {
    let mut rng = rand::rng();
    let perlin = Perlin::new(lattice_values(), &mut rng);
    assert_eq!(*perlin.rand_f(), lattice_values());
    for table in [perlin.perm_x(), perlin.perm_y(), perlin.perm_z()] {
        assert_eq!(table.len(), 256);
        let mut sorted = table.clone();
        sorted.sort();
        let identity: Vec<usize> = (0..256).collect();
        assert_eq!(sorted, identity);
    }
}

#[test]
fn perlin_tables_are_shuffled() {
    let mut rng = rand::rng();
    let perlin = Perlin::new(lattice_values(), &mut rng);
    let identity: Vec<usize> = (0..256).collect();
    assert_ne!(*perlin.perm_x(), identity);
    assert_ne!(*perlin.perm_y(), identity);
    assert_ne!(*perlin.perm_z(), identity);
}

#[test]
fn perlin_corners_are_looked_up_through_the_tables() {
    let mut rng = rand::rng();
    let perlin = Perlin::new(lattice_values(), &mut rng);
    for (i, j, k) in [(0usize, 0usize, 0usize), (3, 250, 255), (1000, 77, 256), (usize::MAX, 5, 9)] {
        let c = perlin.noise(i, j, k);
        assert_eq!(c.len(), 8);
        for di in 0..2usize {
            for dj in 0..2usize {
                for dk in 0..2usize {
                    let slot = perlin.perm_x()[i.wrapping_add(di) & 255]
                        ^ perlin.perm_y()[j.wrapping_add(dj) & 255]
                        ^ perlin.perm_z()[k.wrapping_add(dk) & 255];
                    assert_eq!(c[4 * di + 2 * dj + dk], perlin.rand_f()[slot]);
                }
            }
        }
    }
}
