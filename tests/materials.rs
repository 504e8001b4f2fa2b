use raytracer_fx::fixed::ONE;
use raytracer_fx::hittable::HitRecord;
use raytracer_fx::material::{
    near_zero, reflect, reflectance, refract, Dielectric, DiffuseLight, Lambertian, Material, MaterialType,
    Metal,
};
use raytracer_fx::sampler::{ball_point, index_from_bits, signed_from_unit, unit_from_bits, Sampler};
use raytracer_fx::vec3::Vec3;
use raytracer_fx::Ray;

fn floor_hit() -> HitRecord {
    HitRecord { p: Vec3::new(ONE, 0, 0), normal: Vec3::new(0, ONE, 0), depth: ONE, front_face: true }
}

#[test]
fn reflect_mirrors_about_the_normal() {
    let r = reflect(Vec3::new(ONE, -ONE, 0), Vec3::new(0, ONE, 0));
    assert_eq!(r, Vec3::new(ONE, ONE, 0));
    let r = reflect(Vec3::new(0, 0, -ONE), Vec3::new(0, 0, ONE));
    assert_eq!(r, Vec3::new(0, 0, ONE));
}

#[test]
fn near_zero_only_for_the_zero_vector() {
    assert!(near_zero(&Vec3::zero()));
    assert!(!near_zero(&Vec3::new(1, 0, 0)));
    assert!(!near_zero(&Vec3::new(0, 0, -1)));
}

#[test]
fn schlick_reflectance() {
    // head-on, glass of index 1.5: ((1 - 1.5) / (1 + 1.5))^2 = 0.04
    assert_eq!(reflectance(ONE, 3 * ONE / 2), 2621);
    // grazing incidence reflects everything
    assert_eq!(reflectance(0, 3 * ONE / 2), ONE);
}

#[test]
fn refract_without_index_change_keeps_direction() {
    let d = Vec3::new(3 * ONE, -4 * ONE, 0).unit();
    let out = refract(d, Vec3::new(0, ONE, 0), ONE);
    assert!((out.x - d.x).abs() <= 2);
    assert!((out.y - d.y).abs() <= 2);
    assert_eq!(out.z, 0);
}

#[test]
fn lambertian_falls_back_to_the_normal() {
    let m = Lambertian { albedo: Vec3::new(ONE / 2, ONE / 4, ONE / 8) };
    let rec = floor_hit();
    let ray = Ray::new(Vec3::new(0, ONE, 0), Vec3::new(0, -ONE, 0));
    let s = m.scatter_with(&ray, &rec, Vec3::new(0, -ONE, 0), 0).unwrap();
    assert_eq!(s.scattered.direction, Vec3::new(0, ONE, 0));
    assert_eq!(s.scattered.origin, rec.p);
    assert_eq!(s.attenuation, m.albedo);
    let s = m.scatter_with(&ray, &rec, Vec3::new(ONE, 0, 0), 0).unwrap();
    assert_eq!(s.scattered.direction, Vec3::new(ONE, ONE, 0).unit());
}

#[test]
fn metal_reflects_and_blurs() {
    let m = Metal { albedo: Vec3::new(ONE, ONE, ONE), fuzz: 0 };
    let ray = Ray::new(Vec3::new(0, ONE, 0), Vec3::new(ONE, -ONE, 0).unit());
    let s = m.scatter_with(&ray, &floor_hit(), Vec3::new(0, ONE, 0), 0).unwrap();
    let mirrored = reflect(ray.direction, Vec3::new(0, ONE, 0)).unit();
    assert_eq!(s.scattered.direction, mirrored);
    assert!((mirrored.x - mirrored.y).abs() <= 1 && (mirrored.x - 46341).abs() <= 2);
    let m = Metal { albedo: Vec3::new(ONE, ONE, ONE), fuzz: ONE / 2 };
    let s = m.scatter_with(&ray, &floor_hit(), Vec3::new(0, 0, ONE), 0).unwrap();
    assert_eq!(s.scattered.direction, Vec3::new(mirrored.x, mirrored.y, ONE / 2));
}

#[test]
fn unit_index_glass_refracts_straight_through() {
    let m = Dielectric { attenuation: Vec3::new(ONE, ONE, ONE / 2), refraction_index: ONE };
    let d = Vec3::new(3 * ONE, -4 * ONE, 0).unit();
    let ray = Ray::new(Vec3::new(0, ONE, 0), d);
    for front_face in [true, false] {
        let rec = HitRecord { front_face, ..floor_hit() };
        let s = m.scatter_with(&ray, &rec, Vec3::zero(), ONE - 1).unwrap();
        assert!((s.scattered.direction.x - d.x).abs() <= 2);
        assert!((s.scattered.direction.y - d.y).abs() <= 2);
        assert_eq!(s.attenuation, m.attenuation);
    }
}

#[test]
fn dense_glass_reflects_totally_from_inside() {
    let m = Dielectric { attenuation: Vec3::new(ONE, ONE, ONE), refraction_index: 2 * ONE };
    let d = Vec3::new(ONE, -ONE, 0).unit();
    let ray = Ray::new(Vec3::new(0, ONE, 0), d);
    let rec = HitRecord { front_face: false, ..floor_hit() };
    let s = m.scatter_with(&ray, &rec, Vec3::zero(), ONE - 1).unwrap();
    assert_eq!(s.scattered.direction, reflect(d, rec.normal).unit());
    assert!(s.scattered.direction.y > 0);
}

#[test]
fn lights_emit_and_stop_paths() {
    let glow = Vec3::new(4 * ONE, 3 * ONE, 2 * ONE);
    let m = Material::DiffuseLight(DiffuseLight { emits: glow });
    let ray = Ray::new(Vec3::zero(), Vec3::new(0, -ONE, 0));
    let rec = floor_hit();
    assert_eq!(m.emits(&ray, &rec), glow);
    assert!(m.scatter_with(&ray, &rec, Vec3::new(ONE, 0, 0), 0).is_none());
    let grey = Material::Lambertian(Lambertian { albedo: glow });
    assert_eq!(grey.emits(&ray, &rec), Vec3::zero());
    assert!(m.is_emissive());
    assert!(!grey.is_emissive());
}

#[test]
fn random_scatter_is_unit_and_seeded() {
    let m = Material::Lambertian(Lambertian { albedo: Vec3::new(ONE / 2, ONE / 2, ONE / 2) });
    let ray = Ray::new(Vec3::zero(), Vec3::new(0, -ONE, 0));
    let rec = floor_hit();
    let mut a = Sampler::new(7);
    let mut b = Sampler::new(7);
    for _ in 0..100 {
        let s = m.scatter(&ray, &rec, &mut a).unwrap();
        let t = m.scatter(&ray, &rec, &mut b).unwrap();
        assert_eq!(s.scattered.direction, t.scattered.direction);
        assert_eq!(s.scattered.origin, rec.p);
        assert!((s.scattered.direction.length() - ONE).abs() <= 8);
        assert!(s.scattered.direction.y >= -8);
    }
}

#[test]
fn sampler_draws_stay_in_range() {
    let mut rng = Sampler::new(42);
    for _ in 0..1000 {
        let u = rng.unit();
        assert!((0..ONE).contains(&u));
        let s = rng.signed_unit();
        assert!((-ONE..ONE).contains(&s));
        assert!(rng.index(5) < 5);
        let d = rng.in_unit_disk();
        assert_eq!(d.z, 0);
        assert!(d.length_squared() < ONE);
        let b = rng.in_unit_ball();
        assert!(b.length_squared() < ONE);
    }
}

#[test]
fn raw_bits_become_draws() {
    assert_eq!(unit_from_bits(0), 0);
    assert_eq!(unit_from_bits(u32::MAX), ONE - 1);
    assert_eq!(unit_from_bits(3 << 16 | 5), 3);
    assert_eq!(signed_from_unit(0), -ONE);
    assert_eq!(signed_from_unit(ONE / 2), 0);
    assert_eq!(index_from_bits(17, 5), 2);
}

#[test]
fn ball_point_takes_the_first_candidate_inside() {
    let cands = vec![(ONE, 0, 0), (ONE / 2, ONE / 2, ONE), (ONE / 2, ONE / 2, ONE / 2), (0, 0, 0)];
    assert_eq!(ball_point(&cands, false), Vec3::new(ONE / 2, ONE / 2, ONE / 2));
    // in the plane the second candidate loses its z and falls inside
    assert_eq!(ball_point(&cands, true), Vec3::new(ONE / 2, ONE / 2, 0));
    assert_eq!(ball_point(&vec![(ONE, ONE, 0)], false), Vec3::zero());
    assert_eq!(ball_point(&vec![], true), Vec3::zero());
}
