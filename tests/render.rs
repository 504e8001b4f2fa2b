use raytracer_fx::fixed::ONE;
use raytracer_fx::hittable::{Geometry, Plane, Quad};
use raytracer_fx::material::{DiffuseLight, Lambertian, Material, ScatterInfo};
use raytracer_fx::shading::{step, Bounce, PathState};
use raytracer_fx::vec3::Vec3;
use raytracer_fx::{Object, Ray, Raytracer, World};

fn tracer(objects: Vec<Object>, lights: Vec<Vec3>, look_at: Vec3, up: Vec3) -> Raytracer {
    Raytracer {
        look_from: Vec3::new(0, 0, 0),
        look_at,
        camera_up: up,
        half_vfov_tan: ONE,
        half_aperture_tan: 0,
        focus_dist: ONE,
        world: World(objects),
        lights,
        samples: 4,
        bounces: 8,
    }
}

fn wall(position: Vec3, albedo: i64) -> Object {
    Object {
        geometry: Geometry::Plane(Plane { position, normal: position }),
        material: Material::Lambertian(Lambertian { albedo: Vec3::new(albedo, albedo, albedo) }),
    }
}

#[test]
fn empty_scene_renders_black_and_opaque() {
    let t = tracer(vec![], vec![], Vec3::new(0, 0, -ONE), Vec3::new(0, ONE, 0));
    let (w, h) = (5, 3);
    let mut fb = vec![7u8; w * h * 4];
    t.render(w, h, &mut fb, 1);
    for px in fb.chunks(4) {
        assert_eq!(px, &[0, 0, 0, 255]);
    }
}

#[test]
fn unlit_plane_seen_from_above_is_uniform() {
    let floor = wall(Vec3::new(0, -ONE, 0), ONE / 2);
    let t = tracer(vec![floor], vec![], Vec3::new(0, -ONE, 0), Vec3::new(0, 0, -ONE));
    let (w, h) = (4, 4);
    let mut fb = vec![9u8; w * h * 4];
    t.render(w, h, &mut fb, 3);
    let first = [fb[0], fb[1], fb[2], fb[3]];
    for px in fb.chunks(4) {
        assert_eq!(px, &first);
    }
    assert_eq!(first[3], 255);
}

fn lit_box() -> Raytracer {
    let mut objects = vec![
        wall(Vec3::new(0, -ONE, 0), 47841),
        wall(Vec3::new(0, ONE, 0), 47841),
        wall(Vec3::new(0, 0, -ONE), 47841),
        wall(Vec3::new(0, 0, ONE), 47841),
        wall(Vec3::new(-ONE, 0, 0), 47841),
        wall(Vec3::new(ONE, 0, 0), 47841),
    ];
    objects.push(Object {
        geometry: Geometry::Quad(Quad {
            position: Vec3::new(-ONE / 4, 64881, -ONE / 4),
            u: Vec3::new(ONE / 2, 0, 0),
            v: Vec3::new(0, 0, -ONE / 2),
        }),
        material: Material::DiffuseLight(DiffuseLight { emits: Vec3::new(4 * ONE, 4 * ONE, 4 * ONE) }),
    });
    let mut t = tracer(objects, vec![Vec3::new(0, 64881, -ONE / 2)], Vec3::new(0, 0, -ONE), Vec3::new(0, ONE, 0));
    t.look_from = Vec3::new(0, 0, 58982);
    t.samples = 32;
    t
}

#[test]
fn closed_box_with_one_light_has_no_black_channel() {
    let t = lit_box();
    assert!(t.is_valid());
    let (w, h) = (6, 6);
    let mut fb = vec![0u8; w * h * 4];
    t.render(w, h, &mut fb, 11);
    for px in fb.chunks(4) {
        assert!(px[0] > 0 && px[1] > 0 && px[2] > 0, "{:?}", px);
        assert_eq!(px[3], 255);
    }
}

#[test]
fn rows_render_alike_alone_or_in_the_image() {
    let t = lit_box();
    let (w, h) = (4, 3);
    let mut fb = vec![0u8; w * h * 4];
    t.render(w, h, &mut fb, 5);
    let cam = t.camera(w, h);
    for y in 0..h {
        let mut row = vec![0u8; w * 4];
        t.render_row(&cam, w, y, &mut row, 5 ^ y as u64);
        assert_eq!(&row[..], &fb[y * w * 4..(y + 1) * w * 4]);
    }
}

#[test]
fn same_seed_same_image() {
    let t = lit_box();
    let mut a = vec![0u8; 3 * 3 * 4];
    let mut b = vec![0u8; 3 * 3 * 4];
    t.render(3, 3, &mut a, 99);
    t.render(3, 3, &mut b, 99);
    assert_eq!(a, b);
}

#[test]
fn preset_scene_is_valid_and_renders() {
    let t = Raytracer::new();
    assert!(t.is_valid());
    assert_eq!(t.world.0.len(), 8);
    let mut fb = vec![0u8; 4 * 4 * 4];
    t.render(4, 4, &mut fb, 0);
    assert!(fb.chunks(4).all(|px| px[3] == 255));
    assert!(fb.chunks(4).any(|px| px[0] > 0 && px[1] > 0 && px[2] > 0));
}

#[test]
fn path_step_adds_weighted_light() {
    let ray = Ray::new(Vec3::zero(), Vec3::new(0, 0, -ONE));
    let st = PathState { color: Vec3::zero(), throughput: Vec3::new(ONE, ONE / 2, ONE / 2), ray, done: false };
    let next = Ray::new(Vec3::new(0, 0, -ONE), Vec3::new(0, ONE, 0));
    let scatter = ScatterInfo { scattered: next, attenuation: Vec3::new(ONE / 2, ONE / 2, ONE / 2) };
    let b = Bounce { emits: Vec3::new(ONE, 0, 0), draw: 0, light: Some(Vec3::new(ONE, 2 * ONE, 0)), scatter: Some(scatter) };
    // first bounce: (emits + light) / 2 = (1, 1, 0), times throughput (1/2, 1/4, 1/4)
    let r = step(st, true, Some(b));
    assert!(!r.done);
    assert_eq!(r.throughput, Vec3::new(ONE / 2, ONE / 4, ONE / 4));
    assert_eq!(r.color, Vec3::new(ONE / 2, ONE / 4, 0));
    assert_eq!(r.ray.direction, next.direction);
    // later bounces take the light whole
    let r = step(st, false, Some(b));
    assert_eq!(r.color, Vec3::new(ONE, ONE / 2, 0));
    // a light ends the path after adding its own glow
    let glow = Bounce { emits: Vec3::new(ONE, ONE, ONE), draw: 0, light: None, scatter: None };
    let r = step(st, false, Some(glow));
    assert!(r.done);
    assert_eq!(r.color, Vec3::new(ONE, ONE / 2, ONE / 2));
    // a roulette loss or a miss ends it with nothing added
    let dim = PathState { throughput: Vec3::new(ONE / 2, ONE / 4, 0), ..st };
    let lost = Bounce { draw: ONE / 2, ..b };
    let r = step(dim, false, Some(lost));
    assert!(r.done);
    assert_eq!(r.color, Vec3::zero());
    assert!(step(st, false, None).done);
}

#[test]
fn no_bounces_render_black() {
    let mut t = Raytracer::new();
    t.bounces = 0;
    let mut fb = vec![9u8; 2 * 2 * 4];
    t.render(2, 2, &mut fb, 4);
    assert_eq!(fb, vec![0, 0, 0, 255, 0, 0, 0, 255, 0, 0, 0, 255, 0, 0, 0, 255]);
}
