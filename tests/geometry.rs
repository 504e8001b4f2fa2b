use raytracer_fx::fixed::ONE;
use raytracer_fx::hittable::{Geometry, Hittable, Plane, Quad, Sphere};
use raytracer_fx::vec3::Vec3;
use raytracer_fx::{Ray, FAR, HIT_MIN};

fn ray(o: (i64, i64, i64), d: (i64, i64, i64)) -> Ray {
    Ray::new(Vec3::new(o.0, o.1, o.2), Vec3::new(d.0, d.1, d.2))
}

#[test]
fn sphere_hit_distances_and_normals() {
    let s = Sphere { center: Vec3::new(0, 0, -5 * ONE), radius: ONE };
    let r = ray((0, 0, 0), (0, 0, -ONE));
    let near = s.hit(&r, HIT_MIN, FAR).unwrap();
    assert_eq!(near.depth, 4 * ONE);
    assert_eq!(near.p, Vec3::new(0, 0, -4 * ONE));
    assert_eq!(near.normal, Vec3::new(0, 0, ONE));
    assert!(near.front_face);
    let far = s.hit(&r, 4 * ONE, FAR).unwrap();
    assert_eq!(far.depth, 6 * ONE);
    assert_eq!(far.normal, Vec3::new(0, 0, ONE));
    assert!(!far.front_face);
    assert!(s.hit(&r, HIT_MIN, 3 * ONE).is_none());
    assert!(s.hit(&ray((0, 2 * ONE, 0), (0, 0, -ONE)), HIT_MIN, FAR).is_none());
}

#[test]
fn sphere_hit_off_axis_origin() {
    let s = Sphere { center: Vec3::new(ONE, 2 * ONE, 3 * ONE), radius: 2 * ONE };
    let dir = Vec3::new(3 * ONE, 4 * ONE, 0).unit();
    let origin = Vec3::new(ONE - 3 * ONE, 2 * ONE - 4 * ONE, 3 * ONE);
    let hit = s.hit(&Ray::new(origin, dir), HIT_MIN, FAR).unwrap();
    // |origin - center| = 5, so the hit is at 5 - 2 = 3
    assert!((hit.depth - 3 * ONE).abs() < 16);
}

#[test]
fn plane_hit_from_either_side() {
    let floor = Plane { position: Vec3::new(0, -ONE, 0), normal: Vec3::new(0, -ONE, 0) };
    let down = ray((0, 0, 0), (0, -ONE, 0));
    let rec = floor.hit(&down, HIT_MIN, FAR).unwrap();
    assert_eq!(rec.depth, ONE);
    assert_eq!(rec.p, Vec3::new(0, -ONE, 0));
    assert_eq!(rec.normal, Vec3::new(0, ONE, 0));
    assert!(!rec.front_face);
    assert!(floor.hit(&ray((0, 0, 0), (0, ONE, 0)), HIT_MIN, FAR).is_none());
    assert!(floor.hit(&ray((0, 0, 0), (ONE, 0, 0)), HIT_MIN, FAR).is_none());
}

#[test]
fn quad_hits_only_inside() {
    let q = Quad {
        position: Vec3::new(0, 0, -2 * ONE),
        u: Vec3::new(ONE, 0, 0),
        v: Vec3::new(0, -ONE, 0),
    };
    // normal is u x v = (0, 0, -1): rays travelling towards -z meet it
    let hit = q.hit(&ray((ONE / 2, -ONE / 2, 0), (0, 0, -ONE)), HIT_MIN, FAR).unwrap();
    assert_eq!(hit.depth, 2 * ONE);
    assert_eq!(hit.normal, Vec3::new(0, 0, ONE));
    assert!(q.hit(&ray((ONE / 2, ONE / 2, 0), (0, 0, -ONE)), HIT_MIN, FAR).is_none());
    assert!(q.hit(&ray((-ONE / 2, -ONE / 2, 0), (0, 0, -ONE)), HIT_MIN, FAR).is_none());
    assert!(q.hit(&ray((3 * ONE / 2, -ONE / 2, 0), (0, 0, -ONE)), HIT_MIN, FAR).is_none());
    // the corners themselves belong to the quad
    assert!(q.hit(&ray((0, 0, 0), (0, 0, -ONE)), HIT_MIN, FAR).is_some());
    assert!(q.hit(&ray((ONE, -ONE, 0), (0, 0, -ONE)), HIT_MIN, FAR).is_some());
}

#[test]
fn normals_oppose_rays() {
    let shapes = vec![
        Geometry::Sphere(Sphere { center: Vec3::new(0, 0, -3 * ONE), radius: ONE }),
        Geometry::Plane(Plane { position: Vec3::new(0, 0, -4 * ONE), normal: Vec3::new(0, 0, -ONE) }),
        Geometry::Quad(Quad {
            position: Vec3::new(-2 * ONE, -2 * ONE, -ONE),
            u: Vec3::new(4 * ONE, 0, 0),
            v: Vec3::new(0, 4 * ONE, 0),
        }),
    ];
    let mut hits = 0;
    for i in -4..=4i64 {
        for j in -4..=4i64 {
            let dir = Vec3::new(i * ONE / 8, j * ONE / 8, -ONE).unit();
            for origin in [Vec3::new(0, 0, 0), Vec3::new(0, 0, -3 * ONE)] {
                let r = Ray::new(origin, dir);
                for g in &shapes {
                    if let Some(rec) = g.hit(&r, HIT_MIN, FAR) {
                        hits += 1;
                        assert!(rec.normal.dot(&r.direction) <= 0);
                    }
                }
            }
        }
    }
    assert!(hits > 100);
}
