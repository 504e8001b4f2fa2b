//! Ray intersection with spheres, planes and quadrilaterals.
use vstd::prelude::*;
use crate::fixed::{fx_add, fx_div, fx_mul, fx_sqrt, fx_sub, ONE};
use crate::fixed;
use crate::vec3::{lemma_dot_commutes, lemma_dot_neg, vcross, vdivs, vdot, vlen_sq, vneg, vsub, vunit, Vec3};
use crate::{ray_at, Ray};

verus! {

/// Rays that meet a surface at less than this (raw) cosine are not hit.
pub const GRAZING: i64 = 66;

/// Where a ray meets a surface. `normal` always opposes the ray.
#[derive(Clone, Copy, Debug)]
pub struct HitRecord {
    pub p: Vec3,
    pub normal: Vec3,
    pub depth: i64,
    pub front_face: bool,
}

/// The record of a hit at `p` and parameter `t` whose geometric normal is
/// `gn`, with the normal turned to oppose the ray.
pub open spec fn oriented(ray: Ray, p: Vec3, gn: Vec3, t: int) -> HitRecord {
    let f = vdot(ray.direction, gn) < 0;
    HitRecord { p, normal: if f { gn } else { vneg(gn) }, depth: t as i64, front_face: f }
}

/// `t` lies strictly inside `(min, max)`.
pub open spec fn inside(t: int, min: int, max: int) -> bool {
    min < t < max
}

/// A surface that rays can be intersected with.
pub trait Hittable {
    /// The hit in `(min, max)`, if any.
    spec fn hit_spec(&self, ray: Ray, min: int, max: int) -> Option<HitRecord>;

    fn hit(&self, ray: &Ray, min: i64, max: i64) -> (r: Option<HitRecord>)
        ensures
            r == self.hit_spec(*ray, min as int, max as int),
    ;
}

impl HitRecord {
    /// Turns the normal against the ray and records which side was hit.
    fn set_out(&mut self, ray: &Ray)
        ensures
            *final(self) == oriented(*ray, old(self).p, old(self).normal, old(self).depth as int),
            old(self).normal.wf() ==> vdot(final(self).normal, ray.direction) <= 0,
    {
        proof {
            lemma_dot_commutes(ray.direction, self.normal);
            if self.normal.wf() {
                lemma_dot_neg(self.normal, ray.direction);
            }
        }
        let f = ray.direction.dot(&self.normal) < 0;
        self.front_face = f;
        if !f {
            self.normal = self.normal.neg();
        }
    }
}

pub struct Sphere {
    pub center: Vec3,
    pub radius: i64,
}

pub struct Plane {
    pub position: Vec3,
    pub normal: Vec3,
}

pub struct Quad {
    pub position: Vec3,
    pub u: Vec3,
    pub v: Vec3,
}

pub open spec fn sphere_hit(s: Sphere, ray: Ray, min: int, max: int) -> Option<HitRecord> {
    let oc = vsub(s.center, ray.origin);
    let a = vlen_sq(ray.direction);
    let h = vdot(ray.direction, oc);
    let c = fx_sub(vlen_sq(oc), fx_mul(s.radius as int, s.radius as int));
    let disc = fx_sub(fx_mul(h, h), fx_mul(a, c));
    if s.radius == 0 || a == 0 || disc < 0 {
        None
    } else {
        let sq = fx_sqrt(disc);
        let near = fx_div(fx_sub(h, sq), a);
        let far = fx_div(fx_add(h, sq), a);
        let t = if inside(near, min, max) { near } else { far };
        if !inside(t, min, max) {
            None
        } else {
            let p = ray_at(ray, t);
            Some(oriented(ray, p, vdivs(vsub(p, s.center), s.radius as int), t))
        }
    }
}

pub open spec fn plane_hit(pl: Plane, ray: Ray, min: int, max: int) -> Option<HitRecord> {
    let d = vdot(pl.normal, ray.direction);
    if d <= GRAZING {
        None
    } else {
        let t = fx_div(vdot(vsub(pl.position, ray.origin), pl.normal), d);
        if !inside(t, min, max) {
            None
        } else {
            Some(oriented(ray, ray_at(ray, t), pl.normal, t))
        }
    }
}

/// Where the plane of the quad is met, if it is met at all: the parameter,
/// the point and the two coordinates of the point along the edges.
pub open spec fn quad_plane_hit(q: Quad, ray: Ray, min: int, max: int) -> Option<(int, Vec3, int, int)> {
    let n = vcross(q.u, q.v);
    let normal = vunit(n);
    let ndn = vdot(n, n);
    let denom = vdot(normal, ray.direction);
    if denom <= GRAZING || ndn == 0 {
        None
    } else {
        let t = fx_div(vdot(vsub(q.position, ray.origin), normal), denom);
        if !inside(t, min, max) {
            None
        } else {
            let p = ray_at(ray, t);
            let hitpt = vsub(p, q.position);
            let w = vdivs(n, ndn);
            Some((t, p, vdot(w, vcross(hitpt, q.v)), vdot(w, vcross(q.u, hitpt))))
        }
    }
}

pub open spec fn in_unit(a: int) -> bool {
    0 <= a <= ONE
}

pub open spec fn quad_hit(q: Quad, ray: Ray, min: int, max: int) -> Option<HitRecord> {
    match quad_plane_hit(q, ray, min, max) {
        None => None,
        Some((t, p, alpha, beta)) => if in_unit(alpha) && in_unit(beta) {
            Some(oriented(ray, p, vunit(vcross(q.u, q.v)), t))
        } else {
            None
        },
    }
}

impl Hittable for Sphere {
    open spec fn hit_spec(&self, ray: Ray, min: int, max: int) -> Option<HitRecord> {
        sphere_hit(*self, ray, min, max)
    }

    fn hit(&self, ray: &Ray, min: i64, max: i64) -> (r: Option<HitRecord>) {
        let oc = self.center.sub(&ray.origin);
        let a = ray.direction.length_squared();
        let h = ray.direction.dot(&oc);
        let c = fixed::sub(oc.length_squared(), fixed::mul(self.radius, self.radius));
        let disc = fixed::sub(fixed::mul(h, h), fixed::mul(a, c));
        if self.radius == 0 || a == 0 || disc < 0 {
            return None;
        }
        let sq = fixed::sqrt(disc);
        let mut root = fixed::div(fixed::sub(h, sq), a);
        if root <= min || max <= root {
            root = fixed::div(fixed::add(h, sq), a);
            if root <= min || max <= root {
                return None;
            }
        }
        let t = root;
        let p = ray.at(t);
        let normal = p.sub(&self.center).div_scalar(self.radius);
        let mut rec = HitRecord { p, normal, depth: t, front_face: false };
        rec.set_out(ray);
        Some(rec)
    }
}

impl Hittable for Plane {
    open spec fn hit_spec(&self, ray: Ray, min: int, max: int) -> Option<HitRecord> {
        plane_hit(*self, ray, min, max)
    }

    fn hit(&self, ray: &Ray, min: i64, max: i64) -> (r: Option<HitRecord>) {
        let d = self.normal.dot(&ray.direction);
        if d <= GRAZING {
            return None;
        }
        let t = fixed::div(self.position.sub(&ray.origin).dot(&self.normal), d);
        if t <= min || max <= t {
            return None;
        }
        let p = ray.at(t);
        let mut rec = HitRecord { p, normal: self.normal, depth: t, front_face: false };
        rec.set_out(ray);
        Some(rec)
    }
}

impl Hittable for Quad {
    open spec fn hit_spec(&self, ray: Ray, min: int, max: int) -> Option<HitRecord> {
        quad_hit(*self, ray, min, max)
    }

    fn hit(&self, ray: &Ray, min: i64, max: i64) -> (r: Option<HitRecord>) {
        let n = self.u.cross(&self.v);
        let normal = n.unit();
        let ndn = n.dot(&n);
        let denom = normal.dot(&ray.direction);
        if denom <= GRAZING || ndn == 0 {
            return None;
        }
        let t = fixed::div(self.position.sub(&ray.origin).dot(&normal), denom);
        if t <= min || max <= t {
            return None;
        }
        let p = ray.at(t);
        let hitpt = p.sub(&self.position);
        let w = n.div_scalar(ndn);
        let alpha = w.dot(&hitpt.cross(&self.v));
        if alpha < 0 || ONE < alpha {
            return None;
        }
        let beta = w.dot(&self.u.cross(&hitpt));
        if beta < 0 || ONE < beta {
            return None;
        }
        let mut rec = HitRecord { p, normal, depth: t, front_face: false };
        rec.set_out(ray);
        Some(rec)
    }
}

pub enum Geometry {
    Sphere(Sphere),
    Plane(Plane),
    Quad(Quad),
}

pub open spec fn geometry_hit(g: Geometry, ray: Ray, min: int, max: int) -> Option<HitRecord> {
    match g {
        Geometry::Sphere(s) => sphere_hit(s, ray, min, max),
        Geometry::Plane(p) => plane_hit(p, ray, min, max),
        Geometry::Quad(q) => quad_hit(q, ray, min, max),
    }
}

impl Geometry {
    /// Every vector the geometry holds is in range.
    pub open spec fn wf(&self) -> bool {
        match *self {
            Geometry::Sphere(s) => s.center.wf(),
            Geometry::Plane(p) => p.position.wf() && p.normal.wf(),
            Geometry::Quad(q) => q.position.wf() && q.u.wf() && q.v.wf(),
        }
    }

    pub fn is_valid(&self) -> (r: bool)
        ensures
            r == self.wf(),
    {
        match self {
            Geometry::Sphere(s) => s.center.is_valid(),
            Geometry::Plane(p) => p.position.is_valid() && p.normal.is_valid(),
            Geometry::Quad(q) => q.position.is_valid() && q.u.is_valid() && q.v.is_valid(),
        }
    }

}

impl Hittable for Geometry {
    open spec fn hit_spec(&self, ray: Ray, min: int, max: int) -> Option<HitRecord> {
        geometry_hit(*self, ray, min, max)
    }

    fn hit(&self, ray: &Ray, min: i64, max: i64) -> (r: Option<HitRecord>) {
        match self {
            Geometry::Sphere(s) => s.hit(ray, min, max),
            Geometry::Plane(p) => p.hit(ray, min, max),
            Geometry::Quad(q) => q.hit(ray, min, max),
        }
    }
}

/// A reported normal never points along the ray: its dot product with the
/// ray's direction is at most zero.
pub proof fn lemma_normal_opposes_ray(g: Geometry, ray: Ray, min: int, max: int)
    requires
        g.wf(),
    ensures
        geometry_hit(g, ray, min, max) matches Some(rec) ==> vdot(rec.normal, ray.direction) <= 0,
{
    if let Some(rec) = geometry_hit(g, ray, min, max) {
        let gn = match g {
            Geometry::Sphere(s) => vdivs(vsub(rec.p, s.center), s.radius as int),
            Geometry::Plane(p) => p.normal,
            Geometry::Quad(q) => vunit(vcross(q.u, q.v)),
        };
        assert(rec == oriented(ray, rec.p, gn, rec.depth as int));
        lemma_dot_commutes(ray.direction, gn);
        if !rec.front_face {
            lemma_dot_neg(gn, ray.direction);
        }
    }
}

/// A sphere's hit lies strictly inside the interval, and its normal is
/// `(p - center) / radius`, negated when that points along the ray.
pub proof fn lemma_sphere_normal(s: Sphere, ray: Ray, min: int, max: int)
    ensures
        sphere_hit(s, ray, min, max) matches Some(rec) ==> min < rec.depth < max && (rec.normal == vdivs(
            vsub(rec.p, s.center),
            s.radius as int,
        ) || rec.normal == vneg(vdivs(vsub(rec.p, s.center), s.radius as int))),
{
}

/// The normal of a hit on a well-formed geometry is in range.
pub proof fn lemma_hit_normal_in_range(g: Geometry, ray: Ray, min: int, max: int)
    requires
        g.wf(),
    ensures
        geometry_hit(g, ray, min, max) matches Some(rec) ==> rec.normal.wf(),
{
}

/// A quad reports a hit exactly when its plane is met inside the interval at
/// a point whose edge coordinates both lie in `[0, 1]`.
pub proof fn lemma_quad_hit_inside(q: Quad, ray: Ray, min: int, max: int)
    ensures
        quad_hit(q, ray, min, max) is Some <==> (quad_plane_hit(q, ray, min, max) matches Some(
            (_t, _p, alpha, beta),
        ) && in_unit(alpha) && in_unit(beta)),
{
}

} // verus!
