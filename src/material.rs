//! How surfaces scatter and emit light.
use vstd::prelude::*;
use crate::fixed::{fx_abs, fx_add, fx_div, fx_min, fx_mul, fx_neg, fx_sqrt, fx_sub, lemma_sqrt_at_most_one, tdiv, ONE};
use crate::fixed;
use crate::hittable::HitRecord;
use crate::sampler::{in_ball, Sampler};
use crate::vec3::{vadd, vdot, vlen_sq, vneg, vscale, vsub, vunit, vzero, Vec3};
use crate::Ray;

verus! {

/// Components below this magnitude (raw) count as zero.
pub const NEAR_ZERO: i64 = 1;

#[derive(Clone, Copy, Debug)]
pub struct ScatterInfo {
    pub scattered: Ray,
    pub attenuation: Vec3,
}

pub struct Lambertian {
    pub albedo: Vec3,
}

pub struct Metal {
    pub albedo: Vec3,
    pub fuzz: i64,
}

pub struct Dielectric {
    pub attenuation: Vec3,
    pub refraction_index: i64,
}

pub struct DiffuseLight {
    pub emits: Vec3,
}

pub enum Material {
    Lambertian(Lambertian),
    Metal(Metal),
    Dielectric(Dielectric),
    DiffuseLight(DiffuseLight),
}

/// Mirror image of `v` about the plane with normal `n`: `v - 2(v.n)n`.
pub open spec fn reflect_spec(v: Vec3, n: Vec3) -> Vec3 {
    vsub(v, vscale(vscale(n, vdot(v, n)), 2 * ONE))
}

pub open spec fn near_zero_spec(v: Vec3) -> bool {
    fx_abs(v.x as int) < NEAR_ZERO && fx_abs(v.y as int) < NEAR_ZERO && fx_abs(v.z as int) < NEAR_ZERO
}

/// The cosine between the reversed incoming direction and the normal, at most one.
pub open spec fn cos_incidence(uv: Vec3, n: Vec3) -> int {
    fx_min(vdot(vneg(uv), n), ONE as int)
}

/// Snell's law split into the parts perpendicular and parallel to the normal.
pub open spec fn refract_spec(uv: Vec3, n: Vec3, eta: int) -> Vec3 {
    let perp = vscale(vadd(vscale(n, cos_incidence(uv, n)), uv), eta);
    let parl = vscale(n, fx_neg(fx_sqrt(fx_abs(fx_sub(ONE as int, vlen_sq(perp))))));
    vadd(perp, parl)
}

pub open spec fn pow5(x: int) -> int {
    fx_mul(fx_mul(fx_mul(fx_mul(x, x), x), x), x)
}

/// Schlick's approximation of the Fresnel reflectance.
pub open spec fn reflectance_spec(cos_theta: int, ri: int) -> int {
    let r0 = fx_div(fx_sub(ONE as int, ri), fx_add(ONE as int, ri));
    let r0 = fx_mul(r0, r0);
    fx_add(r0, fx_mul(fx_sub(ONE as int, r0), pow5(fx_sub(ONE as int, cos_theta))))
}

pub open spec fn lambertian_scatter(m: Lambertian, rec: HitRecord, dir: Vec3) -> ScatterInfo {
    let sd = vadd(dir, rec.normal);
    let sd = if near_zero_spec(sd) { rec.normal } else { sd };
    ScatterInfo { scattered: Ray { origin: rec.p, direction: vunit(sd) }, attenuation: m.albedo }
}

pub open spec fn metal_scatter(m: Metal, ray: Ray, rec: HitRecord, dir: Vec3) -> ScatterInfo {
    let reflected = vadd(vunit(reflect_spec(ray.direction, rec.normal)), vscale(dir, m.fuzz as int));
    ScatterInfo { scattered: Ray { origin: rec.p, direction: reflected }, attenuation: m.albedo }
}

/// The ratio of refraction indices across the surface at this hit.
pub open spec fn index_ratio(m: Dielectric, rec: HitRecord) -> int {
    if rec.front_face {
        fx_div(ONE as int, m.refraction_index as int)
    } else {
        m.refraction_index as int
    }
}

/// Snell's law has no solution: the ray cannot leave the denser medium.
pub open spec fn total_internal_reflection(ri: int, cos_theta: int) -> bool {
    fx_mul(ri, fx_sqrt(fx_sub(ONE as int, fx_mul(cos_theta, cos_theta)))) > ONE
}

/// The ray is reflected: by total internal reflection, or when the draw falls
/// below the reflectance.
pub open spec fn dielectric_reflects(m: Dielectric, ray: Ray, rec: HitRecord, draw: int) -> bool {
    let ri = index_ratio(m, rec);
    let cos_theta = cos_incidence(ray.direction, rec.normal);
    total_internal_reflection(ri, cos_theta) || reflectance_spec(cos_theta, ri) > draw
}

pub open spec fn dielectric_scatter(m: Dielectric, ray: Ray, rec: HitRecord, draw: int) -> ScatterInfo {
    let direction = if dielectric_reflects(m, ray, rec, draw) {
        vunit(reflect_spec(ray.direction, rec.normal))
    } else {
        vunit(refract_spec(ray.direction, rec.normal, index_ratio(m, rec)))
    };
    ScatterInfo { scattered: Ray { origin: rec.p, direction }, attenuation: m.attenuation }
}

/// What a material does with a ray, given the random point of the unit ball
/// and the random draw in `[0, 1)` that it may use.
pub open spec fn material_scatter(m: Material, ray: Ray, rec: HitRecord, dir: Vec3, draw: int) -> Option<
    ScatterInfo,
> {
    match m {
        Material::Lambertian(l) => Some(lambertian_scatter(l, rec, dir)),
        Material::Metal(l) => Some(metal_scatter(l, ray, rec, dir)),
        Material::Dielectric(l) => Some(dielectric_scatter(l, ray, rec, draw)),
        Material::DiffuseLight(_) => None,
    }
}

/// The color a material is given: albedo, attenuation or emission.
pub open spec fn material_color(m: Material) -> Vec3 {
    match m {
        Material::Lambertian(l) => l.albedo,
        Material::Metal(l) => l.albedo,
        Material::Dielectric(l) => l.attenuation,
        Material::DiffuseLight(l) => l.emits,
    }
}

/// A scattered ray is attenuated by the material's color, and a material
/// emits either nothing or its color.
pub proof fn lemma_material_color(m: Material, ray: Ray, rec: HitRecord, dir: Vec3, draw: int)
    ensures
        material_scatter(m, ray, rec, dir, draw) matches Some(s) ==> s.attenuation == material_color(m),
        emits_spec(m) == vzero() || emits_spec(m) == material_color(m),
{
}

pub open spec fn emits_spec(m: Material) -> Vec3 {
    match m {
        Material::DiffuseLight(l) => l.emits,
        _ => vzero(),
    }
}

/// A random point and draw that a sampler can hand out.
pub open spec fn draw_ok(dir: Vec3, draw: int) -> bool {
    in_ball(dir) && 0 <= draw < ONE
}

/// With a refraction index of one, the index ratio is one on both sides of
/// the surface and no incidence angle gives total internal reflection.
pub proof fn lemma_unit_index_never_reflects_totally(m: Dielectric, rec: HitRecord, cos_theta: int)
    requires
        m.refraction_index == ONE,
    ensures
        index_ratio(m, rec) == ONE,
        !total_internal_reflection(index_ratio(m, rec), cos_theta),
{
    assert(tdiv(ONE * ONE, ONE as int) == ONE);
    assert(cos_theta * cos_theta >= 0) by (nonlinear_arith);
    let m2 = fx_mul(cos_theta, cos_theta);
    assert(m2 >= 0);
    let arg = fx_sub(ONE as int, m2);
    let s = fx_sqrt(arg);
    if arg > 0 {
        lemma_sqrt_at_most_one(arg);
    }
    assert(0 <= s <= ONE);
    assert(tdiv(ONE * s, ONE as int) == s) by (nonlinear_arith)
        requires
            0 <= s,
    ;
}

pub fn reflect(v: Vec3, n: Vec3) -> (r: Vec3)
    ensures
        r == reflect_spec(v, n),
{
    let vn = v.dot(&n);
    v.sub(&n.scale(vn).scale(2 * ONE))
}

pub fn near_zero(v: &Vec3) -> (r: bool)
    ensures
        r == near_zero_spec(*v),
{
    fixed::abs(v.x) < NEAR_ZERO && fixed::abs(v.y) < NEAR_ZERO && fixed::abs(v.z) < NEAR_ZERO
}

pub fn refract(uv: Vec3, n: Vec3, etai_ov_etat: i64) -> (r: Vec3)
    ensures
        r == refract_spec(uv, n, etai_ov_etat as int),
{
    let cos_theta = fixed::min(uv.neg().dot(&n), ONE);
    let r_out_perp = n.scale(cos_theta).add(&uv).scale(etai_ov_etat);
    let r_out_parl = n.scale(
        fixed::neg(fixed::sqrt(fixed::abs(fixed::sub(ONE, r_out_perp.length_squared())))),
    );
    r_out_perp.add(&r_out_parl)
}

pub fn reflectance(cos_theta: i64, ri: i64) -> (r: i64)
    requires
        ri >= 0,
    ensures
        r == reflectance_spec(cos_theta as int, ri as int),
{
    let r0 = fixed::div(fixed::sub(ONE, ri), fixed::add(ONE, ri));
    let r0 = fixed::mul(r0, r0);
    let c = fixed::sub(ONE, cos_theta);
    let p = fixed::mul(fixed::mul(fixed::mul(fixed::mul(c, c), c), c), c);
    fixed::add(r0, fixed::mul(fixed::sub(ONE, r0), p))
}

/// What a surface does with the light that reaches it.
pub trait MaterialType {
    /// The surface can be scattered from.
    spec fn valid(&self) -> bool;

    /// The outgoing ray and attenuation for a given random point of the unit
    /// ball and a random draw in `[0, 1)`; `None` ends the path.
    spec fn scatter_spec(&self, ray: Ray, rec: HitRecord, dir: Vec3, draw: int) -> Option<ScatterInfo>;

    /// The light the surface gives off.
    spec fn emitted(&self) -> Vec3;

    fn scatter_with(&self, ray: &Ray, rec: &HitRecord, dir: Vec3, draw: i64) -> (r: Option<ScatterInfo>)
        requires
            self.valid(),
            rec.normal.wf(),
        ensures
            r == self.scatter_spec(*ray, *rec, dir, draw as int),
    ;

    fn emits(&self, ray: &Ray, rec: &HitRecord) -> (r: Vec3)
        ensures
            r == self.emitted(),
    ;

    /// Scatters with fresh random draws from `rng`.
    fn scatter(&self, ray: &Ray, rec: &HitRecord, rng: &mut Sampler) -> (r: Option<ScatterInfo>)
        requires
            self.valid(),
            rec.normal.wf(),
        ensures
            exists|dir: Vec3, draw: int| draw_ok(dir, draw) && r == self.scatter_spec(*ray, *rec, dir, draw),
    {
        let dir = rng.in_unit_ball();
        let draw = rng.unit();
        let r = self.scatter_with(ray, rec, dir, draw);
        assert(draw_ok(dir, draw as int) && r == self.scatter_spec(*ray, *rec, dir, draw as int));
        r
    }
}

impl MaterialType for Lambertian {
    open spec fn valid(&self) -> bool {
        true
    }

    open spec fn scatter_spec(&self, ray: Ray, rec: HitRecord, dir: Vec3, draw: int) -> Option<ScatterInfo> {
        Some(lambertian_scatter(*self, rec, dir))
    }

    open spec fn emitted(&self) -> Vec3 {
        vzero()
    }

    fn scatter_with(&self, _ray: &Ray, rec: &HitRecord, dir: Vec3, _draw: i64) -> (r: Option<ScatterInfo>) {
        let mut sd = dir.add(&rec.normal);
        if near_zero(&sd) {
            sd = rec.normal;
        }
        Some(ScatterInfo { scattered: Ray { origin: rec.p, direction: sd.unit() }, attenuation: self.albedo })
    }

    fn emits(&self, _ray: &Ray, _rec: &HitRecord) -> (r: Vec3) {
        Vec3::zero()
    }
}

impl MaterialType for Metal {
    open spec fn valid(&self) -> bool {
        true
    }

    open spec fn scatter_spec(&self, ray: Ray, rec: HitRecord, dir: Vec3, draw: int) -> Option<ScatterInfo> {
        Some(metal_scatter(*self, ray, rec, dir))
    }

    open spec fn emitted(&self) -> Vec3 {
        vzero()
    }

    fn scatter_with(&self, ray: &Ray, rec: &HitRecord, dir: Vec3, _draw: i64) -> (r: Option<ScatterInfo>) {
        let reflected = reflect(ray.direction, rec.normal).unit().add(&dir.scale(self.fuzz));
        Some(ScatterInfo { scattered: Ray { origin: rec.p, direction: reflected }, attenuation: self.albedo })
    }

    fn emits(&self, _ray: &Ray, _rec: &HitRecord) -> (r: Vec3) {
        Vec3::zero()
    }
}

impl MaterialType for Dielectric {
    open spec fn valid(&self) -> bool {
        self.refraction_index > 0
    }

    open spec fn scatter_spec(&self, ray: Ray, rec: HitRecord, dir: Vec3, draw: int) -> Option<ScatterInfo> {
        Some(dielectric_scatter(*self, ray, rec, draw))
    }

    open spec fn emitted(&self) -> Vec3 {
        vzero()
    }

    fn scatter_with(&self, ray: &Ray, rec: &HitRecord, _dir: Vec3, draw: i64) -> (r: Option<ScatterInfo>) {
        let ri = if rec.front_face {
            fixed::div(ONE, self.refraction_index)
        } else {
            self.refraction_index
        };
        let cos_theta = fixed::min(ray.direction.neg().dot(&rec.normal), ONE);
        let sin_theta = fixed::sqrt(fixed::sub(ONE, fixed::mul(cos_theta, cos_theta)));
        let direction = if fixed::mul(ri, sin_theta) > ONE || reflectance(cos_theta, ri) > draw {
            reflect(ray.direction, rec.normal).unit()
        } else {
            refract(ray.direction, rec.normal, ri).unit()
        };
        Some(ScatterInfo { scattered: Ray { origin: rec.p, direction }, attenuation: self.attenuation })
    }

    fn emits(&self, _ray: &Ray, _rec: &HitRecord) -> (r: Vec3) {
        Vec3::zero()
    }
}

impl MaterialType for DiffuseLight {
    open spec fn valid(&self) -> bool {
        true
    }

    open spec fn scatter_spec(&self, ray: Ray, rec: HitRecord, dir: Vec3, draw: int) -> Option<ScatterInfo> {
        None
    }

    open spec fn emitted(&self) -> Vec3 {
        self.emits
    }

    fn scatter_with(&self, _ray: &Ray, _rec: &HitRecord, _dir: Vec3, _draw: i64) -> (r: Option<ScatterInfo>) {
        None
    }

    fn emits(&self, _ray: &Ray, _rec: &HitRecord) -> (r: Vec3) {
        self.emits
    }
}

impl Material {
    /// Every index of refraction is positive.
    pub open spec fn wf(&self) -> bool {
        match *self {
            Material::Dielectric(d) => d.refraction_index > 0,
            _ => true,
        }
    }

    pub fn is_valid(&self) -> (r: bool)
        ensures
            r == self.wf(),
    {
        match self {
            Material::Dielectric(d) => d.refraction_index > 0,
            _ => true,
        }
    }
}

impl Material {
    /// The surface is a light.
    pub fn is_emissive(&self) -> (r: bool)
        ensures
            r == (*self is DiffuseLight),
    {
        match self {
            Material::DiffuseLight(_) => true,
            _ => false,
        }
    }
}

impl MaterialType for Material {
    open spec fn valid(&self) -> bool {
        self.wf()
    }

    open spec fn scatter_spec(&self, ray: Ray, rec: HitRecord, dir: Vec3, draw: int) -> Option<ScatterInfo> {
        material_scatter(*self, ray, rec, dir, draw)
    }

    open spec fn emitted(&self) -> Vec3 {
        emits_spec(*self)
    }

    fn scatter_with(&self, ray: &Ray, rec: &HitRecord, dir: Vec3, draw: i64) -> (r: Option<ScatterInfo>) {
        match self {
            Material::Lambertian(m) => m.scatter_with(ray, rec, dir, draw),
            Material::Metal(m) => m.scatter_with(ray, rec, dir, draw),
            Material::Dielectric(m) => m.scatter_with(ray, rec, dir, draw),
            Material::DiffuseLight(m) => m.scatter_with(ray, rec, dir, draw),
        }
    }

    fn emits(&self, ray: &Ray, rec: &HitRecord) -> (r: Vec3) {
        match self {
            Material::Lambertian(m) => m.emits(ray, rec),
            Material::Metal(m) => m.emits(ray, rec),
            Material::Dielectric(m) => m.emits(ray, rec),
            Material::DiffuseLight(m) => m.emits(ray, rec),
        }
    }
}

} // verus!
