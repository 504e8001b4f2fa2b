//! A path tracer over fixed-point arithmetic.
use vstd::prelude::*;

pub mod fixed;
pub mod vec3;
pub mod hittable;
pub mod sampler;
pub mod material;
pub mod shading;
pub mod camera;

use crate::camera::{camera_ray, camera_spec, Camera, MAX_DIM};
use crate::fixed::{tdiv, LIM, ONE};
use crate::hittable::{geometry_hit, lemma_hit_normal_in_range, Geometry, HitRecord, Hittable, Plane, Quad, Sphere};
use crate::material::{draw_ok, lemma_material_color, material_color, material_scatter, emits_spec, Dielectric, DiffuseLight, Lambertian, Material, MaterialType, Metal};
use crate::sampler::{in_ball, Sampler};
use crate::shading::{gamma_byte, bounce_light, max3, roulette, roulette_spec, step, step_spec, to_byte, Bounce, PathState};
use crate::vec3::{v3, lemma_nonneg_closed, lemma_zero_absorbs, vadd, vmul, vnonneg, vscale, vsub, vunit, vzero, Vec3};

verus! {

/// A half-line: `origin + t * direction`.
#[derive(Clone, Copy, Debug)]
pub struct Ray {
    pub origin: Vec3,
    pub direction: Vec3,
}

pub open spec fn ray_at(ray: Ray, t: int) -> Vec3 {
    vadd(ray.origin, vscale(ray.direction, t))
}

impl Ray {
    pub fn new(origin: Vec3, direction: Vec3) -> (r: Ray)
        ensures
            r == (Ray { origin, direction }),
    {
        Ray { origin, direction }
    }

    /// The point at parameter `p` along the ray.
    pub fn at(&self, p: i64) -> (r: Vec3)
        ensures
            r == ray_at(*self, p as int),
            r.wf(),
    {
        self.origin.add(&self.direction.scale(p))
    }
}

/// One surface of the scene and what it is made of.
pub struct Object {
    pub geometry: Geometry,
    pub material: Material,
}

/// The scene: every object is tested against every ray.
pub struct World(pub Vec<Object>);

/// The nearest hit among the first `k` objects: each object is searched up
/// to the nearest hit found so far, so a later object replaces an earlier one
/// only when strictly nearer.
pub open spec fn nearest_hit(objs: Seq<Object>, ray: Ray, min: int, max: int, k: nat) -> Option<
    (HitRecord, usize),
>
    decreases k,
{
    if k == 0 {
        None
    } else {
        let prev = nearest_hit(objs, ray, min, max, (k - 1) as nat);
        let bound = match prev {
            Some((rec, _)) => rec.depth as int,
            None => max,
        };
        match geometry_hit(objs[k - 1].geometry, ray, min, bound) {
            Some(rec) => Some((rec, (k - 1) as usize)),
            None => prev,
        }
    }
}

pub proof fn lemma_nearest_hit_index(objs: Seq<Object>, ray: Ray, min: int, max: int, k: nat)
    ensures
        nearest_hit(objs, ray, min, max, k) matches Some((_, i)) ==> i < k,
    decreases k,
{
    if k > 0 {
        lemma_nearest_hit_index(objs, ray, min, max, (k - 1) as nat);
    }
}

pub proof fn lemma_nearest_hit_normal(objs: Seq<Object>, ray: Ray, min: int, max: int, k: nat)
    requires
        k <= objs.len(),
        forall|i: int| 0 <= i < objs.len() ==> (#[trigger] objs[i]).geometry.wf(),
    ensures
        nearest_hit(objs, ray, min, max, k) matches Some((rec, _)) ==> rec.normal.wf(),
    decreases k,
{
    if k > 0 {
        lemma_nearest_hit_normal(objs, ray, min, max, (k - 1) as nat);
        let prev = nearest_hit(objs, ray, min, max, (k - 1) as nat);
        let bound = match prev {
            Some((rec, _)) => rec.depth as int,
            None => max,
        };
        assert(objs[k - 1].geometry.wf());
        lemma_hit_normal_in_range(objs[k - 1].geometry, ray, min, bound);
    }
}

/// A scene without objects gives off no light, so it renders black.
pub proof fn lemma_empty_world_is_dark(w: World)
    requires
        w.0@.len() == 0,
    ensures
        w.dark(),
        w.wf(),
{
}

impl World {
    /// Every object is well formed.
    pub open spec fn wf(&self) -> bool {
        forall|i: int| 0 <= i < self.0@.len() ==> (#[trigger] self.0@[i]).geometry.wf() && self.0@[i].material.wf()
    }

    /// Every material's color is non-negative.
    pub open spec fn nonneg(&self) -> bool {
        forall|i: int| 0 <= i < self.0@.len() ==> vnonneg(material_color((#[trigger] self.0@[i]).material))
    }

    /// No object gives off light.
    pub open spec fn dark(&self) -> bool {
        forall|i: int| 0 <= i < self.0@.len() ==> emits_spec((#[trigger] self.0@[i]).material) == vzero()
    }

    /// Tells whether the world is well formed.
    pub fn is_valid(&self) -> (r: bool)
        ensures
            r == self.wf(),
    {
        let mut i: usize = 0;
        while i < self.0.len()
            invariant
                i <= self.0.len(),
                forall|j: int| 0 <= j < i ==> (#[trigger] self.0@[j]).geometry.wf() && self.0@[j].material.wf(),
            decreases self.0.len() - i,
        {
            let o = &self.0[i];
            let ok = o.geometry.is_valid() && o.material.is_valid();
            if !ok {
                return false;
            }
            i = i + 1;
        }
        true
    }

    /// The nearest hit in `(min, max)` and the index of the object hit.
    pub fn hit(&self, ray: &Ray, min: i64, max: i64) -> (r: Option<(HitRecord, usize)>)
        ensures
            r == nearest_hit(self.0@, *ray, min as int, max as int, self.0@.len()),
            r matches Some((_, i)) ==> i < self.0.len(),
            self.wf() ==> (r matches Some((rec, _)) ==> rec.normal.wf()),
    {
        let mut best: Option<(HitRecord, usize)> = None;
        let mut closest: i64 = max;
        let mut i: usize = 0;
        while i < self.0.len()
            invariant
                i <= self.0.len(),
                best == nearest_hit(self.0@, *ray, min as int, max as int, i as nat),
                closest == match best {
                    Some((rec, _)) => rec.depth,
                    None => max,
                },
            decreases self.0.len() - i,
        {
            if let Some(rec) = self.0[i].geometry.hit(ray, min, closest) {
                closest = rec.depth;
                best = Some((rec, i));
            }
            i = i + 1;
        }
        proof {
            lemma_nearest_hit_index(self.0@, *ray, min as int, max as int, self.0@.len());
            if self.wf() {
                lemma_nearest_hit_normal(self.0@, *ray, min as int, max as int, self.0@.len());
            }
        }
        best
    }
}

/// Primary and scattered rays start this far (raw) from their origin.
pub const HIT_MIN: i64 = 66;

/// Shadow rays start this far (raw) from the surface.
pub const SHADOW_MIN: i64 = 655;

/// Stands for an unbounded search interval.
pub const FAR: i64 = LIM;

/// Camera, scene and sampling settings for one render.
pub struct Raytracer {
    pub look_from: Vec3,
    pub look_at: Vec3,
    pub camera_up: Vec3,
    /// Tangent of half the vertical field of view.
    pub half_vfov_tan: i64,
    /// Tangent of half the aperture angle; zero for a pinhole.
    pub half_aperture_tan: i64,
    pub focus_dist: i64,
    pub world: World,
    /// Points towards which shadow rays are cast.
    pub lights: Vec<Vec3>,
    pub samples: usize,
    pub bounces: usize,
}

/// Channel `k` of pixel `p` of the pixels stored from byte `start` on, four
/// bytes (red, green, blue, alpha) each.
pub open spec fn channel_at(fb: Seq<u8>, start: int, p: int, k: int) -> u8 {
    fb[start + 4 * p + k]
}

/// The `n` pixels from byte `start` on are fully opaque.
pub open spec fn opaque(fb: Seq<u8>, start: int, n: int) -> bool {
    forall|p: int| 0 <= p < n ==> #[trigger] channel_at(fb, start, p, 3) == 255
}

/// The `n` pixels from byte `start` on are black.
pub open spec fn black(fb: Seq<u8>, start: int, n: int) -> bool {
    forall|p: int, k: int| 0 <= p < n && 0 <= k < 3 ==> #[trigger] channel_at(fb, start, p, k) == 0
}

/// The saturating sum of some colors.
pub open spec fn vsum(cs: Seq<Vec3>) -> Vec3
    decreases cs.len(),
{
    if cs.len() == 0 {
        vzero()
    } else {
        vadd(vsum(cs.drop_last()), cs.last())
    }
}

/// The mean of the colors: their sum divided by their count.
pub open spec fn mean(cs: Seq<Vec3>) -> Vec3 {
    let t = vsum(cs);
    if cs.len() == 0 {
        t
    } else {
        v3(tdiv(t.x as int, cs.len() as int), tdiv(t.y as int, cs.len() as int), tdiv(t.z as int, cs.len() as int))
    }
}

/// `c` is the color of a path admitted from the ray through pixel `(x, y)`,
/// jittered by `(jx, jy)` in `[-1/2, 1/2)` and leaving the lens at a point of
/// the unit disk.
pub open spec fn sample_admitted(rt: Raytracer, cam: Camera, x: int, y: int, c: Vec3) -> bool {
    exists|jx: int, jy: int, disk: Vec3|
        -ONE / 2 <= jx < ONE / 2 && -ONE / 2 <= jy < ONE / 2 && in_ball(disk) && disk.z == 0
            && #[trigger] color_admitted(rt, camera_ray(cam, x, y, jx, jy, disk), c)
}

/// The bytes `(r, g, b)` are the gamma-mapped mean of `samples` colors, each
/// admitted for pixel `(x, y)`.
#[verifier::opaque]
pub open spec fn pixel_ok(rt: Raytracer, cam: Camera, x: int, y: int, r: u8, g: u8, b: u8) -> bool {
    exists|cs: Seq<Vec3>|
        cs.len() == rt.samples && (forall|s: int| 0 <= s < cs.len() ==> sample_admitted(rt, cam, x, y, #[trigger] cs[s]))
            && r as int == gamma_byte(mean(cs).x as int) && g as int == gamma_byte(mean(cs).y as int) && b as int
            == gamma_byte(mean(cs).z as int)
}

/// Pixel `p` of the pixels stored from byte `start` on is right for pixel
/// `(p, y)` of the image.
pub open spec fn row_ok(rt: Raytracer, cam: Camera, fb: Seq<u8>, start: int, p: int, y: int) -> bool {
    pixel_ok(rt, cam, p, y, channel_at(fb, start, p, 0), channel_at(fb, start, p, 1), channel_at(fb, start, p, 2))
}

/// Whether a stored pixel is right depends on its three color bytes alone.
proof fn lemma_row_ok_frame(rt: Raytracer, cam: Camera, a: Seq<u8>, b: Seq<u8>, start: int, p: int, y: int)
    requires
        channel_at(a, start, p, 0) == channel_at(b, start, p, 0),
        channel_at(a, start, p, 1) == channel_at(b, start, p, 1),
        channel_at(a, start, p, 2) == channel_at(b, start, p, 2),
    ensures
        row_ok(rt, cam, a, start, p, y) == row_ok(rt, cam, b, start, p, y),
{
}

/// Pixel `(x, y)` of an image `width` pixels wide is right.
pub open spec fn image_ok(rt: Raytracer, cam: Camera, fb: Seq<u8>, width: int, x: int, y: int) -> bool {
    row_ok(rt, cam, fb, 4 * (width * y), x, y)
}

/// The state a path starts in: nothing gathered, full throughput.
pub open spec fn init_state(ray: Ray) -> PathState {
    PathState { color: vzero(), throughput: Vec3 { x: ONE, y: ONE, z: ONE }, ray, done: false }
}

/// The state after the bounces `bs`, one step each.
pub open spec fn state_after(init: PathState, bs: Seq<Option<Bounce>>) -> PathState
    decreases bs.len(),
{
    if bs.len() == 0 {
        init
    } else {
        step_spec(state_after(init, bs.drop_last()), bs.len() == 1, bs.last())
    }
}

/// What a shadow ray from `p` towards the light point `l` finds: the light of
/// the emissive surface it reaches first, if that surface is emissive.
pub open spec fn shadow_light(rt: Raytracer, p: Vec3, l: Vec3) -> Option<Vec3> {
    let objs = rt.world.0@;
    let sl_ray = Ray { origin: p, direction: vunit(vsub(l, p)) };
    match nearest_hit(objs, sl_ray, SHADOW_MIN as int, FAR as int, objs.len()) {
        Some((_, si)) => if objs[si as int].material is DiffuseLight {
            Some(emits_spec(objs[si as int].material))
        } else {
            None
        },
        None => None,
    }
}

/// The shadow-ray light of a bounce at `p`: none without light points, else
/// what a shadow ray towards one of them finds.
pub open spec fn light_ok(rt: Raytracer, p: Vec3, light: Option<Vec3>) -> bool {
    if rt.lights@.len() == 0 {
        light is None
    } else {
        exists|l: Vec3| rt.lights@.contains(l) && light == shadow_light(rt, p, l)
    }
}

/// `b` is a bounce that the scene can give the path in state `st`: `None`
/// exactly when the ray hits nothing; otherwise the emission of the object
/// hit, a draw in `[0, 1)`, and, when the path survives the roulette, a
/// shadow-ray light and the material's scattering for some point of the unit
/// ball and some draw.
pub open spec fn admitted_bounce(rt: Raytracer, st: PathState, b: Option<Bounce>) -> bool {
    let objs = rt.world.0@;
    match nearest_hit(objs, st.ray, HIT_MIN as int, FAR as int, objs.len()) {
        None => b is None,
        Some((rec, idx)) => match b {
            None => false,
            Some(bb) => {
                &&& bb.emits == emits_spec(objs[idx as int].material)
                &&& 0 <= bb.draw < ONE
                &&& if roulette_spec(st.throughput, bb.draw as int) is None {
                    bb.light is None && bb.scatter is None
                } else {
                    light_ok(rt, rec.p, bb.light) && exists|dir: Vec3, d: int|
                        draw_ok(dir, d) && bb.scatter == material_scatter(
                            objs[idx as int].material,
                            st.ray,
                            rec,
                            dir,
                            d,
                        )
                }
            },
        },
    }
}

/// Each of the bounces `bs` is one the scene admits, taken while the path
/// had not ended.
pub open spec fn admitted(rt: Raytracer, init: PathState, bs: Seq<Option<Bounce>>) -> bool
    decreases bs.len(),
{
    if bs.len() == 0 {
        true
    } else {
        let prev = bs.drop_last();
        admitted(rt, init, prev) && !state_after(init, prev).done && admitted_bounce(
            rt,
            state_after(init, prev),
            bs.last(),
        )
    }
}

/// `bs` is a whole path from `ray`: admitted bounces, at most `bounces` of
/// them, and fewer only when the path has ended.
pub open spec fn path_ok(rt: Raytracer, ray: Ray, bs: Seq<Option<Bounce>>) -> bool {
    &&& admitted(rt, init_state(ray), bs)
    &&& bs.len() <= rt.bounces
    &&& bs.len() < rt.bounces ==> state_after(init_state(ray), bs).done
}

/// `c` is the color of some path that the scene admits from `ray`.
pub open spec fn color_admitted(rt: Raytracer, ray: Ray, c: Vec3) -> bool {
    exists|bs: Seq<Option<Bounce>>| path_ok(rt, ray, bs) && c == state_after(init_state(ray), bs).color
}

/// A ray that hits nothing admits no bounce.
proof fn lemma_miss_admits_none(rt: Raytracer, st: PathState, b: Option<Bounce>)
    requires
        admitted_bounce(rt, st, b),
        nearest_hit(rt.world.0@, st.ray, HIT_MIN as int, FAR as int, rt.world.0@.len()) is None,
    ensures
        b is None,
{
}

/// One step keeps color and throughput non-negative when every material
/// color is.
proof fn lemma_step_nonneg(rt: Raytracer, st: PathState, first: bool, b: Option<Bounce>)
    requires
        rt.world.nonneg(),
        admitted_bounce(rt, st, b),
        vnonneg(st.color),
        vnonneg(st.throughput),
    ensures
        vnonneg(step_spec(st, first, b).color),
        vnonneg(step_spec(st, first, b).throughput),
{
    let objs = rt.world.0@;
    lemma_nearest_hit_index(objs, st.ray, HIT_MIN as int, FAR as int, objs.len());
    if let Some((rec, idx)) = nearest_hit(objs, st.ray, HIT_MIN as int, FAR as int, objs.len()) {
        let bb = b.unwrap();
        let m = objs[idx as int].material;
        lemma_material_color(m, st.ray, rec, vzero(), 0);
        assert(vnonneg(material_color(m)));
        assert(vnonneg(bb.emits)) by {
            lemma_nonneg_closed(vzero(), vzero(), 0);
        }
        if let Some(t) = roulette_spec(st.throughput, bb.draw as int) {
            lemma_nonneg_closed(st.throughput, st.throughput, max3(st.throughput));
            assert(vnonneg(t));
            let e = bounce_light(bb, first);
            if let Some(l) = bb.light {
                let l0 = choose|l0: Vec3| rt.lights@.contains(l0) && bb.light == shadow_light(rt, rec.p, l0);
                let sl_ray = Ray { origin: rec.p, direction: vunit(vsub(l0, rec.p)) };
                lemma_nearest_hit_index(objs, sl_ray, SHADOW_MIN as int, FAR as int, objs.len());
                let (_, si) = nearest_hit(objs, sl_ray, SHADOW_MIN as int, FAR as int, objs.len()).unwrap();
                lemma_material_color(objs[si as int].material, st.ray, rec, vzero(), 0);
                assert(vnonneg(material_color(objs[si as int].material)));
                assert(vnonneg(l)) by {
                    lemma_nonneg_closed(vzero(), vzero(), 0);
                }
                lemma_nonneg_closed(bb.emits, l, 0);
                lemma_nonneg_closed(vadd(bb.emits, l), l, if first { ONE / 2 } else { ONE as int });
            }
            assert(vnonneg(e));
            if let Some(sc) = bb.scatter {
                let (dir, d) = choose|dir: Vec3, d: int| draw_ok(dir, d) && bb.scatter == material_scatter(m, st.ray, rec, dir, d);
                lemma_material_color(m, st.ray, rec, dir, d);
                lemma_nonneg_closed(t, sc.attenuation, 0);
                let t2 = vmul(t, sc.attenuation);
                lemma_nonneg_closed(e, t2, 0);
                lemma_nonneg_closed(st.color, vmul(e, t2), 0);
            } else {
                lemma_nonneg_closed(e, t, 0);
                lemma_nonneg_closed(st.color, vmul(e, t), 0);
            }
        }
    }
}

fn plane(position: Vec3, normal: Vec3, albedo: Vec3) -> (r: Object)
    requires
        position.wf(),
        normal.wf(),
    ensures
        r.geometry.wf(),
        r.material.wf(),
        emits_spec(r.material) == vzero(),
{
    Object {
        geometry: Geometry::Plane(Plane { position, normal }),
        material: Material::Lambertian(Lambertian { albedo }),
    }
}

impl Raytracer {
    /// A box of five walls lit by one square light, holding a glass sphere
    /// and a brushed metal sphere.
    pub fn new() -> (r: Self)
        ensures
            r.world.wf(),
            r.world.0.len() == 8,
            forall|i: int| 0 <= i < 8 && i != 5 ==> emits_spec(#[trigger] r.world.0@[i].material) == vzero(),
            emits_spec(r.world.0@[5].material) == (Vec3 { x: 262144, y: 262144, z: 262144 }),
            r.world.0@[5].geometry is Quad,
            r.lights@ == seq![Vec3 { x: 0, y: 64881, z: -65536i64 }],
            r.look_from == (Vec3 { x: 0, y: 0, z: 0 }),
            r.look_at == (Vec3 { x: 0, y: 0, z: -65536i64 }),
            r.camera_up == (Vec3 { x: 0, y: 65536, z: 0 }),
            r.half_vfov_tan == ONE,
            r.half_aperture_tan == 0,
            r.focus_dist == 105419,
            r.samples == 16,
            r.bounces == 20,
    {
        let grey = Vec3::new(47841, 47841, 47841);
        let mut objects: Vec<Object> = Vec::new();
        objects.push(plane(Vec3::new(0, -ONE, 0), Vec3::new(0, -ONE, 0), grey));
        objects.push(plane(Vec3::new(0, ONE, 0), Vec3::new(0, ONE, 0), grey));
        objects.push(plane(Vec3::new(0, 0, -2 * ONE), Vec3::new(0, 0, -ONE), grey));
        objects.push(plane(Vec3::new(ONE, 0, 0), Vec3::new(ONE, 0, 0), Vec3::new(42598, 3277, 3277)));
        objects.push(plane(Vec3::new(-ONE, 0, 0), Vec3::new(-ONE, 0, 0), Vec3::new(7864, 29491, 9830)));
        let light = Quad {
            position: Vec3::new(-32768, 64881, -32768),
            u: Vec3::new(ONE, 0, 0),
            v: Vec3::new(0, 0, -ONE),
        };
        let glow = Vec3::new(4 * ONE, 4 * ONE, 4 * ONE);
        objects.push(
            Object { geometry: Geometry::Quad(light), material: Material::DiffuseLight(DiffuseLight { emits: glow }) },
        );
        let glass = Dielectric { attenuation: Vec3::new(52429, 52429, ONE), refraction_index: 158401 };
        objects.push(
            Object {
                geometry: Geometry::Sphere(Sphere { center: Vec3::new(16384, -3277, -91750), radius: 16384 }),
                material: Material::Dielectric(glass),
            },
        );
        let brushed = Metal { albedo: Vec3::new(47186, 29491, 13107), fuzz: 26214 };
        objects.push(
            Object {
                geometry: Geometry::Sphere(Sphere { center: Vec3::new(-16384, -26214, -95027), radius: 16384 }),
                material: Material::Metal(brushed),
            },
        );
        assert forall|i: int| 0 <= i < objects@.len() implies (#[trigger] objects@[i]).geometry.wf()
            && objects@[i].material.wf() by {
            assert(objects@.len() == 8);
        }
        let mut lights: Vec<Vec3> = Vec::new();
        lights.push(Vec3::new(0, 64881, -ONE));
        assert(lights@ =~= seq![Vec3 { x: 0, y: 64881, z: -65536i64 }]);
        Raytracer {
            look_from: Vec3::new(0, 0, 0),
            look_at: Vec3::new(0, 0, -ONE),
            camera_up: Vec3::new(0, ONE, 0),
            half_vfov_tan: ONE,
            half_aperture_tan: 0,
            focus_dist: 105419,
            world: World(objects),
            lights,
            samples: 16,
            bounces: 20,
        }
    }

    /// The settings meet what rendering requires of them.
    pub fn is_valid(&self) -> (r: bool)
        ensures
            r == self.world.wf(),
    {
        self.world.is_valid()
    }

    /// Nothing can light the image: no object emits, or paths take no step.
    pub open spec fn unlit(&self) -> bool {
        self.world.dark() || self.bounces == 0
    }

    /// The camera of these settings for an image of `width` by `height` pixels.
    pub open spec fn camera_of(&self, width: int, height: int) -> Camera {
        camera_spec(
            self.look_from,
            self.look_at,
            self.camera_up,
            self.half_vfov_tan as int,
            self.half_aperture_tan as int,
            self.focus_dist as int,
            width,
            height,
        )
    }

    /// The camera for an image of `width` by `height` pixels.
    pub fn camera(&self, width: usize, height: usize) -> (r: Camera)
        requires
            0 < width <= MAX_DIM,
            0 < height <= MAX_DIM,
        ensures
            r == crate::camera::camera_spec(
                self.look_from,
                self.look_at,
                self.camera_up,
                self.half_vfov_tan as int,
                self.half_aperture_tan as int,
                self.focus_dist as int,
                width as int,
                height as int,
            ),
    {
        Camera::new(
            self.look_from,
            self.look_at,
            self.camera_up,
            self.half_vfov_tan,
            self.half_aperture_tan,
            self.focus_dist,
            width,
            height,
        )
    }

    /// One light point chosen at random, if there are any.
    fn get_sample_light(&self, rng: &mut Sampler) -> (r: Option<Vec3>)
        ensures
            r matches Some(l) ==> self.lights@.contains(l),
            r is None <==> self.lights.len() == 0,
    {
        if self.lights.len() == 0 {
            None
        } else {
            let i = rng.index(self.lights.len());
            Some(self.lights[i])
        }
    }

    /// The light carried back along `ray`, estimated from one random path
    /// of at most `bounces` steps: the color of some path that the scene
    /// admits. A ray that hits nothing, a scene in which nothing emits and a
    /// bounce limit of zero all give black.
    #[verifier::rlimit(30)]
    pub fn color(&self, ray: Ray, rng: &mut Sampler) -> (r: Vec3)
        requires
            self.world.wf(),
        ensures
            color_admitted(*self, ray, r),
            r.wf(),
            self.world.dark() ==> r == vzero(),
            self.bounces == 0 ==> r == vzero(),
            nearest_hit(self.world.0@, ray, HIT_MIN as int, FAR as int, self.world.0@.len()) is None ==> r
                == vzero(),
            self.world.nonneg() ==> vnonneg(r),
    {
        let mut st = PathState { color: Vec3::zero(), throughput: Vec3::new(ONE, ONE, ONE), ray, done: false };
        let ghost init = st;
        let ghost bs: Seq<Option<Bounce>> = Seq::empty();
        let ghost missed = nearest_hit(self.world.0@, ray, HIT_MIN as int, FAR as int, self.world.0@.len()) is None;
        let mut i: usize = 0;
        while i < self.bounces && !st.done
            invariant
                self.world.wf(),
                init == init_state(ray),
                i <= self.bounces,
                bs.len() == i,
                admitted(*self, init, bs),
                st == state_after(init, bs),
                st.color.wf(),
                self.world.dark() ==> st.color == vzero(),
                self.bounces == 0 ==> st.color == vzero(),
                i == 0 ==> st == init,
                missed == (nearest_hit(self.world.0@, ray, HIT_MIN as int, FAR as int, self.world.0@.len()) is None),
                missed ==> st.color == vzero() && (i > 0 ==> st.done),
                self.world.nonneg() ==> vnonneg(st.color) && vnonneg(st.throughput),
            decreases self.bounces - i,
        {
            let bounce = self.bounce(&st, rng);
            proof {
                if self.world.dark() {
                    if let Some(b) = bounce {
                        if let Some(t) = roulette_spec(st.throughput, b.draw as int) {
                            lemma_zero_absorbs(t, if i == 0 { ONE / 2 } else { ONE as int });
                            if let Some(s) = b.scatter {
                                lemma_zero_absorbs(vmul(t, s.attenuation), 0);
                            }
                        }
                    }
                }
                if self.world.nonneg() {
                    lemma_step_nonneg(*self, st, i == 0, bounce);
                }
                if missed {
                    assert(i == 0);
                    assert(st.ray == init_state(ray).ray);
                    lemma_miss_admits_none(*self, st, bounce);
                }
            }
            let ghost prev = st;
            st = step(st, i == 0, bounce);
            proof {
                let bs2 = bs.push(bounce);
                assert(bs2.drop_last() =~= bs);
                assert(st == state_after(init, bs2));
                assert(admitted(*self, init, bs2));
                bs = bs2;
            }
            i = i + 1;
        }
        assert(path_ok(*self, ray, bs));
        st.color
    }

    /// Follows the path's ray one bounce: what it hits, the roulette draw, the
    /// light that a shadow ray towards a random light point finds on an
    /// emissive surface, and the scattered ray, each drawn only when the path
    /// still needs it.
    fn bounce(&self, st: &PathState, rng: &mut Sampler) -> (r: Option<Bounce>)
        requires
            self.world.wf(),
        ensures
            admitted_bounce(*self, *st, r),
            r matches Some(b) ==> b.draw >= 0,
            self.world.dark() ==> (r matches Some(b) ==> b.emits == vzero() && (b.light matches Some(l)
                ==> l == vzero())),
    {
        let (rec, idx) = match self.world.hit(&st.ray, HIT_MIN, FAR) {
            None => return None,
            Some(h) => h,
        };
        let mat = &self.world.0[idx].material;
        let emits = mat.emits(&st.ray, &rec);
        let draw = rng.unit();
        if roulette(st.throughput, draw).is_none() {
            return Some(Bounce { emits, draw, light: None, scatter: None });
        }
        let mut light = None;
        if let Some(sl_at) = self.get_sample_light(rng) {
            let sl_ray = Ray { origin: rec.p, direction: sl_at.sub(&rec.p).unit() };
            if let Some((sl_rec, sl_idx)) = self.world.hit(&sl_ray, SHADOW_MIN, FAR) {
                let target = &self.world.0[sl_idx].material;
                if target.is_emissive() {
                    light = Some(target.emits(&sl_ray, &sl_rec));
                }
            }
            assert(self.lights@.contains(sl_at) && light == shadow_light(*self, rec.p, sl_at));
        }
        assert(light_ok(*self, rec.p, light));
        assert(self.world.0@[idx as int].material.wf());
        let scatter = mat.scatter(&st.ray, &rec, rng);
        Some(Bounce { emits, draw, light, scatter })
    }

    /// The mean color of one pixel over `samples` jittered rays, as bytes.
    fn pixel(&self, cam: &Camera, x: usize, y: usize, rng: &mut Sampler) -> (r: (u8, u8, u8))
        requires
            self.world.wf(),
            x <= MAX_DIM,
            y <= MAX_DIM,
        ensures
            pixel_ok(*self, *cam, x as int, y as int, r.0, r.1, r.2),
            self.unlit() ==> r == (0u8, 0u8, 0u8),
    {
        let mut sum = Vec3::zero();
        let ghost cs: Seq<Vec3> = Seq::empty();
        let mut s: usize = 0;
        while s < self.samples
            invariant
                self.world.wf(),
                x <= MAX_DIM,
                y <= MAX_DIM,
                s <= self.samples,
                cs.len() == s,
                sum == vsum(cs),
                forall|j: int| 0 <= j < cs.len() ==> sample_admitted(*self, *cam, x as int, y as int, #[trigger] cs[j]),
                sum.wf(),
                self.unlit() ==> sum == vzero(),
            decreases self.samples - s,
        {
            let jx = rng.unit() - ONE / 2;
            let jy = rng.unit() - ONE / 2;
            let disk = rng.in_unit_disk();
            let ray = cam.ray(x, y, jx, jy, disk);
            let c = self.color(ray, rng);
            proof {
                lemma_zero_absorbs(c, 0);
                assert(color_admitted(*self, camera_ray(*cam, x as int, y as int, jx as int, jy as int, disk), c));
                assert(sample_admitted(*self, *cam, x as int, y as int, c));
                let cs2 = cs.push(c);
                assert(cs2.drop_last() =~= cs);
                cs = cs2;
            }
            sum = sum.add(&c);
            s = s + 1;
        }
        let avg = if self.samples == 0 {
            sum
        } else {
            sum.div_count(self.samples)
        };
        let r = (to_byte(avg.x), to_byte(avg.y), to_byte(avg.z));
        assert(avg == mean(cs));
        proof {
            reveal(pixel_ok);
        }
        r
    }

    /// Renders row `y` of `width` pixels into `fb` from byte `start` on.
    fn fill_row(&self, cam: &Camera, width: usize, y: usize, fb: &mut [u8], start: usize, rng: &mut Sampler)
        requires
            self.world.wf(),
            width <= MAX_DIM,
            y <= MAX_DIM,
            start + 4 * width <= old(fb)@.len(),
        ensures
            final(fb)@.len() == old(fb)@.len(),
            forall|j: int| 0 <= j < old(fb)@.len() && (j < start || j >= start + 4 * width) ==> final(fb)@[j] == old(fb)@[j],
            opaque(final(fb)@, start as int, width as int),
            self.unlit() ==> black(final(fb)@, start as int, width as int),
            forall|p: int| 0 <= p < width ==> #[trigger] row_ok(*self, *cam, final(fb)@, start as int, p, y as int),
    {
        let n = fb.len();
        let mut x: usize = 0;
        while x < width
            invariant
                n == fb@.len(),
                self.world.wf(),
                width <= MAX_DIM,
                y <= MAX_DIM,
                x <= width,
                start + 4 * width <= fb@.len(),
                fb@.len() == old(fb)@.len(),
                forall|j: int| 0 <= j < old(fb)@.len() && (j < start || j >= start + 4 * x) ==> fb@[j] == old(fb)@[j],
                opaque(fb@, start as int, x as int),
                self.unlit() ==> black(fb@, start as int, x as int),
                forall|p: int| 0 <= p < x ==> #[trigger] row_ok(*self, *cam, fb@, start as int, p, y as int),
            decreases width - x,
        {
            let (r, g, b) = self.pixel(cam, x, y, rng);
            let at = start + 4 * x;
            let ghost before = fb@;
            fb[at] = r;
            fb[at + 1] = g;
            fb[at + 2] = b;
            fb[at + 3] = 255;
            assert forall|p: int| 0 <= p < x + 1 implies #[trigger] row_ok(*self, *cam, fb@, start as int, p, y as int) by {
                if p < x {
                    assert(row_ok(*self, *cam, before, start as int, p, y as int));
                    lemma_row_ok_frame(*self, *cam, before, fb@, start as int, p, y as int);
                }
            }
            assert forall|p: int| 0 <= p < x + 1 implies #[trigger] channel_at(fb@, start as int, p, 3) == 255 by {
                if p < x {
                    assert(channel_at(before, start as int, p, 3) == 255);
                }
            }
            assert(self.unlit() ==> black(fb@, start as int, x + 1)) by {
                if self.unlit() {
                    assert forall|p: int, k: int| 0 <= p < x + 1 && 0 <= k < 3 implies #[trigger] channel_at(fb@, start as int, p, k) == 0 by {
                        if p < x {
                            assert(channel_at(before, start as int, p, k) == 0);
                        }
                    }
                }
            }
            x = x + 1;
        }
    }

    /// Renders row `y` of an image `width` pixels wide into `row`, drawing
    /// from a generator seeded with `seed`.
    pub fn render_row(&self, cam: &Camera, width: usize, y: usize, row: &mut [u8], seed: u64)
        requires
            self.world.wf(),
            width <= MAX_DIM,
            y <= MAX_DIM,
            old(row)@.len() == 4 * width,
        ensures
            final(row)@.len() == old(row)@.len(),
            opaque(final(row)@, 0, width as int),
            self.unlit() ==> black(final(row)@, 0, width as int),
            forall|p: int| 0 <= p < width ==> #[trigger] row_ok(*self, *cam, final(row)@, 0, p, y as int),
    {
        let mut rng = Sampler::new(seed);
        self.fill_row(cam, width, y, row, 0, &mut rng);
    }

    /// Renders a `width` by `height` image into `fb`, row after row from the
    /// top, four bytes per pixel (red, green, blue, alpha). Row `y` draws from
    /// a generator seeded with `seed ^ y`.
    pub fn render(&self, width: usize, height: usize, fb: &mut [u8], seed: u64)
        requires
            self.world.wf(),
            width <= MAX_DIM,
            height <= MAX_DIM,
            old(fb)@.len() == 4 * width * height,
        ensures
            final(fb)@.len() == old(fb)@.len(),
            opaque(final(fb)@, 0, width * height),
            self.unlit() ==> black(final(fb)@, 0, width * height),
            forall|x: int, y: int|
                0 <= x < width && 0 <= y < height ==> #[trigger] image_ok(
                    *self,
                    self.camera_of(width as int, height as int),
                    final(fb)@,
                    width as int,
                    x,
                    y,
                ),
    {
        if width == 0 || height == 0 {
            assert(width * height == 0) by (nonlinear_arith)
                requires
                    width == 0 || height == 0,
            ;
            return;
        }
        let cam = self.camera(width, height);
        let n = fb.len();
        let mut y: usize = 0;
        while y < height
            invariant
                n == fb@.len(),
                self.world.wf(),
                0 < width <= MAX_DIM,
                0 < height <= MAX_DIM,
                y <= height,
                fb@.len() == 4 * width * height,
                opaque(fb@, 0, width * y),
                self.unlit() ==> black(fb@, 0, width * y),
                cam == self.camera_of(width as int, height as int),
                forall|x2: int, y2: int| 0 <= x2 < width && 0 <= y2 < y ==> #[trigger] image_ok(*self, cam, fb@, width as int, x2, y2),
            decreases height - y,
        {
            assert(width * (y + 1) <= width * height && width * (y + 1) == width * y + width) by (nonlinear_arith)
                requires
                    y < height,
                    width > 0,
            ;
            assert(4 * width * height == 4 * (width * height)) by (nonlinear_arith);
            assert(width * y <= width * height) by (nonlinear_arith)
                requires
                    y < height,
                    width > 0,
            ;
            let start = 4 * (width * y);
            let ghost before = fb@;
            let mut rng = Sampler::new(seed ^ (y as u64));
            self.fill_row(&cam, width, y, fb, start, &mut rng);
            assert forall|x2: int, y2: int| 0 <= x2 < width && 0 <= y2 < y + 1 implies #[trigger] image_ok(*self, cam, fb@, width as int, x2, y2) by {
                if y2 < y {
                    assert(width * y2 + width <= width * y) by (nonlinear_arith)
                        requires
                            y2 < y,
                            width > 0,
                    ;
                    assert(width * y2 >= 0) by (nonlinear_arith)
                        requires
                            y2 >= 0,
                            width > 0,
                    ;
                    let s2 = 4 * (width * y2);
                    assert(image_ok(*self, cam, before, width as int, x2, y2));
                    lemma_row_ok_frame(*self, cam, before, fb@, s2, x2, y2);
                } else {
                    assert(row_ok(*self, cam, fb@, start as int, x2, y as int));
                }
            }
            assert forall|p: int| 0 <= p < width * (y + 1) implies #[trigger] channel_at(fb@, 0, p, 3) == 255 by {
                if p >= width * y {
                    assert(channel_at(fb@, start as int, p - width * y, 3) == 255);
                } else {
                    assert(channel_at(before, 0, p, 3) == 255);
                }
            }
            assert(self.unlit() ==> black(fb@, 0, width * (y + 1))) by {
                if self.unlit() {
                    assert forall|p: int, k: int| 0 <= p < width * (y + 1) && 0 <= k < 3 implies #[trigger] channel_at(fb@, 0, p, k) == 0 by {
                        if p >= width * y {
                            assert(channel_at(fb@, start as int, p - width * y, k) == 0);
                        } else {
                            assert(channel_at(before, 0, p, k) == 0);
                        }
                    }
                }
            }
            y = y + 1;
        }
    }
}

} // verus!
