//! The pinhole camera with an optional defocus disk.
use vstd::prelude::*;
use crate::fixed::{fx_add, fx_div, fx_mul, fx_neg, ONE};
use crate::fixed;
use crate::vec3::{vadd, vcross, vdivs, vscale, vsub, vunit, Vec3};
use crate::Ray;

verus! {

/// The largest image side: pixel coordinates must stay representable.
pub const MAX_DIM: usize = 16777216;

/// The precomputed geometry of the view.
#[derive(Clone, Copy, Debug)]
pub struct Camera {
    pub origin: Vec3,
    pub first_px: Vec3,
    pub uv_dx: Vec3,
    pub uv_dy: Vec3,
    pub defoc_u: Vec3,
    pub defoc_v: Vec3,
}

/// The camera looking from `from` towards `at` with `up` pointing up, for an
/// image of `width` by `height` pixels. `half_vfov_tan` is the tangent of half
/// the vertical field of view, `half_aperture_tan` that of half the aperture
/// angle.
pub open spec fn camera_spec(
    from: Vec3,
    at: Vec3,
    up: Vec3,
    half_vfov_tan: int,
    half_aperture_tan: int,
    focus_dist: int,
    width: int,
    height: int,
) -> Camera {
    let vp_h = fx_mul(fx_mul(2 * ONE, half_vfov_tan), focus_dist);
    let vp_w = fx_mul(vp_h, fx_div(width * ONE, height * ONE));
    let w = vunit(vsub(from, at));
    let u = vunit(vcross(up, w));
    let v = vcross(w, u);
    let vp_u = vscale(u, vp_w);
    let vp_v = vscale(v, fx_neg(vp_h));
    let dx = vdivs(vp_u, width * ONE);
    let dy = vdivs(vp_v, height * ONE);
    let top_left = vsub(vsub(vsub(from, vscale(w, focus_dist)), vdivs(vp_u, 2 * ONE)), vdivs(vp_v, 2 * ONE));
    let rad = fx_mul(focus_dist, half_aperture_tan);
    Camera {
        origin: from,
        first_px: vadd(top_left, vscale(vadd(dx, dy), ONE / 2)),
        uv_dx: dx,
        uv_dy: dy,
        defoc_u: vscale(u, rad),
        defoc_v: vscale(v, rad),
    }
}

/// The ray through pixel `(x, y)` moved by the jitter `(jx, jy)`, leaving the
/// lens at the point `disk` of the defocus disk.
pub open spec fn camera_ray(cam: Camera, x: int, y: int, jx: int, jy: int, disk: Vec3) -> Ray {
    let sample = vadd(
        vadd(cam.first_px, vscale(cam.uv_dx, fx_add(x * ONE, jx))),
        vscale(cam.uv_dy, fx_add(y * ONE, jy)),
    );
    let origin = vadd(vadd(cam.origin, vscale(cam.defoc_u, disk.x as int)), vscale(cam.defoc_v, disk.y as int));
    Ray { origin, direction: vunit(vsub(sample, origin)) }
}

impl Camera {
    pub fn new(
        from: Vec3,
        at: Vec3,
        up: Vec3,
        half_vfov_tan: i64,
        half_aperture_tan: i64,
        focus_dist: i64,
        width: usize,
        height: usize,
    ) -> (r: Camera)
        requires
            0 < width <= MAX_DIM,
            0 < height <= MAX_DIM,
        ensures
            r == camera_spec(
                from,
                at,
                up,
                half_vfov_tan as int,
                half_aperture_tan as int,
                focus_dist as int,
                width as int,
                height as int,
            ),
    {
        let wf = width as i64 * ONE;
        let hf = height as i64 * ONE;
        let vp_h = fixed::mul(fixed::mul(2 * ONE, half_vfov_tan), focus_dist);
        let vp_w = fixed::mul(vp_h, fixed::div(wf, hf));
        let w = from.sub(&at).unit();
        let u = up.cross(&w).unit();
        let v = w.cross(&u);
        let vp_u = u.scale(vp_w);
        let vp_v = v.scale(fixed::neg(vp_h));
        let uv_dx = vp_u.div_scalar(wf);
        let uv_dy = vp_v.div_scalar(hf);
        let top_left = from.sub(&w.scale(focus_dist)).sub(&vp_u.div_scalar(2 * ONE)).sub(
            &vp_v.div_scalar(2 * ONE),
        );
        let rad = fixed::mul(focus_dist, half_aperture_tan);
        Camera {
            origin: from,
            first_px: top_left.add(&uv_dx.add(&uv_dy).scale(ONE / 2)),
            uv_dx,
            uv_dy,
            defoc_u: u.scale(rad),
            defoc_v: v.scale(rad),
        }
    }

    /// The ray through a pixel for given jitter and lens point.
    pub fn ray(&self, x: usize, y: usize, jx: i64, jy: i64, disk: Vec3) -> (r: Ray)
        requires
            x <= MAX_DIM,
            y <= MAX_DIM,
        ensures
            r == camera_ray(*self, x as int, y as int, jx as int, jy as int, disk),
    {
        let sample = self.first_px.add(&self.uv_dx.scale(fixed::add(x as i64 * ONE, jx))).add(
            &self.uv_dy.scale(fixed::add(y as i64 * ONE, jy)),
        );
        let origin = self.origin.add(&self.defoc_u.scale(disk.x)).add(&self.defoc_v.scale(disk.y));
        Ray { origin, direction: sample.sub(&origin).unit() }
    }
}

} // verus!
