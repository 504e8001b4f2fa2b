//! The per-step decisions of the path integrator and the mapping of colors to bytes.
use vstd::prelude::*;
use crate::fixed::{fx_div, fx_sqrt, lemma_sqrt_at_most_one, tdiv, ONE};
use crate::fixed;
use crate::material::ScatterInfo;
use crate::vec3::{vadd, vdivs, vmul, vscale, Vec3};
use crate::Ray;

verus! {

pub open spec fn max3(v: Vec3) -> int {
    let m = if v.x >= v.y { v.x } else { v.y };
    (if m >= v.z { m } else { v.z }) as int
}

/// Russian roulette: the path survives when the draw falls below the largest
/// channel `p` of the throughput, and the survivor is divided by `p`.
pub open spec fn roulette_spec(throughput: Vec3, draw: int) -> Option<Vec3> {
    let p = max3(throughput);
    if draw >= p {
        None
    } else {
        Some(vdivs(throughput, p))
    }
}

/// Decides whether a path with this throughput survives the draw, and
/// rescales a survivor.
pub fn roulette(throughput: Vec3, draw: i64) -> (r: Option<Vec3>)
    requires
        draw >= 0,
    ensures
        r == roulette_spec(throughput, draw as int),
{
    let p = fixed::max(fixed::max(throughput.x, throughput.y), throughput.z);
    if draw >= p {
        None
    } else {
        Some(throughput.div_scalar(p))
    }
}

/// Where a path stands between two bounces.
#[derive(Clone, Copy, Debug)]
pub struct PathState {
    /// Light gathered so far.
    pub color: Vec3,
    /// Product of the attenuations met so far, rescaled by roulette.
    pub throughput: Vec3,
    /// The ray to follow next.
    pub ray: Ray,
    /// The path has ended.
    pub done: bool,
}

/// What one bounce found: the light given off where the ray landed, the
/// roulette draw, the light of the emissive surface that the shadow ray
/// reached (if it reached one) and the scattered ray (none for a light).
#[derive(Clone, Copy, Debug)]
pub struct Bounce {
    pub emits: Vec3,
    pub draw: i64,
    pub light: Option<Vec3>,
    pub scatter: Option<ScatterInfo>,
}

/// The light of one bounce: the surface's own light plus what the shadow ray
/// found, halved on the first bounce, where the camera may see the light
/// directly as well.
pub open spec fn bounce_light(b: Bounce, first: bool) -> Vec3 {
    match b.light {
        Some(l) => vscale(vadd(b.emits, l), if first { ONE / 2 } else { ONE as int }),
        None => b.emits,
    }
}

/// One step of a path: a miss or a roulette loss ends it; otherwise the
/// bounce's light, weighted by the throughput, is added, and the path goes
/// on along the scattered ray or ends at a light.
pub open spec fn step_spec(st: PathState, first: bool, bounce: Option<Bounce>) -> PathState {
    match bounce {
        None => PathState { done: true, ..st },
        Some(b) => match roulette_spec(st.throughput, b.draw as int) {
            None => PathState { done: true, ..st },
            Some(t) => {
                let e = bounce_light(b, first);
                match b.scatter {
                    Some(s) => {
                        let t2 = vmul(t, s.attenuation);
                        PathState { color: vadd(st.color, vmul(e, t2)), throughput: t2, ray: s.scattered, done: false }
                    },
                    None => PathState { color: vadd(st.color, vmul(e, t)), throughput: t, ray: st.ray, done: true },
                }
            },
        },
    }
}

/// Advances a path by one bounce; `None` stands for a miss.
pub fn step(st: PathState, first: bool, bounce: Option<Bounce>) -> (r: PathState)
    requires
        bounce matches Some(b) ==> b.draw >= 0,
    ensures
        r == step_spec(st, first, bounce),
{
    match bounce {
        None => PathState { done: true, ..st },
        Some(b) => match roulette(st.throughput, b.draw) {
            None => PathState { done: true, ..st },
            Some(t) => {
                let e = match b.light {
                    Some(l) => b.emits.add(&l).scale(if first { ONE / 2 } else { ONE }),
                    None => b.emits,
                };
                match b.scatter {
                    Some(s) => {
                        let t2 = t.mul(&s.attenuation);
                        PathState { color: st.color.add(&e.mul(&t2)), throughput: t2, ray: s.scattered, done: false }
                    },
                    None => PathState { color: st.color.add(&e.mul(&t)), throughput: t, ray: st.ray, done: true },
                }
            },
        },
    }
}

/// One channel of a vector: 0 for x, 1 for y, anything else for z.
pub open spec fn channel(v: Vec3, c: int) -> int {
    if c == 0 {
        v.x as int
    } else if c == 1 {
        v.y as int
    } else {
        v.z as int
    }
}

/// The channel `c` after roulette, summed over the draws `0 .. k`; a path
/// that is ended counts as zero.
pub open spec fn survivor_total(t: Vec3, c: int, k: nat) -> int
    decreases k,
{
    if k == 0 {
        0
    } else {
        survivor_total(t, c, (k - 1) as nat) + match roulette_spec(t, k - 1) {
            Some(s) => channel(s, c),
            None => 0,
        }
    }
}

proof fn lemma_survivor_total(t: Vec3, c: int, k: nat)
    requires
        max3(t) > 0,
    ensures
        survivor_total(t, c, k) == (if k <= max3(t) { k as int } else { max3(t) }) * fx_div(channel(t, c), max3(t)),
    decreases k,
{
    let p = max3(t);
    let q = fx_div(channel(t, c), p);
    if k > 0 {
        lemma_survivor_total(t, c, (k - 1) as nat);
        if k <= p {
            assert((k - 1) * q + q == k * q) by (nonlinear_arith);
        }
    }
}

/// Roulette keeps the expected throughput: over the `ONE` equally likely
/// draws, the surviving channel values sum to `ONE` times the channel, less
/// the rounding of one division (under `p`, the largest channel). This holds
/// when every channel lies in `[0, 1]` and one is positive; a larger channel
/// always survives and is still divided.
pub proof fn lemma_roulette_unbiased(t: Vec3, c: int)
    requires
        0 <= t.x <= ONE,
        0 <= t.y <= ONE,
        0 <= t.z <= ONE,
        max3(t) > 0,
    ensures
        ONE * channel(t, c) - max3(t) < survivor_total(t, c, ONE as nat) <= ONE * channel(t, c),
{
    let p = max3(t);
    let x = channel(t, c);
    lemma_survivor_total(t, c, ONE as nat);
    assert(0 <= x <= p);
    let q0 = (x * ONE) / p;
    assert(q0 <= ONE) by (nonlinear_arith)
        requires
            0 <= x <= p,
            q0 == (x * ONE) / p,
            p > 0,
    ;
    assert(0 <= q0) by (nonlinear_arith)
        requires
            0 <= x,
            q0 == (x * ONE) / p,
            p > 0,
    ;
    assert(tdiv(x * ONE, p) == q0);
    assert(fx_div(x, p) == q0);
    assert(x * ONE - p < p * q0 <= x * ONE) by (nonlinear_arith)
        requires
            q0 == (x * ONE) / p,
            p > 0,
            x >= 0,
    ;
}

/// A channel clamped to `[0, 1]`.
pub open spec fn clamp01(c: int) -> int {
    if c < 0 {
        0
    } else if c > ONE {
        ONE as int
    } else {
        c
    }
}

/// A channel as a byte: clamped to `[0, 1]`, passed through a square-root
/// gamma curve and scaled to `[0, 255]`, rounding to nearest.
pub open spec fn gamma_byte(c: int) -> int {
    (fx_sqrt(clamp01(c)) * 255 + ONE / 2) / (ONE as int)
}

pub fn to_byte(c: i64) -> (r: u8)
    ensures
        r as int == gamma_byte(c as int),
{
    let clamped = fixed::min(fixed::max(c, 0), ONE);
    let s = fixed::sqrt(clamped);
    proof {
        lemma_sqrt_at_most_one(clamped as int);
    }
    ((s * 255 + ONE / 2) / ONE) as u8
}

/// Every channel maps into `[0, 255]`; channels below zero or above one are
/// clamped first, so they map as zero and one do, to 0 and 255.
pub proof fn lemma_gamma_byte_range(c: int)
    ensures
        0 <= gamma_byte(c) <= 255,
        c < 0 ==> gamma_byte(c) == 0,
        c > ONE ==> gamma_byte(c) == 255,
{
    lemma_sqrt_at_most_one(clamp01(c));
    let s = fx_sqrt(clamp01(c));
    assert(0 <= (s * 255 + ONE / 2) / (ONE as int) <= 255) by (nonlinear_arith)
        requires
            0 <= s <= ONE,
    ;
}

} // verus!
