//! Three-component vectors of fixed-point scalars.
use vstd::prelude::*;
use crate::fixed::{fx_add, fx_div, fx_mul, fx_neg, fx_sub, in_range, isqrt, lemma_neg_symmetric, tdiv, LIM, ONE};
use crate::fixed;

verus! {

#[derive(Clone, Copy, Debug, PartialEq, Eq, Structural)]
pub struct Vec3 {
    pub x: i64,
    pub y: i64,
    pub z: i64,
}

/// A vector built from three exact values; callers pass in-range values.
pub open spec fn v3(x: int, y: int, z: int) -> Vec3 {
    Vec3 { x: x as i64, y: y as i64, z: z as i64 }
}

pub open spec fn vadd(a: Vec3, b: Vec3) -> Vec3 {
    v3(fx_add(a.x as int, b.x as int), fx_add(a.y as int, b.y as int), fx_add(a.z as int, b.z as int))
}

pub open spec fn vsub(a: Vec3, b: Vec3) -> Vec3 {
    v3(fx_sub(a.x as int, b.x as int), fx_sub(a.y as int, b.y as int), fx_sub(a.z as int, b.z as int))
}

pub open spec fn vneg(a: Vec3) -> Vec3 {
    v3(fx_neg(a.x as int), fx_neg(a.y as int), fx_neg(a.z as int))
}

/// Every component multiplied by one scalar.
pub open spec fn vscale(a: Vec3, s: int) -> Vec3 {
    v3(fx_mul(a.x as int, s), fx_mul(a.y as int, s), fx_mul(a.z as int, s))
}

/// Every component divided by one non-zero scalar.
pub open spec fn vdivs(a: Vec3, s: int) -> Vec3 {
    v3(fx_div(a.x as int, s), fx_div(a.y as int, s), fx_div(a.z as int, s))
}

/// Component-wise product.
pub open spec fn vmul(a: Vec3, b: Vec3) -> Vec3 {
    v3(fx_mul(a.x as int, b.x as int), fx_mul(a.y as int, b.y as int), fx_mul(a.z as int, b.z as int))
}

pub open spec fn vdot(a: Vec3, b: Vec3) -> int {
    fx_add(
        fx_add(fx_mul(a.x as int, b.x as int), fx_mul(a.y as int, b.y as int)),
        fx_mul(a.z as int, b.z as int),
    )
}

pub open spec fn vcross(a: Vec3, b: Vec3) -> Vec3 {
    v3(
        fx_sub(fx_mul(a.y as int, b.z as int), fx_mul(a.z as int, b.y as int)),
        fx_sub(fx_mul(a.z as int, b.x as int), fx_mul(a.x as int, b.z as int)),
        fx_sub(fx_mul(a.x as int, b.y as int), fx_mul(a.y as int, b.x as int)),
    )
}

pub open spec fn vlen_sq(a: Vec3) -> int {
    vdot(a, a)
}

/// The Euclidean length, rounded down to a raw unit.
pub open spec fn vlen(a: Vec3) -> int {
    isqrt((a.x * a.x + a.y * a.y + a.z * a.z) as nat) as int
}

/// The vector divided by its length; a vector of length zero is kept as it is.
pub open spec fn vunit(a: Vec3) -> Vec3 {
    if vlen(a) == 0 {
        a
    } else {
        vdivs(a, vlen(a))
    }
}

pub open spec fn vzero() -> Vec3 {
    Vec3 { x: 0, y: 0, z: 0 }
}

/// The dot product does not depend on the order of its arguments.
pub proof fn lemma_dot_commutes(a: Vec3, b: Vec3)
    ensures
        vdot(a, b) == vdot(b, a),
{
    assert(a.x * b.x == b.x * a.x && a.y * b.y == b.y * a.y && a.z * b.z == b.z * a.z)
        by (nonlinear_arith);
}

/// Negating an in-range vector negates its dot products.
pub proof fn lemma_dot_neg(a: Vec3, b: Vec3)
    requires
        a.wf(),
    ensures
        vdot(vneg(a), b) == -vdot(a, b),
{
    lemma_neg_symmetric(a.x as int, b.x as int);
    lemma_neg_symmetric(a.y as int, b.y as int);
    lemma_neg_symmetric(a.z as int, b.z as int);
    let (mx, my, mz) = (fx_mul(a.x as int, b.x as int), fx_mul(a.y as int, b.y as int), fx_mul(a.z as int, b.z as int));
    lemma_neg_symmetric(mx, my);
    lemma_neg_symmetric(fx_add(mx, my), mz);
}

/// The zero vector stays zero under sums with itself and under products.
pub proof fn lemma_zero_absorbs(v: Vec3, k: int)
    ensures
        vadd(vzero(), vzero()) == vzero(),
        vmul(vzero(), v) == vzero(),
        vscale(vzero(), k) == vzero(),
{
    assert(0 * v.x == 0 && 0 * v.y == 0 && 0 * v.z == 0 && 0 * k == 0) by (nonlinear_arith);
    assert(tdiv(0, ONE as int) == 0);
}

/// No component is negative.
pub open spec fn vnonneg(a: Vec3) -> bool {
    a.x >= 0 && a.y >= 0 && a.z >= 0
}

proof fn lemma_fx_nonneg(a: int, b: int)
    requires
        a >= 0,
    ensures
        b >= 0 ==> fx_mul(a, b) >= 0,
        b > 0 ==> fx_div(a, b) >= 0,
{
    if b >= 0 {
        assert(a * b >= 0) by (nonlinear_arith)
            requires
                a >= 0,
                b >= 0,
        ;
    }
    assert(a * ONE >= 0) by (nonlinear_arith)
        requires
            a >= 0,
    ;
}

/// Sums, products, scalings by a non-negative factor and divisions by a
/// positive one keep non-negative vectors non-negative.
pub proof fn lemma_nonneg_closed(a: Vec3, b: Vec3, k: int)
    requires
        vnonneg(a),
    ensures
        vnonneg(b) ==> vnonneg(vadd(a, b)) && vnonneg(vmul(a, b)),
        k >= 0 ==> vnonneg(vscale(a, k)),
        k > 0 ==> vnonneg(vdivs(a, k)),
{
    lemma_fx_nonneg(a.x as int, b.x as int);
    lemma_fx_nonneg(a.y as int, b.y as int);
    lemma_fx_nonneg(a.z as int, b.z as int);
    lemma_fx_nonneg(a.x as int, k);
    lemma_fx_nonneg(a.y as int, k);
    lemma_fx_nonneg(a.z as int, k);
}

impl Vec3 {
    /// Every component lies within the saturation range.
    pub open spec fn wf(&self) -> bool {
        in_range(self.x as int) && in_range(self.y as int) && in_range(self.z as int)
    }

    pub fn is_valid(&self) -> (r: bool)
        ensures
            r == self.wf(),
    {
        -LIM <= self.x && self.x <= LIM && -LIM <= self.y && self.y <= LIM && -LIM <= self.z && self.z <= LIM
    }

    pub fn new(x: i64, y: i64, z: i64) -> (r: Vec3)
        ensures
            r == (Vec3 { x, y, z }),
    {
        Vec3 { x, y, z }
    }

    pub fn zero() -> (r: Vec3)
        ensures
            r == vzero(),
            r.wf(),
    {
        Vec3 { x: 0, y: 0, z: 0 }
    }

    pub fn add(&self, o: &Vec3) -> (r: Vec3)
        ensures
            r == vadd(*self, *o),
            r.wf(),
    {
        Vec3 { x: fixed::add(self.x, o.x), y: fixed::add(self.y, o.y), z: fixed::add(self.z, o.z) }
    }

    pub fn sub(&self, o: &Vec3) -> (r: Vec3)
        ensures
            r == vsub(*self, *o),
            r.wf(),
    {
        Vec3 { x: fixed::sub(self.x, o.x), y: fixed::sub(self.y, o.y), z: fixed::sub(self.z, o.z) }
    }

    pub fn neg(&self) -> (r: Vec3)
        ensures
            r == vneg(*self),
            r.wf(),
    {
        Vec3 { x: fixed::neg(self.x), y: fixed::neg(self.y), z: fixed::neg(self.z) }
    }

    pub fn scale(&self, s: i64) -> (r: Vec3)
        ensures
            r == vscale(*self, s as int),
            r.wf(),
    {
        Vec3 { x: fixed::mul(self.x, s), y: fixed::mul(self.y, s), z: fixed::mul(self.z, s) }
    }

    pub fn div_scalar(&self, s: i64) -> (r: Vec3)
        requires
            s != 0,
        ensures
            r == vdivs(*self, s as int),
            r.wf(),
    {
        Vec3 { x: fixed::div(self.x, s), y: fixed::div(self.y, s), z: fixed::div(self.z, s) }
    }

    /// Every component divided by a count, rounding toward zero.
    pub fn div_count(&self, n: usize) -> (r: Vec3)
        requires
            n > 0,
        ensures
            r == v3(tdiv(self.x as int, n as int), tdiv(self.y as int, n as int), tdiv(self.z as int, n as int)),
            self.wf() ==> r.wf(),
    {
        Vec3 { x: fixed::div_count(self.x, n), y: fixed::div_count(self.y, n), z: fixed::div_count(self.z, n) }
    }

    pub fn mul(&self, o: &Vec3) -> (r: Vec3)
        ensures
            r == vmul(*self, *o),
            r.wf(),
    {
        Vec3 { x: fixed::mul(self.x, o.x), y: fixed::mul(self.y, o.y), z: fixed::mul(self.z, o.z) }
    }

    pub fn dot(&self, o: &Vec3) -> (r: i64)
        ensures
            r == vdot(*self, *o),
            in_range(r as int),
    {
        fixed::add(fixed::add(fixed::mul(self.x, o.x), fixed::mul(self.y, o.y)), fixed::mul(self.z, o.z))
    }

    pub fn cross(&self, o: &Vec3) -> (r: Vec3)
        ensures
            r == vcross(*self, *o),
            r.wf(),
    {
        Vec3 {
            x: fixed::sub(fixed::mul(self.y, o.z), fixed::mul(self.z, o.y)),
            y: fixed::sub(fixed::mul(self.z, o.x), fixed::mul(self.x, o.z)),
            z: fixed::sub(fixed::mul(self.x, o.y), fixed::mul(self.y, o.x)),
        }
    }

    pub fn length_squared(&self) -> (r: i64)
        ensures
            r == vlen_sq(*self),
            in_range(r as int),
    {
        self.dot(self)
    }

    pub fn length(&self) -> (r: i64)
        requires
            self.wf(),
        ensures
            r == vlen(*self),
            0 <= r,
    {
        let (x, y, z) = (self.x as i128, self.y as i128, self.z as i128);
        assert(x * x <= 0x1_0000_0000_0000_0000_0000 && y * y <= 0x1_0000_0000_0000_0000_0000 && z * z
            <= 0x1_0000_0000_0000_0000_0000) by (nonlinear_arith)
            requires
                -0x100_0000_0000 <= x <= 0x100_0000_0000,
                -0x100_0000_0000 <= y <= 0x100_0000_0000,
                -0x100_0000_0000 <= z <= 0x100_0000_0000,
        ;
        assert(x * x >= 0 && y * y >= 0 && z * z >= 0) by (nonlinear_arith);
        let sum = (x * x + y * y + z * z) as u128;
        fixed::isqrt_wide(sum) as i64
    }

    pub fn unit(&self) -> (r: Vec3)
        requires
            self.wf(),
        ensures
            r == vunit(*self),
            r.wf(),
    {
        let len = self.length();
        if len == 0 {
            *self
        } else {
            self.div_scalar(len)
        }
    }
}

} // verus!
