//! Saturating fixed-point scalars.
//!
//! A scalar is an `i64` that stands for `value / ONE`. Every operation rounds
//! toward zero and saturates to `[-LIM, LIM]`, so results always stay in a
//! range where products of two scalars fit comfortably in `i128`.
use vstd::prelude::*;

verus! {

/// The raw value that stands for 1.0.
pub const ONE: i64 = 65536;

/// The largest magnitude any operation produces.
pub const LIM: i64 = 1099511627776;

/// A scalar lies within the saturation range.
pub open spec fn in_range(x: int) -> bool {
    -LIM <= x <= LIM
}

/// Saturation of an exact value to `[-LIM, LIM]`.
pub open spec fn sat(x: int) -> int {
    if x > LIM {
        LIM as int
    } else if x < -LIM {
        -LIM
    } else {
        x
    }
}

/// Division rounding toward zero.
pub open spec fn tdiv(x: int, d: int) -> int
    recommends
        d != 0,
{
    let q = (if x >= 0 { x } else { -x }) / (if d >= 0 { d } else { -d });
    if (x >= 0) == (d >= 0) {
        q
    } else {
        -q
    }
}

pub open spec fn fx_add(a: int, b: int) -> int {
    sat(a + b)
}

pub open spec fn fx_sub(a: int, b: int) -> int {
    sat(a - b)
}

pub open spec fn fx_neg(a: int) -> int {
    sat(-a)
}

pub open spec fn fx_mul(a: int, b: int) -> int {
    sat(tdiv(a * b, ONE as int))
}

pub open spec fn fx_div(a: int, b: int) -> int
    recommends
        b != 0,
{
    sat(tdiv(a * ONE, b))
}

pub open spec fn fx_min(a: int, b: int) -> int {
    if a <= b {
        a
    } else {
        b
    }
}

pub open spec fn fx_abs(a: int) -> int {
    sat(if a >= 0 { a } else { -a })
}

/// Floor of the square root of a natural number.
pub open spec fn isqrt(n: nat) -> nat
    decreases n,
{
    if n == 0 {
        0
    } else {
        let r = isqrt((n - 1) as nat);
        if (r + 1) * (r + 1) <= n {
            r + 1
        } else {
            r
        }
    }
}

/// Square root of a scalar; negative inputs count as zero.
pub open spec fn fx_sqrt(a: int) -> int {
    if a <= 0 {
        0
    } else {
        sat(isqrt((a * ONE) as nat) as int)
    }
}

pub proof fn lemma_isqrt(n: nat)
    ensures
        isqrt(n) * isqrt(n) <= n,
        n < (isqrt(n) + 1) * (isqrt(n) + 1),
    decreases n,
{
    if n > 0 {
        lemma_isqrt((n - 1) as nat);
        let r = isqrt((n - 1) as nat);
        if (r + 1) * (r + 1) <= n {
            assert(isqrt(n) == r + 1);
            assert((r + 1) * (r + 1) == n);
            assert((r + 2) * (r + 2) > n) by (nonlinear_arith)
                requires
                    (r + 1) * (r + 1) == n,
            ;
            let s = isqrt(n);
            assert(s * s <= n < (s + 1) * (s + 1));
        } else {
            assert(isqrt(n) == r);
            let s = isqrt(n);
            assert(s * s <= n < (s + 1) * (s + 1));
        }
    } else {
        let s = isqrt(n);
        assert(s == 0);
        assert((s + 1) * (s + 1) == 1) by (nonlinear_arith)
            requires
                s == 0,
        ;
    }
}

proof fn lemma_isqrt_unique(n: nat, r: nat)
    requires
        r * r <= n < (r + 1) * (r + 1),
    ensures
        r == isqrt(n),
{
    lemma_isqrt(n);
    let s = isqrt(n);
    if r < s {
        assert((r + 1) * (r + 1) <= s * s) by (nonlinear_arith)
            requires
                r + 1 <= s,
        ;
    } else if r > s {
        assert((s + 1) * (s + 1) <= r * r) by (nonlinear_arith)
            requires
                s + 1 <= r,
        ;
    }
}

proof fn lemma_wide_product(a: int, b: int)
    requires
        i64::MIN <= a <= i64::MAX,
        i64::MIN <= b <= i64::MAX,
    ensures
        i128::MIN < a * b <= i128::MAX,
{
    assert(-0x4000_0000_0000_0000_0000_0000_0000_0000 <= a * b <= 0x4000_0000_0000_0000_0000_0000_0000_0000)
        by (nonlinear_arith)
        requires
            -0x8000_0000_0000_0000 <= a <= 0x7fff_ffff_ffff_ffff,
            -0x8000_0000_0000_0000 <= b <= 0x7fff_ffff_ffff_ffff,
    ;
}

/// Negation passes through saturation and rounding toward zero.
pub proof fn lemma_neg_symmetric(a: int, b: int)
    ensures
        sat(-a) == -sat(a),
        fx_mul(-a, b) == -fx_mul(a, b),
        fx_add(-a, -b) == -fx_add(a, b),
{
    assert(-a * b == -(a * b)) by (nonlinear_arith);
    assert(tdiv(-(a * b), ONE as int) == -tdiv(a * b, ONE as int));
}

/// The square root maps `[0, 1]` into `[0, 1]` and keeps one fixed.
pub proof fn lemma_sqrt_at_most_one(c: int)
    requires
        0 <= c <= ONE,
    ensures
        0 <= fx_sqrt(c) <= ONE,
        c == ONE ==> fx_sqrt(c) == ONE,
{
    if c > 0 {
        let n = (c * ONE) as nat;
        lemma_isqrt(n);
        let r = isqrt(n);
        assert(c * ONE <= ONE * ONE) by (nonlinear_arith)
            requires
                c <= ONE,
        ;
        assert(r <= ONE) by (nonlinear_arith)
            requires
                r * r <= n,
                n <= ONE * ONE,
        ;
        if c == ONE {
            assert(r >= ONE) by (nonlinear_arith)
                requires
                    n < (r + 1) * (r + 1),
                    n == ONE * ONE,
            ;
        }
        assert(sat(r as int) == r);
    }
}

fn clamp_wide(x: i128) -> (r: i64)
    ensures
        r == sat(x as int),
{
    if x > LIM as i128 {
        LIM
    } else if x < -(LIM as i128) {
        -LIM
    } else {
        x as i64
    }
}

/// Division of a wide value rounding toward zero.
fn tdiv_wide(x: i128, d: i128) -> (r: i128)
    requires
        d != 0,
        x > i128::MIN,
        d > i128::MIN,
    ensures
        r == tdiv(x as int, d as int),
{
    let ax: i128 = if x >= 0 { x } else { -x };
    let ad: i128 = if d >= 0 { d } else { -d };
    let q: i128 = ax / ad;
    if (x >= 0) == (d >= 0) {
        q
    } else {
        -q
    }
}

/// Division of a raw value by a count, rounding toward zero.
pub fn div_count(a: i64, n: usize) -> (r: i64)
    requires
        n > 0,
    ensures
        r == tdiv(a as int, n as int),
        in_range(a as int) ==> in_range(r as int),
{
    let q = tdiv_wide(a as i128, n as i128);
    assert(in_range(a as int) ==> in_range(q as int)) by (nonlinear_arith)
        requires
            q == tdiv(a as int, n as int),
            n > 0,
    ;
    q as i64
}

pub fn add(a: i64, b: i64) -> (r: i64)
    ensures
        r == fx_add(a as int, b as int),
{
    clamp_wide(a as i128 + b as i128)
}

pub fn sub(a: i64, b: i64) -> (r: i64)
    ensures
        r == fx_sub(a as int, b as int),
{
    clamp_wide(a as i128 - b as i128)
}

pub fn neg(a: i64) -> (r: i64)
    ensures
        r == fx_neg(a as int),
{
    clamp_wide(-(a as i128))
}

pub fn mul(a: i64, b: i64) -> (r: i64)
    ensures
        r == fx_mul(a as int, b as int),
{
    proof {
        lemma_wide_product(a as int, b as int);
    }
    let p: i128 = a as i128 * b as i128;
    clamp_wide(tdiv_wide(p, ONE as i128))
}

pub fn div(a: i64, b: i64) -> (r: i64)
    requires
        b != 0,
    ensures
        r == fx_div(a as int, b as int),
{
    proof {
        lemma_wide_product(a as int, ONE as int);
    }
    clamp_wide(tdiv_wide(a as i128 * ONE as i128, b as i128))
}

/// Floor of the square root of a wide value, by bisection.
pub fn isqrt_wide(n: u128) -> (r: u64)
    requires
        n < 0x4_0000_0000_0000_0000_0000,
    ensures
        r == isqrt(n as nat),
        r <= 0x200_0000_0000,
{
    let mut lo: u128 = 0;
    let mut hi: u128 = 0x200_0000_0000;
    assert(hi * hi == 0x4_0000_0000_0000_0000_0000) by (nonlinear_arith)
        requires
            hi == 0x200_0000_0000,
    ;
    while hi - lo > 1
        invariant
            lo < hi <= 0x200_0000_0000,
            lo * lo <= n,
            n < hi * hi,
        decreases hi - lo,
    {
        let mid: u128 = lo + (hi - lo) / 2;
        assert(mid * mid <= hi * hi) by (nonlinear_arith)
            requires
                mid <= hi,
        ;
        assert(hi * hi <= 0x4_0000_0000_0000_0000_0000) by (nonlinear_arith)
            requires
                hi <= 0x200_0000_0000,
        ;
        if mid * mid <= n {
            lo = mid;
        } else {
            hi = mid;
        }
    }
    assert(hi == lo + 1);
    proof {
        lemma_isqrt_unique(n as nat, lo as nat);
    }
    lo as u64
}

/// Square root of a scalar.
pub fn sqrt(a: i64) -> (r: i64)
    ensures
        r == fx_sqrt(a as int),
        0 <= r,
{
    if a <= 0 {
        return 0;
    }
    assert(a * 65536 < 0x1_0000_0000_0000_0000_0000) by (nonlinear_arith)
        requires
            0 < a <= 0x7fff_ffff_ffff_ffff,
    ;
    let n: u128 = a as u128 * ONE as u128;
    let r = isqrt_wide(n);
    clamp_wide(r as i128)
}

pub fn min(a: i64, b: i64) -> (r: i64)
    ensures
        r == fx_min(a as int, b as int),
{
    if a <= b {
        a
    } else {
        b
    }
}

pub fn max(a: i64, b: i64) -> (r: i64)
    ensures
        r == if a >= b { a } else { b },
{
    if a >= b {
        a
    } else {
        b
    }
}

/// The absolute value, saturated.
pub fn abs(a: i64) -> (r: i64)
    ensures
        r == fx_abs(a as int),
{
    if a >= 0 {
        clamp_wide(a as i128)
    } else {
        clamp_wide(-(a as i128))
    }
}

} // verus!
