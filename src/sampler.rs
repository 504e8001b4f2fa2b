//! Seeded random draws for the Monte Carlo estimator.
use vstd::prelude::*;
use rand::rngs::StdRng;
use rand::{RngCore, SeedableRng};
use crate::fixed::ONE;
use crate::vec3::{vlen_sq, Vec3};

verus! {

#[verifier::external_type_specification]
#[verifier::external_body]
pub struct ExStdRng(StdRng);

/// Relies on rand's `SeedableRng::seed_from_u64` for `StdRng`: a generator
/// whose whole sequence is fixed by the seed.
#[verifier::external_body]
fn seeded(seed: u64) -> (r: StdRng) {
    StdRng::seed_from_u64(seed)
}

/// Relies on rand's `RngCore::next_u32` for `StdRng`: the next 32 bits of the
/// sequence; nothing is known of their value.
#[verifier::external_body]
fn next_bits(rng: &mut StdRng) -> (r: u32) {
    rng.next_u32()
}

/// How many candidates a rejection sampler draws before it gives up.
pub const MAX_TRIES: u32 = 64;

/// A point strictly inside the unit ball.
pub open spec fn in_ball(v: Vec3) -> bool {
    v.wf() && vlen_sq(v) < ONE
}

/// A draw in `[0, 1)` made of the top 16 of 32 random bits.
pub open spec fn unit_of(bits: int) -> int {
    bits / 65536
}

/// A draw in `[-1, 1)` made of a draw in `[0, 1)`.
pub open spec fn signed_of(u: int) -> int {
    2 * u - ONE
}

/// An index below `n` made of random bits.
pub open spec fn index_of(bits: int, n: int) -> int {
    bits % n
}

/// A candidate point; in the `z = 0` plane when `flat` holds.
pub open spec fn candidate(c: (i64, i64, i64), flat: bool) -> Vec3 {
    Vec3 { x: c.0, y: c.1, z: if flat { 0 } else { c.2 } }
}

/// The first candidate that lies inside the unit ball, or the origin when
/// none does.
pub open spec fn first_in_ball(cands: Seq<(i64, i64, i64)>, flat: bool) -> Vec3
    decreases cands.len(),
{
    if cands.len() == 0 {
        Vec3 { x: 0, y: 0, z: 0 }
    } else if in_ball(candidate(cands[0], flat)) {
        candidate(cands[0], flat)
    } else {
        first_in_ball(cands.drop_first(), flat)
    }
}

proof fn lemma_first_in_ball(cands: Seq<(i64, i64, i64)>, flat: bool)
    ensures
        in_ball(first_in_ball(cands, flat)),
        flat ==> first_in_ball(cands, flat).z == 0,
    decreases cands.len(),
{
    if cands.len() > 0 {
        lemma_first_in_ball(cands.drop_first(), flat);
    }
    assert(0 * 0 == 0);
}

/// Turns 32 random bits into a draw in `[0, 1)`.
pub fn unit_from_bits(bits: u32) -> (r: i64)
    ensures
        r == unit_of(bits as int),
        0 <= r < ONE,
{
    (bits / 65536) as i64
}

/// Turns a draw in `[0, 1)` into one in `[-1, 1)`.
pub fn signed_from_unit(u: i64) -> (r: i64)
    requires
        0 <= u < ONE,
    ensures
        r == signed_of(u as int),
        -ONE <= r < ONE,
{
    2 * u - ONE
}

/// Turns random bits into an index below `n`.
pub fn index_from_bits(bits: u32, n: usize) -> (r: usize)
    requires
        n > 0,
    ensures
        r == index_of(bits as int, n as int),
        r < n,
{
    (bits as usize) % n
}

/// Rejection sampling: the first candidate inside the unit ball (or disk,
/// when `flat` holds), or the origin when every candidate falls outside.
pub fn ball_point(cands: &Vec<(i64, i64, i64)>, flat: bool) -> (r: Vec3)
    ensures
        r == first_in_ball(cands@, flat),
        in_ball(r),
        flat ==> r.z == 0,
{
    proof {
        lemma_first_in_ball(cands@, flat);
        assert(cands@.subrange(0, cands@.len() as int) =~= cands@);
    }
    let mut i: usize = 0;
    while i < cands.len()
        invariant
            i <= cands@.len(),
            first_in_ball(cands@, flat) == first_in_ball(cands@.subrange(i as int, cands@.len() as int), flat),
        decreases cands.len() - i,
    {
        let (x, y, z) = cands[i];
        let v = Vec3::new(x, y, if flat { 0 } else { z });
        proof {
            let rest = cands@.subrange(i as int, cands@.len() as int);
            assert(rest[0] == cands@[i as int]);
            assert(rest.drop_first() =~= cands@.subrange(i + 1, cands@.len() as int));
        }
        if v.is_valid() && v.length_squared() < ONE {
            return v;
        }
        i = i + 1;
    }
    Vec3::zero()
}

/// A source of random draws, reproducible from its seed.
pub struct Sampler {
    rng: StdRng,
}

impl Sampler {
    pub fn new(seed: u64) -> (r: Sampler) {
        Sampler { rng: seeded(seed) }
    }

    /// A draw in `[0, 1)`.
    pub fn unit(&mut self) -> (r: i64)
        ensures
            exists|bits: u32| r == unit_of(bits as int),
            0 <= r < ONE,
    {
        let b = next_bits(&mut self.rng);
        unit_from_bits(b)
    }

    /// A draw in `[-1, 1)`.
    pub fn signed_unit(&mut self) -> (r: i64)
        ensures
            exists|u: int| 0 <= u < ONE && r == signed_of(u),
            -ONE <= r < ONE,
    {
        let u = self.unit();
        signed_from_unit(u)
    }

    /// An index below `n`.
    pub fn index(&mut self, n: usize) -> (r: usize)
        requires
            n > 0,
        ensures
            exists|bits: u32| r == index_of(bits as int, n as int),
            r < n,
    {
        let b = next_bits(&mut self.rng);
        index_from_bits(b, n)
    }

    /// Draws candidates in `[-1, 1)` until one falls inside the unit ball
    /// (or disk), at most `MAX_TRIES` of them.
    fn in_ball(&mut self, flat: bool) -> (r: Vec3)
        ensures
            exists|c: Seq<(i64, i64, i64)>| r == first_in_ball(c, flat),
            in_ball(r),
            flat ==> r.z == 0,
    {
        let mut cands: Vec<(i64, i64, i64)> = Vec::new();
        let mut tries: u32 = 0;
        while tries < MAX_TRIES
            decreases MAX_TRIES - tries,
        {
            let x = self.signed_unit();
            let y = self.signed_unit();
            let z = if flat { 0 } else { self.signed_unit() };
            cands.push((x, y, z));
            if Vec3::new(x, y, z).length_squared() < ONE {
                break;
            }
            tries = tries + 1;
        }
        ball_point(&cands, flat)
    }

    /// A random point strictly inside the unit sphere.
    pub fn in_unit_ball(&mut self) -> (r: Vec3)
        ensures
            exists|c: Seq<(i64, i64, i64)>| r == first_in_ball(c, false),
            in_ball(r),
    {
        self.in_ball(false)
    }

    /// A random point strictly inside the unit disk of the `z = 0` plane.
    pub fn in_unit_disk(&mut self) -> (r: Vec3)
        ensures
            exists|c: Seq<(i64, i64, i64)>| r == first_in_ball(c, true),
            in_ball(r),
            r.z == 0,
    {
        self.in_ball(true)
    }
}

} // verus!
