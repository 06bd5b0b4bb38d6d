//! A small deterministic pseudo-random generator.
//!
//! Each rendering task owns one generator, seeded independently, so
//! samples are reproducible per seed and tasks never contend.  The
//! stepping function is stated exactly, which lets the whole trace of a
//! render be a deterministic function of its seed; fresh unpredictable
//! seeds come from the system generator through one trusted call.

use vstd::prelude::*;
use crate::fx::SCALE;
use crate::vec3::{Vec3, UnitVec3, spec_unit, norm2_raw, dot_wide, lemma_square_nonneg};

verus! {

/// The multiplier of the linear congruential step.
pub const RNG_MUL: u64 = 6364136223846793005;

/// The increment of the linear congruential step.
pub const RNG_INC: u64 = 1442695040888963407;

#[derive(Clone, Copy, Debug, PartialEq, Eq, Structural)]
pub struct Rng64 {
    pub state: u64,
}

/// One step of the generator: `state * RNG_MUL + RNG_INC`, wrapping.
pub open spec fn spec_rng_next(s: u64) -> u64 {
    vstd::wrapping::u64_specs::wrapping_add(
        vstd::wrapping::u64_specs::wrapping_mul(s, RNG_MUL),
        RNG_INC,
    )
}

/// The fixed-point coordinate in `[-SCALE, SCALE]` a raw draw turns into.
pub open spec fn spec_coord(raw: u64) -> i64 {
    ((raw as int) % (2 * (SCALE as int) + 1) - SCALE) as i64
}

/// Three draws making a scatter vector, then normalized; a fixed axis
/// stands in when the draws come out (near) zero.  Returns the direction
/// and the generator state after the three draws.
pub open spec fn spec_rand_unit(s: u64) -> (Vec3, u64) {
    let s1 = spec_rng_next(s);
    let s2 = spec_rng_next(s1);
    let s3 = spec_rng_next(s2);
    let v = Vec3 { x: spec_coord(s1), y: spec_coord(s2), z: spec_coord(s3) };
    if norm2_raw(v) >= 1 {
        (spec_unit(v), s3)
    } else {
        (spec_unit(Vec3 { x: 0, y: 0, z: SCALE }), s3)
    }
}

impl Rng64 {
    pub fn new(seed: u64) -> (r: Rng64)
        ensures
            r.state == seed,
    {
        Rng64 { state: seed }
    }

    /// A generator seeded from the system's entropy, for renders that do
    /// not need reproducibility.  Nothing is promised of the seed.
    pub fn from_entropy() -> (r: Rng64) {
        Rng64 { state: entropy_seed() }
    }

    /// Steps the generator and hands out the new state as the raw draw.
    pub fn next_u64(&mut self) -> (r: u64)
        ensures
            final(self).state == spec_rng_next(old(self).state),
            r == final(self).state,
    {
        self.state = self.state.wrapping_mul(RNG_MUL).wrapping_add(RNG_INC);
        self.state
    }

    /// A draw in `[0, n)`.
    pub fn next_below(&mut self, n: u64) -> (r: u64)
        requires
            n >= 1,
        ensures
            final(self).state == spec_rng_next(old(self).state),
            r == spec_rng_next(old(self).state) % n,
            r < n,
    {
        let raw = self.next_u64();
        raw % n
    }

    /// A fixed-point draw in `[-SCALE, SCALE]`.
    pub fn next_coord(&mut self) -> (r: i64)
        ensures
            final(self).state == spec_rng_next(old(self).state),
            r == spec_coord(spec_rng_next(old(self).state)),
            -SCALE <= r <= SCALE,
    {
        let raw = self.next_u64();
        (raw % (2 * (SCALE as u64) + 1)) as i64 - SCALE
    }
}

impl UnitVec3 {
    /// A random direction on the unit sphere: three coordinate draws,
    /// normalized (drawn from the cube, so slightly denser toward its
    /// corners).
    pub fn random_unit_sphere(rng: &mut Rng64) -> (u: UnitVec3)
        ensures
            u.as_vec3() == spec_rand_unit(old(rng).state).0,
            final(rng).state == spec_rand_unit(old(rng).state).1,
            u.wf(),
    {
        let x = rng.next_coord();
        let y = rng.next_coord();
        let z = rng.next_coord();
        let v = Vec3 { x, y, z };
        let n2 = dot_wide(&v, &v);
        proof {
            lemma_square_nonneg(v.x as int);
            lemma_square_nonneg(v.y as int);
            lemma_square_nonneg(v.z as int);
        }
        if n2 >= 1 {
            v.norm()
        } else {
            let axis = Vec3 { x: 0, y: 0, z: SCALE };
            proof {
                assert(norm2_raw(axis) == (SCALE as int) * (SCALE as int));
                assert((SCALE as int) * (SCALE as int) >= 1) by (nonlinear_arith)
                    requires
                        SCALE >= 1,
                ;
            }
            axis.norm()
        }
    }
}

/// Relies on rand::random: an unpredictable seed from the thread-local
/// system generator.  Nothing can be promised of its value.
#[verifier::external_body]
fn entropy_seed() -> u64 {
    rand::random()
}

} // verus!
