//! Rays: an origin and a direction.
//!
//! Directions are kept near unit length by the callers that build rays;
//! the epsilon threshold passed to the intersection routines, not a
//! normalization invariant, protects against self-intersection.

use vstd::prelude::*;
use crate::fx::{SCALE, T_MAX, DIR_MAX};
use crate::vec3::{Vec3, spec_add, spec_scale, in_box, lemma_muldiv_bound};

verus! {

#[derive(Clone, Copy, Debug, PartialEq, Eq, Structural)]
pub struct Ray {
    pub pos: Vec3,
    pub dir: Vec3,
}

/// Bound on the components of every point `eval` can produce:
/// `COORD_MAX + T_MAX * DIR_MAX / SCALE`.
pub const EVAL_MAX: i64 = 35188667056128;

/// The point a ray reaches at parameter `t`: `pos + dir * t / SCALE`.
pub open spec fn spec_eval(r: Ray, t: i64) -> Vec3 {
    spec_add(r.pos, spec_scale(r.dir, t))
}

/// The geometric well-formedness every traced ray keeps: origin within the
/// world box, direction bounded.
pub open spec fn ray_wf(r: Ray) -> bool {
    &&& in_box(r.pos, EVAL_MAX as int)
    &&& in_box(r.dir, DIR_MAX as int)
}

impl Ray {
    /// Walks the ray to parameter `t`.
    pub fn eval(&self, t: i64) -> (p: Vec3)
        requires
            ray_wf(*self),
            -T_MAX <= t <= T_MAX,
        ensures
            p == spec_eval(*self, t),
            in_box(p, EVAL_MAX as int + 35184372088832),
    {
        proof {
            lemma_muldiv_bound(self.dir.x as int, DIR_MAX as int, t as int, T_MAX as int,
                SCALE as int, 35184372088832);
            lemma_muldiv_bound(self.dir.y as int, DIR_MAX as int, t as int, T_MAX as int,
                SCALE as int, 35184372088832);
            lemma_muldiv_bound(self.dir.z as int, DIR_MAX as int, t as int, T_MAX as int,
                SCALE as int, 35184372088832);
            assert((DIR_MAX as int) * (T_MAX as int) == 35184372088832int * (SCALE as int));
        }
        let step = self.dir.mult(t);
        self.pos.add(&step)
    }
}

} // verus!
