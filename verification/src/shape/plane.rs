//! Infinite planes, given by a point on the plane and a unit normal.
//!
//! A ray parallel to the plane (`dir . normal == 0`) never hits, whatever
//! its origin; otherwise the hit parameter is
//! `t = ((point - origin) . normal) / (dir . normal)` and a hit is
//! reported only for `t` in `(epsilon, T_MAX]`.  The reported normal is
//! the plane's own, whichever side the ray comes from.

use vstd::prelude::*;
use crate::fx::{SCALE, T_MAX, COORD_MAX, POS_MAX, DIR_MAX, tdiv, lemma_mul_abs_bound};
use crate::vec3::{Vec3, UnitVec3, spec_sub, dot_raw, in_box, dot_wide, lemma_dot_raw_bound};
use crate::ray::{Ray, spec_eval};
use crate::shape::{ShapeCollisionInformation, collision_wf};

verus! {

#[derive(Clone, Copy, Debug, PartialEq, Eq, Structural)]
pub struct Plane {
    pub point: Vec3,
    pub normal: UnitVec3,
}

/// `dir . normal`, the denominator deciding parallelism.
pub open spec fn pln_ln(p: Plane, r: Ray) -> int {
    dot_raw(r.dir, p.normal.as_vec3())
}

/// The hit parameter `((point - origin) . normal) * SCALE / (dir . normal)`.
pub open spec fn pln_t(p: Plane, r: Ray) -> int {
    tdiv(dot_raw(spec_sub(p.point, r.pos), p.normal.as_vec3()) * (SCALE as int), pln_ln(p, r))
}

/// The specification mirror of `Plane::intersect`.
pub open spec fn spec_plane_intersect(p: Plane, r: Ray, eps: i64) -> Option<
    ShapeCollisionInformation,
> {
    if pln_ln(p, r) == 0 {
        None
    } else if eps < pln_t(p, r) <= T_MAX {
        Some(
            ShapeCollisionInformation {
                distance: pln_t(p, r) as i64,
                normal: p.normal.as_vec3(),
                intersection_point: spec_eval(r, pln_t(p, r) as i64),
            },
        )
    } else {
        None
    }
}

impl Plane {
    pub open spec fn wf(self) -> bool {
        &&& in_box(self.point, COORD_MAX as int)
        &&& self.normal.wf()
    }

    pub fn new(point: Vec3, normal: UnitVec3) -> (p: Plane)
        ensures
            p.point == point,
            p.normal == normal,
    {
        Plane { point, normal }
    }

    pub fn intersect(&self, ray: &Ray, epsilon: i64) -> (res: Option<ShapeCollisionInformation>)
        requires
            self.wf(),
            in_box(ray.pos, POS_MAX as int),
            in_box(ray.dir, DIR_MAX as int),
            0 <= epsilon,
        ensures
            res == spec_plane_intersect(*self, *ray, epsilon),
            res is Some ==> collision_wf(res->Some_0, epsilon),
            dot_raw(ray.dir, self.normal.as_vec3()) == 0 ==> res is None,
    {
        let n = self.normal.to_vec3();
        let l_dot_n = dot_wide(&ray.dir, &n);
        if l_dot_n == 0 {
            return None;
        }
        let po = self.point.sub(&ray.pos);
        let num = dot_wide(&po, &n);
        proof {
            lemma_dot_raw_bound(ray.dir, DIR_MAX as int, n, SCALE as int);
            lemma_dot_raw_bound(po, 73014444032, n, SCALE as int);
            assert(3 * (73014444032int * (SCALE as int)) == 229683580995895296int);
            lemma_mul_abs_bound(num as int, 229683580995895296, SCALE as int, SCALE as int);
        }
        let t = crate::fx::tdiv_i128(num * (SCALE as i128), l_dot_n);
        proof {
            assert(t as int == pln_t(*self, *ray));
        }
        if (epsilon as i128) < t && t <= T_MAX as i128 {
            let ti = t as i64;
            let p = ray.eval(ti);
            Some(ShapeCollisionInformation { distance: ti, normal: n, intersection_point: p })
        } else {
            None
        }
    }
}

} // verus!
