//! A pinhole camera with arbitrary placement.
//!
//! Construction builds an orthonormal-ish basis from a location, a look
//! target and an up hint: `forward` toward the target, `right` their
//! cross product, `up` recomputed to close the frame.  A sample at
//! normalized device coordinates `(u, v)` (fixed-point, `[-1, 1]` on the
//! film) maps to the ray `forward * focal + right * u * aspect + up * v`
//! from the camera's location; the direction is not normalized here, and
//! the intersection routines do not require it to be.

use vstd::prelude::*;
use crate::fx::{SCALE, COORD_MAX, DIR_MAX, ORIGIN_MAX, tdiv, fmul, lemma_mul_abs_bound};
use crate::vec3::{Vec3, UnitVec3, spec_sub, spec_add, spec_scale, spec_unit, norm2_raw,
    cross_raw_x, cross_raw_y, cross_raw_z, in_box, dot_wide, lemma_square_nonneg,
    lemma_muldiv_bound};
use crate::ray::Ray;

verus! {

#[derive(Clone, Copy, Debug, PartialEq, Eq, Structural)]
pub struct Camera {
    pub origin: Vec3,
    pub forward_focal: Vec3,
    pub right: Vec3,
    pub up: Vec3,
    pub aspect: i64,
}

/// The unnormalized cross product of two vectors, as a `Vec3` (the
/// inputs here are unit-scale, so the raw components fit).
pub open spec fn spec_cross(a: Vec3, b: Vec3) -> Vec3 {
    Vec3 {
        x: cross_raw_x(a, b) as i64,
        y: cross_raw_y(a, b) as i64,
        z: cross_raw_z(a, b) as i64,
    }
}

/// The specification mirror of `Camera::cast_ray`.
pub open spec fn spec_cast_ray(c: Camera, u: i64, v: i64) -> Ray {
    let ua = tdiv(u * c.aspect, SCALE as int) as i64;
    let dir = spec_add(
        spec_add(c.forward_focal, spec_scale(c.right, ua)),
        spec_scale(c.up, v),
    );
    Ray { pos: c.origin, dir }
}

impl Camera {
    pub open spec fn wf(self) -> bool {
        &&& in_box(self.origin, COORD_MAX as int)
        &&& in_box(self.forward_focal, 8 * SCALE as int)
        &&& in_box(self.right, SCALE as int)
        &&& in_box(self.up, 2 * SCALE as int)
        &&& 0 < self.aspect <= 4 * SCALE
    }

    /// Builds a camera looking from `camera_location` toward
    /// `look_location`.  `focal` is the fixed-point distance from the
    /// pinhole to the film plane (the reciprocal of the tangent of half
    /// the vertical field of view); `aspect` scales the horizontal axis.
    /// Returns nothing if the target coincides with the location or the
    /// up hint is parallel to the view direction.
    pub fn new(
        camera_location: Vec3,
        look_location: Vec3,
        up: UnitVec3,
        focal: i64,
        aspect: i64,
    ) -> (res: Option<Camera>)
        requires
            in_box(camera_location, COORD_MAX as int),
            in_box(look_location, COORD_MAX as int),
            up.wf(),
            0 < focal <= 4 * SCALE,
            0 < aspect <= 4 * SCALE,
        ensures
            ({
                let to_look = spec_sub(look_location, camera_location);
                let fwd = spec_unit(to_look);
                let right_raw = spec_cross(fwd, up.as_vec3());
                match res {
                    None => norm2_raw(to_look) == 0 || norm2_raw(right_raw) == 0,
                    Some(c) => {
                        &&& norm2_raw(to_look) >= 1
                        &&& norm2_raw(right_raw) >= 1
                        &&& c.origin == camera_location
                        &&& c.forward_focal == spec_scale(fwd, focal)
                        &&& c.right == spec_unit(right_raw)
                        &&& c.up == spec_scale(spec_cross(c.right, fwd), 1)
                        &&& c.aspect == aspect
                        &&& c.wf()
                    },
                }
            }),
    {
        let to_look = look_location.sub(&camera_location);
        let n2 = dot_wide(&to_look, &to_look);
        proof {
            lemma_square_nonneg(to_look.x as int);
            lemma_square_nonneg(to_look.y as int);
            lemma_square_nonneg(to_look.z as int);
        }
        if n2 < 1 {
            return None;
        }
        let fwd_unit = to_look.unit();
        let upv = up.to_vec3();
        let right_raw = fwd_unit.cross(&upv);
        proof {
            lemma_mul_abs_bound(fwd_unit.y as int, SCALE as int, upv.z as int, SCALE as int);
            lemma_mul_abs_bound(fwd_unit.z as int, SCALE as int, upv.y as int, SCALE as int);
            lemma_mul_abs_bound(fwd_unit.z as int, SCALE as int, upv.x as int, SCALE as int);
            lemma_mul_abs_bound(fwd_unit.x as int, SCALE as int, upv.z as int, SCALE as int);
            lemma_mul_abs_bound(fwd_unit.x as int, SCALE as int, upv.y as int, SCALE as int);
            lemma_mul_abs_bound(fwd_unit.y as int, SCALE as int, upv.x as int, SCALE as int);
        }
        let rn2 = dot_wide(&right_raw, &right_raw);
        proof {
            lemma_square_nonneg(right_raw.x as int);
            lemma_square_nonneg(right_raw.y as int);
            lemma_square_nonneg(right_raw.z as int);
        }
        if rn2 < 1 {
            return None;
        }
        let right = right_raw.unit();
        let up_raw = right.cross(&fwd_unit);
        proof {
            lemma_mul_abs_bound(right.y as int, SCALE as int, fwd_unit.z as int, SCALE as int);
            lemma_mul_abs_bound(right.z as int, SCALE as int, fwd_unit.y as int, SCALE as int);
            lemma_mul_abs_bound(right.z as int, SCALE as int, fwd_unit.x as int, SCALE as int);
            lemma_mul_abs_bound(right.x as int, SCALE as int, fwd_unit.z as int, SCALE as int);
            lemma_mul_abs_bound(right.x as int, SCALE as int, fwd_unit.y as int, SCALE as int);
            lemma_mul_abs_bound(right.y as int, SCALE as int, fwd_unit.x as int, SCALE as int);
        }
        let true_up = scale_down_unit(&up_raw);
        proof {
            lemma_scale_box(fwd_unit, SCALE as int, focal as int, 4 * SCALE as int);
            assert((SCALE as int) * (4 * SCALE as int) / (SCALE as int) == 4 * SCALE as int)
                by (nonlinear_arith)
                requires
                    SCALE >= 1,
            ;
        }
        let forward_focal = fwd_unit.mult(focal);
        Some(
            Camera {
                origin: camera_location,
                forward_focal,
                right,
                up: true_up,
                aspect,
            },
        )
    }

    /// The camera ray through normalized device coordinates `(u, v)`.
    pub fn cast_ray(&self, u: i64, v: i64) -> (r: Ray)
        requires
            self.wf(),
            -(2 * SCALE as int) <= u <= 2 * SCALE as int,
            -(2 * SCALE as int) <= v <= 2 * SCALE as int,
        ensures
            r == spec_cast_ray(*self, u, v),
            in_box(r.pos, ORIGIN_MAX as int),
            in_box(r.dir, DIR_MAX as int),
    {
        proof {
            assert((2 * SCALE as int) * (4 * SCALE as int) == (8 * SCALE as int) * (
            SCALE as int)) by (nonlinear_arith);
            lemma_muldiv_bound(u as int, 2 * SCALE as int, self.aspect as int, 4 * SCALE as int,
                SCALE as int, 8 * SCALE as int);
        }
        let ua = fmul(u, self.aspect);
        proof {
            lemma_scale_box(self.right, SCALE as int, ua as int, 8 * SCALE as int);
            lemma_scale_box(self.up, 2 * SCALE as int, v as int, 2 * SCALE as int);
            assert((SCALE as int) * (8 * SCALE as int) / (SCALE as int) + 1 == 8 * SCALE as int
                + 1) by (nonlinear_arith)
                requires
                    SCALE == 1048576,
            ;
            assert((2 * SCALE as int) * (2 * SCALE as int) / (SCALE as int) + 1 == 4
                * SCALE as int + 1) by (nonlinear_arith)
                requires
                    SCALE == 1048576,
            ;
        }
        let ru = self.right.mult(ua);
        let uv = self.up.mult(v);
        let dir = self.forward_focal.add(&ru).add(&uv);
        Ray { pos: self.origin, dir }
    }
}

/// Scaling a bounded vector by a bounded fixed-point factor keeps each
/// component within `box * factor / SCALE + 1`.
proof fn lemma_scale_box(a: Vec3, ba: int, k: int, bk: int)
    requires
        0 <= ba,
        0 <= bk,
        in_box(a, ba),
        -bk <= k <= bk,
    ensures
        -(ba * bk / (SCALE as int) + 1) <= tdiv(a.x * k, SCALE as int) <= ba * bk / (SCALE as int)
            + 1,
        -(ba * bk / (SCALE as int) + 1) <= tdiv(a.y * k, SCALE as int) <= ba * bk / (SCALE as int)
            + 1,
        -(ba * bk / (SCALE as int) + 1) <= tdiv(a.z * k, SCALE as int) <= ba * bk / (SCALE as int)
            + 1,
{
    let q = ba * bk / (SCALE as int);
    assert(0 <= ba * bk) by (nonlinear_arith)
        requires
            0 <= ba,
            0 <= bk,
    ;
    vstd::arithmetic::div_mod::lemma_fundamental_div_mod(ba * bk, SCALE as int);
    assert(0 <= (ba * bk) % (SCALE as int) < SCALE as int);
    assert((q + 1) * (SCALE as int) == (SCALE as int) * q + (SCALE as int)) by (nonlinear_arith);
    assert(ba * bk <= (q + 1) * (SCALE as int));
    lemma_muldiv_bound(a.x as int, ba, k, bk, SCALE as int, q + 1);
    lemma_muldiv_bound(a.y as int, ba, k, bk, SCALE as int, q + 1);
    lemma_muldiv_bound(a.z as int, ba, k, bk, SCALE as int, q + 1);
}

/// Divides a cross product of two unit-scale vectors back down by
/// `SCALE`, keeping it unit-scale (scaling by the raw integer one is
/// dividing by `SCALE` in fixed point).
fn scale_down_unit(v: &Vec3) -> (r: Vec3)
    requires
        in_box(*v, 2 * ((SCALE as int) * (SCALE as int))),
    ensures
        r == spec_scale(*v, 1),
        in_box(r, 2 * SCALE as int),
{
    proof {
        lemma_muldiv_bound(v.x as int, 2 * ((SCALE as int) * (SCALE as int)), 1, 1,
            SCALE as int, 2 * SCALE as int);
        lemma_muldiv_bound(v.y as int, 2 * ((SCALE as int) * (SCALE as int)), 1, 1,
            SCALE as int, 2 * SCALE as int);
        lemma_muldiv_bound(v.z as int, 2 * ((SCALE as int) * (SCALE as int)), 1, 1,
            SCALE as int, 2 * SCALE as int);
        assert((2 * ((SCALE as int) * (SCALE as int))) * 1 == (2 * SCALE as int) * (
        (SCALE as int))) by (nonlinear_arith);
    }
    v.mult(1)
}

} // verus!
