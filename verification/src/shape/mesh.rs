//! Triangle meshes with an axis-aligned bounding box.
//!
//! A mesh keeps its triangles in a local frame around `center`; an
//! incoming ray is translated into that frame, rejected early by a slab
//! test against the bounding box, and otherwise tested against the
//! triangles in order.  The mesh reports the first triangle that
//! intersects, not the nearest -- sufficient for convex, non-overlapping
//! meshes, and exactly what the contract states.

use vstd::prelude::*;
use crate::fx::{SCALE, T_MAX, COORD_MAX, POS_MAX, DIR_MAX, tdiv, tdiv_i128,
    lemma_mul_abs_bound, lemma_tdiv_bound};
use crate::vec3::{Vec3, spec_sub, spec_add, spec_unit, dot_raw, norm2_raw, in_box, dot_wide,
    cross_raw_x, cross_raw_y, cross_raw_z, lemma_dot_raw_bound, lemma_square_nonneg};
use crate::ray::{Ray, spec_eval};
use crate::shape::{ShapeCollisionInformation, collision_wf};

verus! {

/// Bound on the components of mesh vertices, in the mesh's local frame.
pub const MESH_MAX: i64 = 536870912;

/// The sentinel standing for an unbounded slab interval end.
pub const SLAB_INF: i64 = 1152921504606846976;

#[derive(Clone, Copy, Debug, PartialEq, Eq, Structural)]
pub struct Triangle {
    pub a: Vec3,
    pub b: Vec3,
    pub c: Vec3,
}

#[derive(Clone, Copy, Debug, PartialEq, Eq, Structural)]
pub struct AABB {
    pub min: Vec3,
    pub max: Vec3,
}

#[derive(Clone, Debug)]
pub struct Mesh {
    pub center: Vec3,
    pub triangles: Vec<Triangle>,
    pub bounding_box: AABB,
}

pub open spec fn triangle_wf(t: Triangle) -> bool {
    &&& in_box(t.a, MESH_MAX as int)
    &&& in_box(t.b, MESH_MAX as int)
    &&& in_box(t.c, MESH_MAX as int)
}

/// One slab axis: the updated `(tmin, tmax)` pair after clipping against
/// the two planes of this axis, or the pair unchanged when the ray runs
/// parallel to the axis.
pub open spec fn spec_slab_axis(
    mn: i64,
    mx: i64,
    pos: i64,
    dir: i64,
    tmin: int,
    tmax: int,
) -> (int, int) {
    if dir == 0 {
        (tmin, tmax)
    } else {
        let t1 = tdiv((mn - pos) * (SCALE as int), dir as int);
        let t2 = tdiv((mx - pos) * (SCALE as int), dir as int);
        let lo = if t1 < t2 {
            t1
        } else {
            t2
        };
        let hi = if t1 > t2 {
            t1
        } else {
            t2
        };
        let new_min = if tmin > lo {
            tmin
        } else {
            lo
        };
        let new_max = if tmax < hi {
            tmax
        } else {
            hi
        };
        (new_min, new_max)
    }
}

/// The slab test: whether the ray's parameter interval that stays inside
/// the box on every axis is nonempty.
pub open spec fn spec_aabb_hit(bb: AABB, r: Ray) -> bool {
    let x = spec_slab_axis(bb.min.x, bb.max.x, r.pos.x, r.dir.x, -SLAB_INF as int,
        SLAB_INF as int);
    let y = spec_slab_axis(bb.min.y, bb.max.y, r.pos.y, r.dir.y, x.0, x.1);
    let z = spec_slab_axis(bb.min.z, bb.max.z, r.pos.z, r.dir.z, y.0, y.1);
    z.1 >= z.0
}

/// The barycentric numerators and denominator of the triangle test.
pub open spec fn tri_p_vec(t: Triangle, r: Ray) -> Vec3 {
    let e2 = spec_sub(t.c, t.a);
    Vec3 {
        x: cross_raw_x(r.dir, e2) as i64,
        y: cross_raw_y(r.dir, e2) as i64,
        z: cross_raw_z(r.dir, e2) as i64,
    }
}

pub open spec fn tri_det(t: Triangle, r: Ray) -> int {
    dot_raw(spec_sub(t.b, t.a), tri_p_vec(t, r))
}

pub open spec fn tri_u(t: Triangle, r: Ray) -> int {
    tdiv(dot_raw(spec_sub(r.pos, t.a), tri_p_vec(t, r)) * (SCALE as int), tri_det(t, r))
}

/// The components of `q = (pos - a) x e1`, unscaled.
pub open spec fn tri_q_x(t: Triangle, r: Ray) -> int {
    cross_raw_x(spec_sub(r.pos, t.a), spec_sub(t.b, t.a))
}

pub open spec fn tri_q_y(t: Triangle, r: Ray) -> int {
    cross_raw_y(spec_sub(r.pos, t.a), spec_sub(t.b, t.a))
}

pub open spec fn tri_q_z(t: Triangle, r: Ray) -> int {
    cross_raw_z(spec_sub(r.pos, t.a), spec_sub(t.b, t.a))
}

pub open spec fn tri_v(t: Triangle, r: Ray) -> int {
    tdiv(
        (r.dir.x * tri_q_x(t, r) + r.dir.y * tri_q_y(t, r) + r.dir.z * tri_q_z(t, r)) * (
        SCALE as int),
        tri_det(t, r),
    )
}

pub open spec fn tri_t(t: Triangle, r: Ray) -> int {
    let e2 = spec_sub(t.c, t.a);
    tdiv(
        (e2.x * tri_q_x(t, r) + e2.y * tri_q_y(t, r) + e2.z * tri_q_z(t, r)) * (SCALE as int),
        tri_det(t, r),
    )
}

/// The triangle's geometric normal: the normalized cross product of its
/// edges, with a fixed stand-in if rounding collapses it.
pub open spec fn spec_triangle_normal(t: Triangle) -> Vec3 {
    let n = Vec3 {
        x: cross_raw_x(spec_sub(t.b, t.a), spec_sub(t.c, t.a)) as i64,
        y: cross_raw_y(spec_sub(t.b, t.a), spec_sub(t.c, t.a)) as i64,
        z: cross_raw_z(spec_sub(t.b, t.a), spec_sub(t.c, t.a)) as i64,
    };
    if norm2_raw(n) >= 1 {
        spec_unit(n)
    } else {
        Vec3 { x: 0, y: 0, z: SCALE }
    }
}

/// The specification mirror of `Triangle::intersect`: the Moller-Trumbore
/// test with barycentric coordinates `u`, `v` bounded to `[0, SCALE]` and
/// `u + v <= SCALE`, and the hit parameter bounded to `(eps, T_MAX]`.
pub open spec fn spec_triangle_intersect(t: Triangle, r: Ray, eps: i64) -> Option<
    ShapeCollisionInformation,
> {
    if tri_det(t, r) == 0 {
        None
    } else if !(0 <= tri_u(t, r) <= SCALE) {
        None
    } else if !(0 <= tri_v(t, r) && tri_u(t, r) + tri_v(t, r) <= SCALE) {
        None
    } else if eps < tri_t(t, r) <= T_MAX {
        Some(
            ShapeCollisionInformation {
                distance: tri_t(t, r) as i64,
                normal: spec_triangle_normal(t),
                intersection_point: spec_eval(r, tri_t(t, r) as i64),
            },
        )
    } else {
        None
    }
}

impl Triangle {
    /// The Moller-Trumbore ray-triangle test, in the mesh's local frame.
    pub fn intersect(&self, ray: &Ray, epsilon: i64) -> (res: Option<ShapeCollisionInformation>)
        requires
            triangle_wf(*self),
            in_box(ray.pos, 73014444032),
            in_box(ray.dir, DIR_MAX as int),
            0 <= epsilon,
        ensures
            res == spec_triangle_intersect(*self, *ray, epsilon),
            res is Some ==> collision_wf(res->Some_0, epsilon),
            res is Some ==> in_box(res->Some_0.intersection_point, 70373039144960),
    {
        let e1 = self.b.sub(&self.a);
        let e2 = self.c.sub(&self.a);
        let p_vec = ray.dir.cross(&e2);
        proof {
            lemma_mul_abs_bound(ray.dir.y as int, DIR_MAX as int, e2.z as int, 2 * MESH_MAX as int);
            lemma_mul_abs_bound(ray.dir.z as int, DIR_MAX as int, e2.y as int, 2 * MESH_MAX as int);
            lemma_mul_abs_bound(ray.dir.z as int, DIR_MAX as int, e2.x as int, 2 * MESH_MAX as int);
            lemma_mul_abs_bound(ray.dir.x as int, DIR_MAX as int, e2.z as int, 2 * MESH_MAX as int);
            lemma_mul_abs_bound(ray.dir.x as int, DIR_MAX as int, e2.y as int, 2 * MESH_MAX as int);
            lemma_mul_abs_bound(ray.dir.y as int, DIR_MAX as int, e2.x as int, 2 * MESH_MAX as int);
            assert(2 * ((DIR_MAX as int) * (2 * MESH_MAX as int)) == 72057594037927936int);
        }
        let det = dot_wide(&e1, &p_vec);
        proof {
            lemma_dot_raw_bound(e1, 2 * MESH_MAX as int, p_vec, 72057594037927936);
            assert(3 * ((2 * MESH_MAX as int) * 72057594037927936int)
                == 232113757366008801543585792int);
        }
        if det == 0 {
            return None;
        }
        let t_vec = ray.pos.sub(&self.a);
        let u_num = dot_wide(&t_vec, &p_vec);
        proof {
            lemma_dot_raw_bound(t_vec, 73551314944, p_vec, 72057594037927936);
            assert(3 * (73551314944int * 72057594037927936int)
                == 15899792379571602905735626752int);
            lemma_mul_abs_bound(u_num as int, 15899792379571602905735626752,
                SCALE as int, SCALE as int);
        }
        let u = tdiv_i128(u_num * (SCALE as i128), det);
        if u < 0 || u > SCALE as i128 {
            return None;
        }
        // q = t_vec x e1, at full width
        proof {
            lemma_mul_abs_bound(t_vec.y as int, 73551314944, e1.z as int, 2 * MESH_MAX as int);
            lemma_mul_abs_bound(t_vec.z as int, 73551314944, e1.y as int, 2 * MESH_MAX as int);
            lemma_mul_abs_bound(t_vec.z as int, 73551314944, e1.x as int, 2 * MESH_MAX as int);
            lemma_mul_abs_bound(t_vec.x as int, 73551314944, e1.z as int, 2 * MESH_MAX as int);
            lemma_mul_abs_bound(t_vec.x as int, 73551314944, e1.y as int, 2 * MESH_MAX as int);
            lemma_mul_abs_bound(t_vec.y as int, 73551314944, e1.x as int, 2 * MESH_MAX as int);
        }
        let qx = (t_vec.y as i128) * (e1.z as i128) - (t_vec.z as i128) * (e1.y as i128);
        let qy = (t_vec.z as i128) * (e1.x as i128) - (t_vec.x as i128) * (e1.z as i128);
        let qz = (t_vec.x as i128) * (e1.y as i128) - (t_vec.y as i128) * (e1.x as i128);
        proof {
            let qb = 2 * (73551314944int * (2 * MESH_MAX as int));
            lemma_mul_abs_bound(ray.dir.x as int, DIR_MAX as int, qx as int, qb);
            lemma_mul_abs_bound(ray.dir.y as int, DIR_MAX as int, qy as int, qb);
            lemma_mul_abs_bound(ray.dir.z as int, DIR_MAX as int, qz as int, qb);
        }
        let v_num = (ray.dir.x as i128) * qx + (ray.dir.y as i128) * qy + (ray.dir.z as i128)
            * qz;
        proof {
            let qb = 2 * (73551314944int * (2 * MESH_MAX as int));
            lemma_mul_abs_bound(v_num as int, 3 * ((DIR_MAX as int) * qb), SCALE as int,
                SCALE as int);
        }
        let v = tdiv_i128(v_num * (SCALE as i128), det);
        if v < 0 || u + v > SCALE as i128 {
            return None;
        }
        proof {
            let qb = 2 * (73551314944int * (2 * MESH_MAX as int));
            lemma_mul_abs_bound(e2.x as int, 2 * MESH_MAX as int, qx as int, qb);
            lemma_mul_abs_bound(e2.y as int, 2 * MESH_MAX as int, qy as int, qb);
            lemma_mul_abs_bound(e2.z as int, 2 * MESH_MAX as int, qz as int, qb);
        }
        let t_num = (e2.x as i128) * qx + (e2.y as i128) * qy + (e2.z as i128) * qz;
        proof {
            let qb = 2 * (73551314944int * (2 * MESH_MAX as int));
            lemma_mul_abs_bound(t_num as int, 3 * ((2 * MESH_MAX as int) * qb), SCALE as int,
                SCALE as int);
        }
        let t = tdiv_i128(t_num * (SCALE as i128), det);
        if (epsilon as i128) < t && t <= T_MAX as i128 {
            let ti = t as i64;
            let p = ray.eval(ti);
            proof {
                lemma_mul_abs_bound(e1.y as int, 2 * MESH_MAX as int, e2.z as int,
                    2 * MESH_MAX as int);
                lemma_mul_abs_bound(e1.z as int, 2 * MESH_MAX as int, e2.y as int,
                    2 * MESH_MAX as int);
                lemma_mul_abs_bound(e1.z as int, 2 * MESH_MAX as int, e2.x as int,
                    2 * MESH_MAX as int);
                lemma_mul_abs_bound(e1.x as int, 2 * MESH_MAX as int, e2.z as int,
                    2 * MESH_MAX as int);
                lemma_mul_abs_bound(e1.x as int, 2 * MESH_MAX as int, e2.y as int,
                    2 * MESH_MAX as int);
                lemma_mul_abs_bound(e1.y as int, 2 * MESH_MAX as int, e2.x as int,
                    2 * MESH_MAX as int);
            }
            let n_raw = e1.cross(&e2);
            let n2 = dot_wide(&n_raw, &n_raw);
            proof {
                lemma_square_nonneg(n_raw.x as int);
                lemma_square_nonneg(n_raw.y as int);
                lemma_square_nonneg(n_raw.z as int);
            }
            let normal = if n2 >= 1 {
                n_raw.unit()
            } else {
                Vec3 { x: 0, y: 0, z: SCALE }
            };
            Some(ShapeCollisionInformation { distance: ti, normal, intersection_point: p })
        } else {
            None
        }
    }
}

impl AABB {
    /// The slab test against this box, in the mesh's local frame.
    pub fn intersects(&self, ray: &Ray) -> (res: bool)
        requires
            in_box(self.min, MESH_MAX as int),
            in_box(self.max, MESH_MAX as int),
            in_box(ray.pos, 73014444032),
            in_box(ray.dir, DIR_MAX as int),
        ensures
            res == spec_aabb_hit(*self, *ray),
    {
        let mut tmin: i128 = -(SLAB_INF as i128);
        let mut tmax: i128 = SLAB_INF as i128;
        let r0 = slab_axis(self.min.x, self.max.x, ray.pos.x, ray.dir.x, tmin, tmax);
        let r1 = slab_axis(self.min.y, self.max.y, ray.pos.y, ray.dir.y, r0.0, r0.1);
        let r2 = slab_axis(self.min.z, self.max.z, ray.pos.z, ray.dir.z, r1.0, r1.1);
        r2.1 >= r2.0
    }
}

/// One axis of the slab test.
fn slab_axis(mn: i64, mx: i64, pos: i64, dir: i64, tmin: i128, tmax: i128) -> (res: (i128, i128))
    requires
        -(MESH_MAX as int) <= mn <= MESH_MAX as int,
        -(MESH_MAX as int) <= mx <= MESH_MAX as int,
        -73014444032 <= pos <= 73014444032,
        -(DIR_MAX as int) <= dir <= DIR_MAX as int,
        -(SLAB_INF as int) <= tmin <= SLAB_INF as int,
        -(SLAB_INF as int) <= tmax <= SLAB_INF as int,
    ensures
        (res.0 as int, res.1 as int) == spec_slab_axis(mn, mx, pos, dir, tmin as int,
            tmax as int),
        -(SLAB_INF as int) <= res.0 <= SLAB_INF as int,
        -(SLAB_INF as int) <= res.1 <= SLAB_INF as int,
{
    if dir == 0 {
        (tmin, tmax)
    } else {
        proof {
            lemma_mul_abs_bound(mn - pos, 73551314944, SCALE as int, SCALE as int);
            lemma_mul_abs_bound(mx - pos, 73551314944, SCALE as int, SCALE as int);
            lemma_tdiv_bound((mn - pos) * (SCALE as int), 1, 73551314944 * (SCALE as int));
            crate::fx::lemma_tdiv_quotient_bound((mn - pos) * (SCALE as int), 1,
                73551314944 * (SCALE as int));
        }
        let t1 = tdiv_i128(((mn as i128) - (pos as i128)) * (SCALE as i128), dir as i128);
        let t2 = tdiv_i128(((mx as i128) - (pos as i128)) * (SCALE as i128), dir as i128);
        proof {
            lemma_slab_t_bound((mn - pos) as int, dir as int);
            lemma_slab_t_bound((mx - pos) as int, dir as int);
        }
        let lo = if t1 < t2 {
            t1
        } else {
            t2
        };
        let hi = if t1 > t2 {
            t1
        } else {
            t2
        };
        let new_min = if tmin > lo {
            tmin
        } else {
            lo
        };
        let new_max = if tmax < hi {
            tmax
        } else {
            hi
        };
        (new_min, new_max)
    }
}

/// A slab plane parameter stays within the sentinel bound.
proof fn lemma_slab_t_bound(diff: int, dir: int)
    requires
        -73551314944 <= diff <= 73551314944,
        dir != 0,
        -(DIR_MAX as int) <= dir <= DIR_MAX as int,
    ensures
        -(SLAB_INF as int) <= tdiv(diff * (SCALE as int), dir) <= SLAB_INF as int,
{
    lemma_mul_abs_bound(diff, 73551314944, SCALE as int, SCALE as int);
    if dir >= 1 {
        lemma_tdiv_bound(diff * (SCALE as int), dir, 73551314944 * (SCALE as int));
    } else {
        assert(tdiv(diff * (SCALE as int), dir) == -tdiv(diff * (SCALE as int), -dir));
        lemma_tdiv_bound(diff * (SCALE as int), -dir, 73551314944 * (SCALE as int));
    }
}

/// The first triangle at or after `i` that intersects, scanning in order.
pub open spec fn spec_mesh_first_hit(tris: Seq<Triangle>, i: int, r: Ray, eps: i64) -> Option<
    ShapeCollisionInformation,
>
    decreases tris.len() - i,
{
    if i < 0 || i >= tris.len() {
        None
    } else {
        match spec_triangle_intersect(tris[i], r, eps) {
            Some(h) => Some(h),
            None => spec_mesh_first_hit(tris, i + 1, r, eps),
        }
    }
}

/// The specification mirror of `Mesh::intersect`: the ray moves into the
/// mesh's local frame, the bounding box can reject it, and the first
/// intersecting triangle (scan order, not nearest) reports the hit, with
/// the hit point translated back.
pub open spec fn spec_mesh_intersect(m: Mesh, r: Ray, eps: i64) -> Option<
    ShapeCollisionInformation,
> {
    let local = Ray { pos: spec_sub(r.pos, m.center), dir: r.dir };
    if !spec_aabb_hit(m.bounding_box, local) {
        None
    } else {
        match spec_mesh_first_hit(m.triangles@, 0, local, eps) {
            None => None,
            Some(h) => Some(
                ShapeCollisionInformation {
                    distance: h.distance,
                    normal: h.normal,
                    intersection_point: spec_add(h.intersection_point, m.center),
                },
            ),
        }
    }
}

impl Mesh {
    pub open spec fn wf(self) -> bool {
        &&& in_box(self.center, COORD_MAX as int)
        &&& self.triangles@.len() >= 1
        &&& forall|i: int| 0 <= i < self.triangles@.len() ==> triangle_wf(#[trigger] self.triangles@[i])
        &&& in_box(self.bounding_box.min, MESH_MAX as int)
        &&& in_box(self.bounding_box.max, MESH_MAX as int)
    }

    /// How many triangles the mesh holds.
    pub fn triangle_count(&self) -> (n: usize)
        ensures
            n == self.triangles@.len(),
    {
        self.triangles.len()
    }

    pub fn intersect(&self, ray: &Ray, epsilon: i64) -> (res: Option<ShapeCollisionInformation>)
        requires
            self.wf(),
            in_box(ray.pos, POS_MAX as int),
            in_box(ray.dir, DIR_MAX as int),
            0 <= epsilon,
        ensures
            res == spec_mesh_intersect(*self, *ray, epsilon),
            res is Some ==> collision_wf(res->Some_0, epsilon),
    {
        let local = Ray { pos: ray.pos.sub(&self.center), dir: ray.dir };
        if !self.bounding_box.intersects(&local) {
            return None;
        }
        let n = self.triangles.len();
        let mut i: usize = 0;
        while i < n
            invariant
                n == self.triangles@.len(),
                0 <= i <= n,
                self.wf(),
                in_box(local.pos, 73014444032),
                in_box(local.dir, DIR_MAX as int),
                local.pos == spec_sub(ray.pos, self.center),
                local.dir == ray.dir,
                spec_aabb_hit(self.bounding_box, local),
                0 <= epsilon,
                in_box(self.center, COORD_MAX as int),
                spec_mesh_first_hit(self.triangles@, 0, local, epsilon) == spec_mesh_first_hit(
                    self.triangles@, i as int, local, epsilon),
            decreases n - i,
        {
            let hit = self.triangles[i].intersect(&local, epsilon);
            match hit {
                Some(h) => {
                    proof {
                        lemma_mesh_point_bound(h.intersection_point, self.center);
                        assert(spec_mesh_first_hit(self.triangles@, i as int, local, epsilon)
                            == Some(h));
                        assert(spec_mesh_first_hit(self.triangles@, 0, local, epsilon)
                            == Some(h));
                    }
                    let world_point = h.intersection_point.add(&self.center);
                    proof {
                        assert(world_point == spec_add(h.intersection_point, self.center));
                        assert(local == (Ray { pos: spec_sub(ray.pos, self.center), dir: ray.dir }));
                        assert(spec_aabb_hit(self.bounding_box, local));
                        assert(spec_mesh_intersect(*self, *ray, epsilon) == Some(
                            ShapeCollisionInformation {
                                distance: h.distance,
                                normal: h.normal,
                                intersection_point: spec_add(h.intersection_point, self.center),
                            },
                        ));
                    }
                    return Some(
                        ShapeCollisionInformation {
                            distance: h.distance,
                            normal: h.normal,
                            intersection_point: world_point,
                        },
                    );
                },
                None => {
                    i = i + 1;
                },
            }
        }
        None
    }
}

/// The smaller of two fixed-point scalars.
pub open spec fn spec_min(a: i64, b: i64) -> i64 {
    if a < b {
        a
    } else {
        b
    }
}

/// The larger of two fixed-point scalars.
pub open spec fn spec_max(a: i64, b: i64) -> i64 {
    if a > b {
        a
    } else {
        b
    }
}

/// The tight axis-aligned box of one triangle.
pub open spec fn spec_tri_bb(t: Triangle) -> AABB {
    AABB {
        min: Vec3 {
            x: spec_min(t.a.x, spec_min(t.b.x, t.c.x)),
            y: spec_min(t.a.y, spec_min(t.b.y, t.c.y)),
            z: spec_min(t.a.z, spec_min(t.b.z, t.c.z)),
        },
        max: Vec3 {
            x: spec_max(t.a.x, spec_max(t.b.x, t.c.x)),
            y: spec_max(t.a.y, spec_max(t.b.y, t.c.y)),
            z: spec_max(t.a.z, spec_max(t.b.z, t.c.z)),
        },
    }
}

/// The union of two axis-aligned boxes.
pub open spec fn spec_bb_join(a: AABB, b: AABB) -> AABB {
    AABB {
        min: Vec3 {
            x: spec_min(a.min.x, b.min.x),
            y: spec_min(a.min.y, b.min.y),
            z: spec_min(a.min.z, b.min.z),
        },
        max: Vec3 {
            x: spec_max(a.max.x, b.max.x),
            y: spec_max(a.max.y, b.max.y),
            z: spec_max(a.max.z, b.max.z),
        },
    }
}

/// The bounding box of the first `k` triangles (`k >= 1`).
pub open spec fn spec_mesh_bb(tris: Seq<Triangle>, k: int) -> AABB
    decreases k,
{
    if k <= 1 {
        spec_tri_bb(tris[0])
    } else {
        spec_bb_join(spec_mesh_bb(tris, k - 1), spec_tri_bb(tris[k - 1]))
    }
}

fn min_i64(a: i64, b: i64) -> (r: i64)
    ensures
        r == spec_min(a, b),
{
    if a < b {
        a
    } else {
        b
    }
}

fn max_i64(a: i64, b: i64) -> (r: i64)
    ensures
        r == spec_max(a, b),
{
    if a > b {
        a
    } else {
        b
    }
}

/// The tight box of one triangle.
fn tri_bb(t: &Triangle) -> (bb: AABB)
    ensures
        bb == spec_tri_bb(*t),
{
    AABB {
        min: Vec3 {
            x: min_i64(t.a.x, min_i64(t.b.x, t.c.x)),
            y: min_i64(t.a.y, min_i64(t.b.y, t.c.y)),
            z: min_i64(t.a.z, min_i64(t.b.z, t.c.z)),
        },
        max: Vec3 {
            x: max_i64(t.a.x, max_i64(t.b.x, t.c.x)),
            y: max_i64(t.a.y, max_i64(t.b.y, t.c.y)),
            z: max_i64(t.a.z, max_i64(t.b.z, t.c.z)),
        },
    }
}

/// Whether every vertex of the triangle lies inside the mesh box.
fn triangle_in_bounds(t: &Triangle) -> (r: bool)
    ensures
        r == triangle_wf(*t),
{
    t.a.within(MESH_MAX) && t.b.within(MESH_MAX) && t.c.within(MESH_MAX)
}

impl Mesh {
    /// Builds a mesh from its triangles, computing the bounding box.
    /// Fails on an empty triangle list or a vertex outside the mesh box.
    pub fn new(center: Vec3, triangles: Vec<Triangle>) -> (res: Option<Mesh>)
        requires
            in_box(center, COORD_MAX as int),
        ensures
            match res {
                None => triangles@.len() == 0 || exists|i: int|
                    0 <= i < triangles@.len() && !triangle_wf(#[trigger] triangles@[i]),
                Some(m) => {
                    &&& m.center == center
                    &&& m.triangles@ == triangles@
                    &&& m.bounding_box == spec_mesh_bb(triangles@, triangles@.len() as int)
                    &&& m.wf()
                },
            },
    {
        let n = triangles.len();
        if n == 0 {
            return None;
        }
        let mut i: usize = 0;
        while i < n
            invariant
                0 <= i <= n,
                n == triangles@.len(),
                forall|k: int| 0 <= k < i ==> triangle_wf(#[trigger] triangles@[k]),
            decreases n - i,
        {
            if !triangle_in_bounds(&triangles[i]) {
                return None;
            }
            i = i + 1;
        }
        let mut bb = tri_bb(&triangles[0]);
        let mut k: usize = 1;
        while k < n
            invariant
                1 <= k <= n,
                n == triangles@.len(),
                forall|j: int| 0 <= j < n ==> triangle_wf(#[trigger] triangles@[j]),
                bb == spec_mesh_bb(triangles@, k as int),
                in_box(bb.min, MESH_MAX as int),
                in_box(bb.max, MESH_MAX as int),
            decreases n - k,
        {
            let tb = tri_bb(&triangles[k]);
            bb = AABB {
                min: Vec3 {
                    x: min_i64(bb.min.x, tb.min.x),
                    y: min_i64(bb.min.y, tb.min.y),
                    z: min_i64(bb.min.z, tb.min.z),
                },
                max: Vec3 {
                    x: max_i64(bb.max.x, tb.max.x),
                    y: max_i64(bb.max.y, tb.max.y),
                    z: max_i64(bb.max.z, tb.max.z),
                },
            };
            k = k + 1;
        }
        Some(Mesh { center, triangles, bounding_box: bb })
    }
}

/// Translating a hit point back to world coordinates cannot overflow.
proof fn lemma_mesh_point_bound(p: Vec3, c: Vec3)
    requires
        in_box(p, 70373039144960),
        in_box(c, COORD_MAX as int),
    ensures
        i64::MIN <= p.x + c.x <= i64::MAX,
        i64::MIN <= p.y + c.y <= i64::MAX,
        i64::MIN <= p.z + c.z <= i64::MAX,
{
}

} // verus!
