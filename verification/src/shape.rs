//! Geometric primitives and their intersection tests.
//!
//! Every intersection is a total function: a degenerate ray, a parallel
//! plane, a negative discriminant or a hit farther than `T_MAX` are all
//! ordinary misses, never errors.  Each test's contract equates its result
//! with a specification mirror, exact down to the truncated divisions.

pub mod sphere;
pub mod plane;
pub mod mesh;

use vstd::prelude::*;
use crate::vec3::Vec3;
use crate::ray::Ray;
use crate::fx::T_MAX;

verus! {

/// What a shape reports about a hit: the ray parameter (the distance, for
/// a unit direction), the surface normal, and the hit point, all in the
/// shape's own coordinate space.
#[derive(Clone, Copy, Debug, PartialEq, Eq, Structural)]
pub struct ShapeCollisionInformation {
    pub distance: i64,
    pub normal: Vec3,
    pub intersection_point: Vec3,
}

/// A closed set of shape variants, dispatched by `match`.
#[derive(Clone, Debug)]
pub enum Shape {
    Sphere(sphere::Sphere),
    Plane(plane::Plane),
    Mesh(mesh::Mesh),
}

/// Every hit record an intersection test can report: distance within
/// `(epsilon, T_MAX]`, normal components within `SCALE`, hit point within
/// the reachable world box.
pub open spec fn collision_wf(c: ShapeCollisionInformation, eps: i64) -> bool {
    &&& eps < c.distance <= T_MAX
    &&& crate::vec3::in_box(c.normal, crate::fx::SCALE as int)
    &&& crate::vec3::in_box(c.intersection_point, 70377334112256)
}

impl Shape {
    pub open spec fn wf(self) -> bool {
        match self {
            Shape::Sphere(s) => s.wf(),
            Shape::Plane(p) => p.wf(),
            Shape::Mesh(m) => m.wf(),
        }
    }

    /// The specification mirror of `intersect`.
    pub open spec fn spec_intersect(self, ray: Ray, eps: i64) -> Option<
        ShapeCollisionInformation,
    > {
        match self {
            Shape::Sphere(s) => sphere::spec_sphere_intersect(s, ray, eps),
            Shape::Plane(p) => plane::spec_plane_intersect(p, ray, eps),
            Shape::Mesh(m) => mesh::spec_mesh_intersect(m, ray, eps),
        }
    }

    /// Intersects a ray against this shape.
    pub fn intersect(&self, ray: &Ray, epsilon: i64) -> (res: Option<ShapeCollisionInformation>)
        requires
            self.wf(),
            crate::vec3::in_box(ray.pos, crate::fx::POS_MAX as int),
            crate::vec3::in_box(ray.dir, crate::fx::DIR_MAX as int),
            0 <= epsilon,
        ensures
            res == self.spec_intersect(*ray, epsilon),
            res is Some ==> collision_wf(res->Some_0, epsilon),
    {
        match self {
            Shape::Sphere(s) => s.intersect(ray, epsilon),
            Shape::Plane(p) => p.intersect(ray, epsilon),
            Shape::Mesh(m) => m.intersect(ray, epsilon),
        }
    }
}

} // verus!
