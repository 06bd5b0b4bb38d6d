//! Scene objects: a shape, its material, and a placement.
//!
//! Placement is a translation; an incoming ray is moved into the
//! object's local space by the inverse translation, which in fixed-point
//! arithmetic is exact, and the hit's time and normal carry back to
//! world space unchanged.

use vstd::prelude::*;
use crate::fx::{COORD_MAX, ORIGIN_MAX, DIR_MAX};
use crate::vec3::{Vec3, spec_sub, in_box};
use crate::ray::Ray;
use crate::shape::{Shape, ShapeCollisionInformation, collision_wf};
use crate::material::Material;

verus! {

/// What an object reports about a hit: the ray parameter and the world
/// surface normal.
#[derive(Clone, Copy, Debug, PartialEq, Eq, Structural)]
pub struct HitRecord {
    pub time: i64,
    pub normal: Vec3,
}

#[derive(Clone, Debug)]
pub struct Object {
    pub shape: Shape,
    pub material: Material,
    pub offset: Vec3,
}

/// The specification mirror of `Object::intersect`: the ray moves into
/// local space by the inverse of the placement, and the hit's time and
/// normal are placement-invariant.
pub open spec fn spec_object_intersect(o: Object, r: Ray, eps: i64) -> Option<HitRecord> {
    let local = Ray { pos: spec_sub(r.pos, o.offset), dir: r.dir };
    match o.shape.spec_intersect(local, eps) {
        None => None,
        Some(c) => Some(HitRecord { time: c.distance, normal: c.normal }),
    }
}

impl Object {
    pub open spec fn wf(self) -> bool {
        &&& self.shape.wf()
        &&& self.material.wf()
        &&& in_box(self.offset, COORD_MAX as int)
    }

    /// An object placed at the origin.
    pub fn new(shape: Shape, material: Material) -> (o: Object)
        ensures
            o.shape == shape,
            o.material == material,
            o.offset == (Vec3 { x: 0, y: 0, z: 0 }),
    {
        Object { shape, material, offset: Vec3 { x: 0, y: 0, z: 0 } }
    }

    /// The same object, moved by `(x, y, z)`.
    pub fn translate(self, x: i64, y: i64, z: i64) -> (o: Object)
        requires
            -(COORD_MAX as int) <= self.offset.x + x <= COORD_MAX as int,
            -(COORD_MAX as int) <= self.offset.y + y <= COORD_MAX as int,
            -(COORD_MAX as int) <= self.offset.z + z <= COORD_MAX as int,
        ensures
            o.shape == self.shape,
            o.material == self.material,
            o.offset == crate::vec3::spec_add(self.offset, Vec3 { x, y, z }),
            in_box(o.offset, COORD_MAX as int),
    {
        let offset = self.offset.add(&Vec3 { x, y, z });
        Object { shape: self.shape, material: self.material, offset }
    }

    pub fn intersect(&self, ray: &Ray, epsilon: i64) -> (res: Option<HitRecord>)
        requires
            self.wf(),
            in_box(ray.pos, ORIGIN_MAX as int),
            in_box(ray.dir, DIR_MAX as int),
            0 <= epsilon,
        ensures
            res == spec_object_intersect(*self, *ray, epsilon),
            res is Some ==> epsilon < res->Some_0.time <= crate::fx::T_MAX,
            res is Some ==> in_box(res->Some_0.normal, crate::fx::SCALE as int),
    {
        let local = Ray { pos: ray.pos.sub(&self.offset), dir: ray.dir };
        match self.shape.intersect(&local, epsilon) {
            None => None,
            Some(c) => Some(HitRecord { time: c.distance, normal: c.normal }),
        }
    }
}

} // verus!
