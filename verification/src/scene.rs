//! The scene: an append-only collection of placed objects and point
//! lights, answering closest-hit and illumination queries.
//!
//! `get_closest_hit` keeps the hit with the smallest parameter; ties go
//! to the earliest object in insertion order.  The contract both equates
//! the result with a specification fold and characterizes it as the
//! first minimal hit.

use vstd::prelude::*;
use crate::fx::{ORIGIN_MAX, DIR_MAX};
use crate::vec3::in_box;
use crate::ray::Ray;
use crate::object::{Object, HitRecord, spec_object_intersect};
use crate::lights::{PointLight, IlluminationRecord, spec_illuminate};

verus! {

pub struct Scene {
    pub objects: Vec<Object>,
    pub lights: Vec<PointLight>,
}

/// The closest hit among the objects from index `i` on, as a pair of the
/// winning object's index and its record; an earlier object wins ties.
pub open spec fn spec_closest_from(objs: Seq<Object>, i: int, r: Ray, eps: i64) -> Option<
    (int, HitRecord),
>
    decreases objs.len() - i,
{
    if i < 0 || i >= objs.len() {
        None
    } else {
        let rest = spec_closest_from(objs, i + 1, r, eps);
        match spec_object_intersect(objs[i], r, eps) {
            None => rest,
            Some(h) => match rest {
                None => Some((i, h)),
                Some((j, hj)) => if h.time <= hj.time {
                    Some((i, h))
                } else {
                    Some((j, hj))
                },
            },
        }
    }
}

/// The record alone, without the index.
pub open spec fn spec_closest_hit(s: Scene, r: Ray, eps: i64) -> Option<HitRecord> {
    match spec_closest_from(s.objects@, 0, r, eps) {
        None => None,
        Some((i, h)) => Some(h),
    }
}

impl Scene {
    pub open spec fn wf(self) -> bool {
        &&& forall|i: int| 0 <= i < self.objects@.len() ==> (#[trigger] self.objects@[i]).wf()
        &&& forall|i: int| 0 <= i < self.lights@.len() ==> (#[trigger] self.lights@[i]).wf()
    }

    /// An empty scene.
    pub fn new() -> (s: Scene)
        ensures
            s.objects@.len() == 0,
            s.lights@.len() == 0,
            s.wf(),
    {
        Scene { objects: Vec::new(), lights: Vec::new() }
    }

    /// Appends an object; nothing else changes.
    pub fn add_object(&mut self, object: Object)
        ensures
            final(self).objects@ == old(self).objects@.push(object),
            final(self).lights@ == old(self).lights@,
    {
        self.objects.push(object);
    }

    /// Appends a light; nothing else changes.
    pub fn add_light(&mut self, light: PointLight)
        ensures
            final(self).lights@ == old(self).lights@.push(light),
            final(self).objects@ == old(self).objects@,
    {
        self.lights.push(light);
    }

    /// The closest hit and the index of the object it belongs to.
    pub fn get_closest_hit_full(&self, ray: &Ray, epsilon: i64) -> (res: Option<(
        usize,
        HitRecord,
    )>)
        requires
            self.wf(),
            in_box(ray.pos, ORIGIN_MAX as int),
            in_box(ray.dir, DIR_MAX as int),
            0 <= epsilon,
        ensures
            match res {
                None => spec_closest_from(self.objects@, 0, *ray, epsilon) is None,
                Some((i, h)) => {
                    &&& spec_closest_from(self.objects@, 0, *ray, epsilon) == Some((i as int, h))
                    &&& i < self.objects@.len()
                    &&& epsilon < h.time <= crate::fx::T_MAX
                    &&& in_box(h.normal, crate::fx::SCALE as int)
                },
            },
    {
        let n = self.objects.len();
        let mut i: usize = n;
        let mut best: Option<(usize, HitRecord)> = None;
        while i > 0
            invariant
                0 <= i <= n,
                n == self.objects@.len(),
                self.wf(),
                in_box(ray.pos, ORIGIN_MAX as int),
                in_box(ray.dir, DIR_MAX as int),
                0 <= epsilon,
                match best {
                    None => spec_closest_from(self.objects@, i as int, *ray, epsilon) is None,
                    Some((j, h)) => {
                        &&& spec_closest_from(self.objects@, i as int, *ray, epsilon) == Some(
                            (j as int, h))
                        &&& j < n
                        &&& epsilon < h.time <= crate::fx::T_MAX
                        &&& in_box(h.normal, crate::fx::SCALE as int)
                    },
                },
            decreases i,
        {
            i = i - 1;
            let hit = self.objects[i].intersect(ray, epsilon);
            best = match (hit, best) {
                (Some(h), None) => Some((i, h)),
                (Some(h), Some((j, hj))) => if h.time <= hj.time {
                    Some((i, h))
                } else {
                    Some((j, hj))
                },
                (None, b) => b,
            };
        }
        best
    }

    /// The closest hit along a ray, if any: the record with the smallest
    /// parameter strictly beyond the epsilon, the earliest object
    /// breaking ties.
    pub fn get_closest_hit(&self, ray: &Ray, epsilon: i64) -> (res: Option<HitRecord>)
        requires
            self.wf(),
            in_box(ray.pos, ORIGIN_MAX as int),
            in_box(ray.dir, DIR_MAX as int),
            0 <= epsilon,
        ensures
            res == spec_closest_hit(*self, *ray, epsilon),
            res is Some ==> epsilon < res->Some_0.time <= crate::fx::T_MAX,
            res is Some ==> in_box(res->Some_0.normal, crate::fx::SCALE as int),
    {
        match self.get_closest_hit_full(ray, epsilon) {
            None => None,
            Some((_, h)) => Some(h),
        }
    }

    /// One illumination record per light, in insertion order.
    pub fn illuminations(&self, point: crate::vec3::Vec3) -> (res: Vec<IlluminationRecord>)
        requires
            self.wf(),
            in_box(point, 70377334112256),
        ensures
            res@.len() == self.lights@.len(),
            forall|i: int|
                0 <= i < res@.len() ==> res@[i] == spec_illuminate(#[trigger] self.lights@[i],
                    point),
            forall|i: int|
                0 <= i < res@.len() ==> in_box((#[trigger] res@[i]).to_light.dir,
                    crate::fx::SCALE as int) && res@[i].to_light.pos == point && 0 <= res@[i].time,
    {
        let n = self.lights.len();
        let mut res: Vec<IlluminationRecord> = Vec::new();
        let mut i: usize = 0;
        while i < n
            invariant
                0 <= i <= n,
                n == self.lights@.len(),
                self.wf(),
                in_box(point, 70377334112256),
                res@.len() == i,
                forall|k: int|
                    0 <= k < i ==> res@[k] == spec_illuminate(#[trigger] self.lights@[k], point),
                forall|k: int|
                    0 <= k < i ==> in_box((#[trigger] res@[k]).to_light.dir,
                        crate::fx::SCALE as int) && res@[k].to_light.pos == point && 0 <= res@[
                        k].time,
            decreases n - i,
        {
            let rec = self.lights[i].illuminate(point);
            res.push(rec);
            i = i + 1;
        }
        res
    }
}

/// The closest hit really is the first minimal one: if the fold reports
/// `(i, h)`, object `i` reports `h`, no object reports an earlier hit,
/// and every object before `i` either misses or hits strictly later; if
/// it reports nothing, every object misses.
pub proof fn lemma_closest_hit_minimal(objs: Seq<Object>, k: int, r: Ray, eps: i64)
    requires
        0 <= k <= objs.len(),
    ensures
        match spec_closest_from(objs, k, r, eps) {
            None => forall|j: int|
                k <= j < objs.len() ==> spec_object_intersect(#[trigger] objs[j], r, eps) is None,
            Some((i, h)) => {
                &&& k <= i < objs.len()
                &&& spec_object_intersect(objs[i], r, eps) == Some(h)
                &&& forall|j: int|
                    k <= j < objs.len() && spec_object_intersect(#[trigger] objs[j], r,
                        eps) is Some ==> spec_object_intersect(objs[j], r, eps)->Some_0.time
                        >= h.time
                &&& forall|j: int|
                    k <= j < i ==> (spec_object_intersect(#[trigger] objs[j], r, eps) is None
                        || spec_object_intersect(objs[j], r, eps)->Some_0.time > h.time)
            },
        },
    decreases objs.len() - k,
{
    if k < objs.len() {
        lemma_closest_hit_minimal(objs, k + 1, r, eps);
    }
}

} // verus!
