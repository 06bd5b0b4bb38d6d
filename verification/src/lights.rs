//! Point lights and the illumination records shadow tests consume.

use vstd::prelude::*;
use crate::fx::{SCALE, COORD_MAX, spec_isqrt};
use crate::color::{Color, nonneg, bounded};
use crate::vec3::{Vec3, spec_sub, spec_unit, norm2_raw, in_box, dot_wide, lemma_square_nonneg};
use crate::ray::Ray;

verus! {

/// What one light contributes at a point: its color, a ray from the
/// point toward the light, and the travel parameter to reach it -- a
/// shadow test compares a blocking hit's parameter against `time`.
#[derive(Clone, Copy, Debug, PartialEq, Eq, Structural)]
pub struct IlluminationRecord {
    pub color: Color,
    pub to_light: Ray,
    pub time: i64,
}

#[derive(Clone, Copy, Debug, PartialEq, Eq, Structural)]
pub struct PointLight {
    pub location: Vec3,
    pub color: Color,
}

/// The specification mirror of `PointLight::illuminate`: the ray toward
/// the light (normalized, with a fixed axis standing in if the point is
/// the light itself) and the fixed-point distance to it.
pub open spec fn spec_illuminate(l: PointLight, point: Vec3) -> IlluminationRecord {
    let d = spec_sub(l.location, point);
    let dir = if norm2_raw(d) >= 1 {
        spec_unit(d)
    } else {
        Vec3 { x: 0, y: 0, z: SCALE }
    };
    IlluminationRecord {
        color: l.color,
        to_light: Ray { pos: point, dir },
        time: spec_isqrt(norm2_raw(d) as nat) as i64,
    }
}

impl PointLight {
    pub open spec fn wf(self) -> bool {
        &&& in_box(self.location, COORD_MAX as int)
        &&& nonneg(self.color)
        &&& bounded(self.color, SCALE as int)
    }

    pub fn new(location: Vec3, color: Color) -> (l: PointLight)
        ensures
            l.location == location,
            l.color == color,
    {
        PointLight { location, color }
    }

    /// The illumination this light provides at `point`.
    pub fn illuminate(&self, point: Vec3) -> (res: IlluminationRecord)
        requires
            self.wf(),
            in_box(point, 70377334112256),
        ensures
            res == spec_illuminate(*self, point),
            in_box(res.to_light.dir, SCALE as int),
            res.to_light.pos == point,
            0 <= res.time,
    {
        let d = self.location.sub(&point);
        let n2 = dot_wide(&d, &d);
        proof {
            lemma_square_nonneg(d.x as int);
            lemma_square_nonneg(d.y as int);
            lemma_square_nonneg(d.z as int);
        }
        let dir = if n2 >= 1 {
            d.unit()
        } else {
            Vec3 { x: 0, y: 0, z: SCALE }
        };
        let time = d.len();
        IlluminationRecord { color: self.color, to_light: Ray { pos: point, dir }, time }
    }
}

} // verus!
