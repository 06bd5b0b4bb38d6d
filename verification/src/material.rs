//! Materials: how a surface turns an incoming ray into outgoing light.
//!
//! Evaluation is deterministic: the one random ingredient -- the scatter
//! direction a diffuse surface picks -- is handed in as an argument, so
//! the contract states the result exactly for every value of it.

use vstd::prelude::*;
use crate::fx::{SCALE, DIR_MAX};
use crate::color::{Color, nonneg, bounded};
use crate::vec3::{Vec3, UnitVec3, spec_neg, spec_bounce, spec_unit, dot_raw, norm2_raw, in_box,
    dot_wide, lemma_square_nonneg};
use crate::ray::Ray;
use crate::shape::ShapeCollisionInformation;

verus! {

/// A matte surface: light scatters in a random hemisphere direction.
#[derive(Clone, Copy, Debug, PartialEq, Eq, Structural)]
pub struct DiffuseMaterial {
    pub albedo: Color,
}

/// A mirror surface: light reflects about the surface normal.
#[derive(Clone, Copy, Debug, PartialEq, Eq, Structural)]
pub struct MetalMaterial {
    pub albedo: Color,
}

/// An emitter: light leaves, none scatters.
#[derive(Clone, Copy, Debug, PartialEq, Eq, Structural)]
pub struct LightMaterial {
    pub color: Color,
}

/// The closed set of material variants, dispatched by `match`.
#[derive(Clone, Copy, Debug, PartialEq, Eq, Structural)]
pub enum Material {
    Diffuse(DiffuseMaterial),
    Metal(MetalMaterial),
    Light(LightMaterial),
}

#[derive(Clone, Copy, Debug, PartialEq, Eq, Structural)]
pub struct MaterialReflectionInformation {
    pub reflection: Vec3,
    pub albedo: Color,
}

#[derive(Clone, Copy, Debug, PartialEq, Eq, Structural)]
pub struct MaterialEmissionInformation {
    pub color: Color,
}

#[derive(Clone, Copy, Debug, PartialEq, Eq, Structural)]
pub struct MaterialCollisionInformation {
    pub reflection_information: Option<MaterialReflectionInformation>,
    pub emission_information: Option<MaterialEmissionInformation>,
}

/// The scatter direction oriented into the hemisphere of the normal:
/// kept if it already points that way, negated otherwise.
pub open spec fn spec_orient(v: Vec3, n: Vec3) -> Vec3 {
    if dot_raw(v, n) >= 0 {
        v
    } else {
        spec_neg(v)
    }
}

/// The metal reflection: the mirrored direction, renormalized; a fixed
/// unit vector stands in if rounding collapses the mirror image.
pub open spec fn spec_metal_reflect(d: Vec3, n: Vec3) -> Vec3 {
    let b = spec_bounce(d, n);
    if norm2_raw(b) >= 1 {
        spec_unit(b)
    } else {
        Vec3 { x: 0, y: 0, z: SCALE }
    }
}

/// The specification mirror of `Material::evaluate`: diffuse surfaces
/// scatter along the oriented random direction with their albedo, metal
/// reflects the incoming direction with its albedo, emitters only emit.
pub open spec fn spec_evaluate(
    m: Material,
    incoming: Ray,
    info: ShapeCollisionInformation,
    scatter: Vec3,
) -> MaterialCollisionInformation {
    match m {
        Material::Diffuse(d) => MaterialCollisionInformation {
            reflection_information: Some(
                MaterialReflectionInformation {
                    reflection: spec_orient(scatter, info.normal),
                    albedo: d.albedo,
                },
            ),
            emission_information: None,
        },
        Material::Metal(mm) => MaterialCollisionInformation {
            reflection_information: Some(
                MaterialReflectionInformation {
                    reflection: spec_metal_reflect(incoming.dir, info.normal),
                    albedo: mm.albedo,
                },
            ),
            emission_information: None,
        },
        Material::Light(l) => MaterialCollisionInformation {
            reflection_information: None,
            emission_information: Some(MaterialEmissionInformation { color: l.color }),
        },
    }
}

impl Material {
    /// The stored color is a displayable one.
    pub open spec fn wf(self) -> bool {
        match self {
            Material::Diffuse(d) => nonneg(d.albedo) && bounded(d.albedo, SCALE as int),
            Material::Metal(m) => nonneg(m.albedo) && bounded(m.albedo, SCALE as int),
            Material::Light(l) => nonneg(l.color) && bounded(l.color, SCALE as int),
        }
    }

    /// The stored color, shared by every variant.
    pub fn color(&self) -> (c: Color)
        ensures
            c == match *self {
                Material::Diffuse(d) => d.albedo,
                Material::Metal(m) => m.albedo,
                Material::Light(l) => l.color,
            },
    {
        match self {
            Material::Diffuse(d) => d.albedo,
            Material::Metal(m) => m.albedo,
            Material::Light(l) => l.color,
        }
    }

    /// Evaluates this material at a collision.  `scatter` is the random
    /// unit direction a diffuse surface scatters along; other variants
    /// ignore it.
    pub fn evaluate(
        &self,
        incoming: &Ray,
        info: &ShapeCollisionInformation,
        scatter: &UnitVec3,
    ) -> (res: MaterialCollisionInformation)
        requires
            self.wf(),
            in_box(incoming.dir, DIR_MAX as int),
            in_box(info.normal, SCALE as int),
            scatter.wf(),
        ensures
            res == spec_evaluate(*self, *incoming, *info, scatter.as_vec3()),
            res.reflection_information is Some ==> in_box(
                res.reflection_information->Some_0.reflection, SCALE as int),
    {
        match self {
            Material::Diffuse(d) => {
                let sv = scatter.to_vec3();
                let d_raw = dot_wide(&sv, &info.normal);
                let oriented = if d_raw >= 0 {
                    sv
                } else {
                    sv.neg()
                };
                MaterialCollisionInformation {
                    reflection_information: Some(
                        MaterialReflectionInformation { reflection: oriented, albedo: d.albedo },
                    ),
                    emission_information: None,
                }
            },
            Material::Metal(m) => {
                let b = incoming.dir.bounce_with_normal(&info.normal);
                let n2 = dot_wide(&b, &b);
                proof {
                    lemma_square_nonneg(b.x as int);
                    lemma_square_nonneg(b.y as int);
                    lemma_square_nonneg(b.z as int);
                }
                let reflection = if n2 >= 1 {
                    b.unit()
                } else {
                    Vec3 { x: 0, y: 0, z: SCALE }
                };
                MaterialCollisionInformation {
                    reflection_information: Some(
                        MaterialReflectionInformation { reflection, albedo: m.albedo },
                    ),
                    emission_information: None,
                }
            },
            Material::Light(l) => MaterialCollisionInformation {
                reflection_information: None,
                emission_information: Some(MaterialEmissionInformation { color: l.color }),
            },
        }
    }
}

} // verus!
