//! A recursive, stochastic ray tracer whose rendering core is verified.
//!
//! All geometry is carried in fixed-point arithmetic: a scalar is an `i64`
//! holding `value * fx::SCALE`, so every computation the renderer performs is
//! exact integer arithmetic that the verifier can reason about, and every
//! public function carries a contract pinning down its result.

pub mod fx;
pub mod vec3;
pub mod color;
pub mod ray;
pub mod shape;
pub mod material;
pub mod rng;
pub mod lights;
pub mod object;
pub mod scene;
pub mod camera;
pub mod buffer;
pub mod renderer;
pub mod ply;
