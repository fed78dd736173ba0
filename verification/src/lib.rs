//! A small Monte Carlo path tracer built on exact fixed-point arithmetic.
//!
//! Every quantity is a scaled integer (`fixed::SCALE` raw units represent 1.0),
//! so all geometry, shading and sampling code is deterministic and carries an
//! exact contract.  File output and the parallel driver live outside the
//! library.

pub mod aabb;
pub mod buf;
pub mod camera;
pub mod fixed;
pub mod hitable;
pub mod hitable_list;
pub mod material;
pub mod ray;
pub mod rng;
pub mod sphere;
pub mod tracer;
pub mod utility;
pub mod vec3;
