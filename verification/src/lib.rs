//! A Monte Carlo path tracer whose numeric core is verified.
//!
//! Every scalar is a fixed-point `i64` (see [`fixed`]), so the geometry,
//! the bounding-volume hierarchy, the material model and the integrator
//! are all ordinary integer programs with exact contracts.

pub mod aabb;
pub mod camera;
pub mod fixed;
pub mod hit;
pub mod material;
pub mod onb;
pub mod pdf;
pub mod perlin;
pub mod random;
pub mod ray;
pub mod render;
pub mod texture;
pub mod trig;
pub mod vec3;
pub mod world;
