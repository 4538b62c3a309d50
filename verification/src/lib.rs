//! A recursive ray tracer over fixed-point arithmetic.
//!
//! Scenes hold spheres, planes and point lights; rays are traced through a
//! pinhole camera, shaded with the Phong model, and mirror reflections are
//! followed up to a configurable depth.  All scalars are signed fixed-point
//! numbers counted in 1/`fixed::SCALE` units, so every computation is exact
//! integer arithmetic and is specified down to the last unit.

pub mod color;
pub mod fixed;
pub mod light;
pub mod material;
pub mod plane;
pub mod scene;
pub mod shape;
pub mod sphere;
pub mod vec3d;
