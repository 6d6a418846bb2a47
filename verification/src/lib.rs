//! A recursive ray tracer over fixed-point arithmetic.
//!
//! The scene is a list of spheres and triangles with simple materials.
//! Rays are cast from a camera through each pixel of a supersampled
//! image; the nearest intersection is shaded recursively through
//! reflections and Monte-Carlo soft shadows, and the working buffer is
//! downsampled to the final frame. All geometry and color values are
//! fixed-point integers (`SCALE` units to one), so every arithmetic
//! step has an exact contract.

pub mod fixed;
pub mod vec3;
pub mod scene;
pub mod intersect;
pub mod shade;
pub mod camera;
pub mod render;
pub mod laws;
