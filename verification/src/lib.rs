//! A verified path-tracing kernel.
//!
//! The renderer simulates light transport along rays cast from a camera
//! through a scene of spheres, accumulating color over recursive
//! Monte-Carlo scattering events.  All arithmetic is fixed point: an
//! `i64` scalar carries 65536ths, so the whole kernel is exact integer
//! computation, and every function is proved to return precisely the
//! value of its specification-level counterpart.
//!
//! Scene authoring, the trigonometric half of the camera derivation,
//! image encoding and the parallel scheduling of pixels belong to the
//! driver around this library; each pixel here is a pure function of
//! the scene, the camera, the render parameters and its sampler seed.
pub mod camera;
pub mod color;
pub mod fx;
pub mod hittable;
pub mod material;
pub mod ray;
pub mod render;
pub mod rng;
pub mod sphere;
pub mod vec3;
