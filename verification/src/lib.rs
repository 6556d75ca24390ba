//! A Monte Carlo path tracer over fixed-point arithmetic.
//!
//! A scene is a [`hittable::Hittable`]: spheres, lists of things and nodes of
//! a bounding-volume hierarchy, each surface with a [`material::Material`].
//! [`render::ray_color`] estimates the radiance that arrives along a ray by
//! following one random path through the scene, and [`render::Frame`] turns
//! the sum of such estimates into the 8-bit pixels of an image.
//!
//! All arithmetic is on [`fixed::Fixed`], a count of millionths with
//! clamping, so every function is total and its result is stated exactly.
//! Random numbers come from a [`random::RandomSource`]; what a function does
//! with them is stated as a function of the words that the source handed out.
pub mod aabb;
pub mod angle;
pub mod bvh;
pub mod camera;
pub mod fixed;
pub mod hittable;
pub mod material;
pub mod onb;
pub mod random;
pub mod ray;
pub mod render;
pub mod sphere;
pub mod texture;
pub mod vec3;
