//! A recursive ray-tracing renderer over 16.16 fixed-point coordinates.
//!
//! The scene owns a list of objects behind the [`shapes::Hitable`]
//! capability; rendering casts jittered camera rays per pixel, finds the
//! nearest intersection, bounces rays by mirror reflection up to a depth
//! budget, blends surface colors along the path, and averages the samples
//! into an image buffer.

pub mod color;
pub mod hit;
pub mod math;
pub mod ray;
pub mod scene;
pub mod shapes;
pub mod vector;
