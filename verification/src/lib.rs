//! A 2D ray tracer with exact arithmetic.
//!
//! The scene lives on an integer coordinate grid: shape data (circle centers
//! and radii, segment endpoints) and ray origins are integer points, and ray
//! directions are integer vectors that are carried unnormalized. Every
//! geometric predicate — containment, surface membership, intersection — is
//! an exact integer comparison, and a ray parameter is an exact rational
//! number. The one irrational quantity, the distance to a circle along a ray,
//! is pinned down by the integer floor square root, so each result is a
//! mathematical function of its inputs and every contract states it exactly.
//!
//! Modules, leaves first:
//! - [`math`]: integer 2D vectors, exact rationals, floor square root.
//! - [`ray`]: a ray as origin plus direction, sampled by a parameter.
//! - [`hit`]: an intersection record (parameter, position, surface normal).
//! - [`shape`]: circles and line segments with containment, surface and
//!   intersection tests.
//! - [`render`]: scene resolution (closest hit), the bounce integrator and
//!   the rasterizer.
//! - [`laws`]: proved statements that relate the pieces to one another.

pub mod hit;
pub mod laws;
pub mod shape;
pub mod math;
pub mod ray;
pub mod render;

pub use math::Vec2;
