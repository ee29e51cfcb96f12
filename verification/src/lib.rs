//! Exact geometric core of a small ray tracer.
//!
//! Rays, planes, spheres and axis-aligned bounding boxes are described with
//! integer coordinates, so every intersection decision made here is exact:
//! whether a ray hits a box, whether and where it crosses a plane, which root
//! of the ray-sphere quadratic is the closest forward intersection.  The only
//! irrational steps of ray tracing -- taking the square root of a
//! discriminant and normalizing a vector -- are left to the caller, which
//! receives exact rational data (a [`math::Frac`] distance, or a projection
//! together with a discriminant) and may evaluate it in any precision.

pub mod math;
pub mod surfaces;
