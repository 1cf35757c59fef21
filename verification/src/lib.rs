//! A verified toy path tracer core: fixed-point 3D vector arithmetic, rays,
//! analytic ray/sphere intersection, nearest-hit scene aggregation, and a
//! depth-bounded Lambertian light-transport estimator.
//!
//! All scalar quantities are fixed-point numbers: an `i64` holding a multiple
//! of 1/10000 of a unit (see [`fixed`]). This keeps every geometric
//! computation exact integer arithmetic, so each function's contract pins its
//! result down completely.

pub mod fixed;
pub mod vec3;
pub mod ray;
pub mod hittable;
pub mod sphere;
pub mod hittable_list;
pub mod tracer;
