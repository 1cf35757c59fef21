//! Rays: an origin and a direction, with the evaluator `at(t) = origin + direction * t`.

use vstd::prelude::*;
use crate::fixed::{fx_mul, in_i64};
use crate::vec3::{Vec3, Point3, V3, v3_add, v3_scale};

verus! {

/// Mathematical model of a ray.
pub ghost struct RayV {
    pub origin: V3,
    pub dir: V3,
}

/// A half-line `origin + t * direction`. The direction need not be unit
/// length; `t` is then a scaled parameter rather than a distance.
#[derive(Debug, Clone, Copy, PartialEq, Eq, Structural)]
pub struct Ray {
    pub origin: Point3,
    pub direction: Vec3,
}

impl View for Ray {
    type V = RayV;

    open spec fn view(&self) -> RayV {
        RayV { origin: self.origin@, dir: self.direction@ }
    }
}

/// The point a ray reaches at parameter `t`.
pub open spec fn ray_at(r: RayV, t: int) -> V3 {
    v3_add(r.origin, v3_scale(r.dir, t))
}

impl Ray {
    pub fn new(origin: Point3, direction: Vec3) -> (r: Ray)
        ensures
            r@ == (RayV { origin: origin@, dir: direction@ }),
    {
        Ray { origin, direction }
    }

    /// Evaluate the ray at parameter `t`: exactly `origin + direction * t`.
    pub fn at(&self, t: i64) -> (p: Point3)
        requires
            in_i64(fx_mul(self@.dir.x, t as int)),
            in_i64(fx_mul(self@.dir.y, t as int)),
            in_i64(fx_mul(self@.dir.z, t as int)),
            in_i64(self@.origin.x + fx_mul(self@.dir.x, t as int)),
            in_i64(self@.origin.y + fx_mul(self@.dir.y, t as int)),
            in_i64(self@.origin.z + fx_mul(self@.dir.z, t as int)),
        ensures
            p@ == ray_at(self@, t as int),
    {
        let scaled = self.direction.scale(t);
        self.origin.add(&scaled)
    }
}

} // verus!
