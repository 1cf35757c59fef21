//! Intersection results: the hit record and the face-normal rule.
//!
//! A surface normal always points against the incident ray: if the ray's
//! direction has negative dot product with the outward normal, the ray struck
//! the front face and the outward normal is kept; otherwise the normal is
//! flipped and the hit is a back-face hit.

use vstd::prelude::*;
use crate::fixed::in_i64;
use crate::vec3::{Vec3, Point3, V3, v3_dot, v3_neg};
use crate::ray::Ray;

verus! {

/// Mathematical model of a hit record.
pub ghost struct HitV {
    pub p: V3,
    pub normal: V3,
    pub t: int,
    pub front_face: bool,
}

/// The result of a successful ray/object intersection: the parameter `t`,
/// the world point, the against-the-ray surface normal, and whether the
/// front face was struck.
#[derive(Debug, Clone, Copy, PartialEq, Eq, Structural)]
pub struct HitRecord {
    pub p: Point3,
    pub normal: Vec3,
    pub t: i64,
    pub front_face: bool,
}

impl View for HitRecord {
    type V = HitV;

    open spec fn view(&self) -> HitV {
        HitV { p: self.p@, normal: self.normal@, t: self.t as int, front_face: self.front_face }
    }
}

/// The view of an optional hit record.
pub open spec fn hit_opt_view(res: Option<HitRecord>) -> Option<HitV> {
    match res {
        Some(h) => Some(h@),
        None => None,
    }
}

/// Whether a ray with direction `dir` strikes the front face of a surface
/// whose outward normal is `outward`.
pub open spec fn is_front_face(dir: V3, outward: V3) -> bool {
    v3_dot(dir, outward) < 0
}

/// The stored normal: the outward normal, flipped when the ray hit the back face.
pub open spec fn oriented_normal(dir: V3, outward: V3) -> V3 {
    if is_front_face(dir, outward) {
        outward
    } else {
        v3_neg(outward)
    }
}

impl HitRecord {
    /// Derive `front_face` and the stored `normal` from the ray and the
    /// outward-pointing surface normal, leaving `p` and `t` unchanged.
    pub fn set_face_normal(&mut self, ray: &Ray, outward_normal: &Vec3)
        requires
            in_i64(-outward_normal@.x),
            in_i64(-outward_normal@.y),
            in_i64(-outward_normal@.z),
        ensures
            final(self)@.p == old(self)@.p,
            final(self)@.t == old(self)@.t,
            final(self)@.front_face == is_front_face(ray@.dir, outward_normal@),
            final(self)@.normal == oriented_normal(ray@.dir, outward_normal@),
    {
        self.front_face = ray.direction.dot_is_neg(outward_normal);
        self.normal = if self.front_face {
            *outward_normal
        } else {
            outward_normal.neg()
        };
    }
}

} // verus!
