//! Spheres and the analytic ray/sphere intersection solver.
//!
//! The ray `P(t) = origin + t*dir` meets the sphere with center `C` and
//! radius `r` where `|P(t) - C|^2 = r^2`, a quadratic
//! `a*t^2 + 2*half_b*t + c = 0` with `a = |dir|^2`,
//! `half_b = (origin - C) . dir` and `c = |origin - C|^2 - r^2`.
//! The solver prefers the nearer root `(-half_b - sqrt(D)) / a` and falls
//! back to the farther root only when the nearer one lies outside the
//! queried interval; a root is accepted when `t_min <= root <= t_max`.
//! All arithmetic is fixed point with floor rounding, mirrored exactly by
//! [`spec_sphere_hit`].

use vstd::prelude::*;
use crate::fixed::{
    fx_mul, fx_div, in_i64, sqrt_floor, fx_mul_i64, mul_i64_wide, div_floor_i128, isqrt_u128,
    lemma_fx_mul_mag_tight, lemma_fx_div_mag, lemma_mul_mag, lemma_sqrt_floor, SCALE,
};
use vstd::arithmetic::div_mod::lemma_div_is_ordered;
use crate::vec3::{Vec3, Point3, V3, v3_in_mag, v3_sub, v3_div, v3_len_sq, v3_dot,
    lemma_v3_dot_mag, lemma_v3_len_sq_nonneg};
use crate::ray::{Ray, RayV, ray_at};
use crate::hittable::{HitRecord, HitV, hit_opt_view, is_front_face, oriented_normal};

verus! {

/// Largest raw coordinate magnitude the intersection routines accept for
/// scene geometry and ray endpoints (10^4 world units).
pub const COORD_MAX: i64 = 100_000_000;

/// Largest raw ray-parameter magnitude the intersection routines accept;
/// it also serves as the "infinitely far" query bound. At 6 * 10^6 world
/// units it exceeds the parameter at which any admitted ray can still meet
/// admitted geometry: a well-formed ray advances at least 0.01 units per
/// unit of `t` (its squared length is nonzero in fixed point), and every
/// surface point of a well-formed sphere lies within about 5.2 * 10^4 units
/// of the ray origin.
pub const T_MAX: i64 = 60_000_000_000;

/// Mathematical model of a sphere.
pub ghost struct SphereV {
    pub center: V3,
    pub radius: int,
}

/// An immutable scene primitive: a sphere given by center and radius.
#[derive(Debug, Clone, Copy, PartialEq, Eq, Structural)]
pub struct Sphere {
    center: Point3,
    radius: i64,
}

impl View for Sphere {
    type V = SphereV;

    closed spec fn view(&self) -> SphereV {
        SphereV { center: self.center@, radius: self.radius as int }
    }
}

/// A well-formed sphere: bounded center, positive bounded radius.
pub open spec fn sphere_wf_v(s: SphereV) -> bool {
    &&& v3_in_mag(s.center, COORD_MAX as int)
    &&& 0 < s.radius <= COORD_MAX as int
}

/// A well-formed query ray: bounded components and a direction whose
/// squared length is nonzero (so the quadratic's leading coefficient is
/// positive and the solver's divisions are defined).
pub open spec fn ray_wf_v(r: RayV) -> bool {
    &&& v3_in_mag(r.origin, COORD_MAX as int)
    &&& v3_in_mag(r.dir, COORD_MAX as int)
    &&& v3_len_sq(r.dir) >= 1
}

/// The hit record for a sphere intersection at parameter `t`.
pub open spec fn sphere_hit_record(s: SphereV, r: RayV, t: int) -> HitV {
    let p = ray_at(r, t);
    let outward = v3_div(v3_sub(p, s.center), s.radius);
    HitV {
        p,
        normal: oriented_normal(r.dir, outward),
        t,
        front_face: is_front_face(r.dir, outward),
    }
}

/// The discriminant `half_b^2 - a*c` of the intersection quadratic, in
/// squared raw units.
///
/// Like the roots below, this is the reference computation carried out in
/// fixed point, and the solver is verified to compute it exactly. Its
/// quantization error against real arithmetic scales with `1/a`: the square
/// root of the discriminant truncates to a raw unit, and the division by
/// `a` then magnifies that by `SCALE/a`, so the roots (and with them the
/// hit point, and the outward normal, whose division by a radius near the
/// one-raw-unit floor is similarly magnified) are close to the real-valued
/// ones only for rays of roughly unit-scale direction and spheres of
/// non-vanishing radius - the scale the reference tuning assumes.
pub open spec fn sphere_disc(s: SphereV, r: RayV) -> int {
    let oc = v3_sub(r.origin, s.center);
    let a = v3_len_sq(r.dir);
    let half_b = v3_dot(oc, r.dir);
    let c = v3_len_sq(oc) - fx_mul(s.radius, s.radius);
    half_b * half_b - a * c
}

/// The nearer quadratic root `(-half_b - sqrt(D)) / a`, in raw units
/// (meaningful when the discriminant is nonnegative).
pub open spec fn sphere_root_near(s: SphereV, r: RayV) -> int {
    let oc = v3_sub(r.origin, s.center);
    let a = v3_len_sq(r.dir);
    let half_b = v3_dot(oc, r.dir);
    fx_div(-half_b - sqrt_floor(sphere_disc(s, r)), a)
}

/// The farther quadratic root `(-half_b + sqrt(D)) / a`, in raw units.
pub open spec fn sphere_root_far(s: SphereV, r: RayV) -> int {
    let oc = v3_sub(r.origin, s.center);
    let a = v3_len_sq(r.dir);
    let half_b = v3_dot(oc, r.dir);
    fx_div(-half_b + sqrt_floor(sphere_disc(s, r)), a)
}

/// The exact result of querying a sphere for the nearest intersection with
/// parameter in `[t_min, t_max]`: the nearer root if it lies in the
/// interval, else the farther root if it does, else no hit.
pub open spec fn spec_sphere_hit(s: SphereV, r: RayV, t_min: int, t_max: int) -> Option<HitV> {
    if sphere_disc(s, r) < 0 {
        None
    } else {
        let root1 = sphere_root_near(s, r);
        let root2 = sphere_root_far(s, r);
        if t_min <= root1 <= t_max {
            Some(sphere_hit_record(s, r, root1))
        } else if t_min <= root2 <= t_max {
            Some(sphere_hit_record(s, r, root2))
        } else {
            None
        }
    }
}

/// A reported hit lies inside the queried interval and is the record of its
/// own parameter.
pub proof fn lemma_sphere_hit_in_interval(s: SphereV, r: RayV, t_min: int, t_max: int)
    ensures
        spec_sphere_hit(s, r, t_min, t_max) matches Some(h) ==> t_min <= h.t <= t_max && h
            == sphere_hit_record(s, r, h.t),
{
}

/// The nearer root really is no farther than the farther root.
pub proof fn lemma_sphere_root_order(s: SphereV, r: RayV)
    requires
        v3_len_sq(r.dir) >= 1,
        sphere_disc(s, r) >= 0,
    ensures
        sphere_root_near(s, r) <= sphere_root_far(s, r),
{
    let oc = v3_sub(r.origin, s.center);
    let a = v3_len_sq(r.dir);
    let half_b = v3_dot(oc, r.dir);
    let sq = sqrt_floor(sphere_disc(s, r));
    lemma_sqrt_floor(sphere_disc(s, r));
    lemma_div_is_ordered((-half_b - sq) * (SCALE as int), (-half_b + sq) * (SCALE as int), a);
}

/// Narrowing the upper end of the query interval cannot change which hit is
/// reported, beyond dropping hits that lie past the narrowed end:
/// a hit found in the narrow interval is exactly the one found in the wide
/// one; a miss over the wide interval is a miss over the narrow one; and a
/// wide-interval hit within the narrow bound is found by the narrow query.
pub proof fn lemma_sphere_hit_monotone(s: SphereV, r: RayV, t_min: int, t_max: int, c: int)
    requires
        v3_len_sq(r.dir) >= 1,
        c <= t_max,
    ensures
        spec_sphere_hit(s, r, t_min, c) is Some ==> spec_sphere_hit(s, r, t_min, t_max)
            == spec_sphere_hit(s, r, t_min, c),
        spec_sphere_hit(s, r, t_min, t_max) is None ==> spec_sphere_hit(s, r, t_min, c) is None,
        (match spec_sphere_hit(s, r, t_min, t_max) {
            Some(h) => h.t <= c ==> spec_sphere_hit(s, r, t_min, c) == Some(h),
            None => true,
        }),
{
    if sphere_disc(s, r) >= 0 {
        lemma_sphere_root_order(s, r);
    }
}

impl Sphere {
    pub fn new(center: Point3, radius: i64) -> (s: Sphere)
        ensures
            s@ == (SphereV { center: center@, radius: radius as int }),
    {
        Sphere { center, radius }
    }

    /// Report the nearest intersection of `ray` with this sphere whose
    /// parameter lies in `[t_min, t_max]`, preferring the nearer quadratic
    /// root and falling back to the farther one.
    pub fn hit(&self, ray: &Ray, t_min: i64, t_max: i64) -> (res: Option<HitRecord>)
        requires
            sphere_wf_v(self@),
            ray_wf_v(ray@),
            -(T_MAX as int) <= t_min as int,
            t_max as int <= T_MAX as int,
        ensures
            hit_opt_view(res) == spec_sphere_hit(self@, ray@, t_min as int, t_max as int),
    {
        let cmax = COORD_MAX;
        proof {
            lemma_v3_dot_mag(ray@.dir, ray@.dir, cmax as int, cmax as int);
            lemma_v3_dot_mag(
                v3_sub(ray@.origin, self@.center),
                ray@.dir,
                2 * cmax as int,
                cmax as int,
            );
            lemma_v3_dot_mag(
                v3_sub(ray@.origin, self@.center),
                v3_sub(ray@.origin, self@.center),
                2 * cmax as int,
                2 * cmax as int,
            );
            lemma_fx_mul_mag_tight(self@.radius, self@.radius, cmax as int, cmax as int);
            lemma_v3_len_sq_nonneg(v3_sub(ray@.origin, self@.center));
        }
        let oc: Vec3 = ray.origin.sub(&self.center);
        let a: i64 = ray.direction.length_squared();
        let half_b: i64 = oc.dot(&ray.direction);
        let c: i64 = oc.length_squared() - fx_mul_i64(self.radius, self.radius);
        proof {
            lemma_mul_mag(half_b as int, half_b as int, 0x6_0000_0000_0000, 0x6_0000_0000_0000);
            lemma_mul_mag(a as int, c as int, 0x3_0000_0000_0000, 0x2_0000_0000_0000);
        }
        let disc: i128 = mul_i64_wide(half_b, half_b) - mul_i64_wide(a, c);
        if disc < 0 {
            return None;
        }
        let sqrtd_u: u128 = isqrt_u128(disc as u128);
        proof {
            lemma_sqrt_floor(disc as int);
            assert(sqrtd_u as int <= 0x10_0000_0000_0000) by (nonlinear_arith)
                requires
                    (sqrtd_u as int) * (sqrtd_u as int) <= disc as int,
                    sqrtd_u as int >= 0,
                    disc as int <= 0x100_0000_0000_0000_0000_0000_0000,
            ;
        }
        let sqrtd: i128 = sqrtd_u as i128;
        let num1: i128 = -(half_b as i128) - sqrtd;
        let num2: i128 = -(half_b as i128) + sqrtd;
        proof {
            lemma_mul_mag(num1 as int, SCALE as int, 0x20_0000_0000_0000, SCALE as int);
            lemma_mul_mag(num2 as int, SCALE as int, 0x20_0000_0000_0000, SCALE as int);
        }
        let root1: i128 = div_floor_i128(num1 * (SCALE as i128), a as i128);
        let root2: i128 = div_floor_i128(num2 * (SCALE as i128), a as i128);
        let tlo: i128 = t_min as i128;
        let thi: i128 = t_max as i128;
        let root: i128 = if tlo <= root1 && root1 <= thi {
            root1
        } else if tlo <= root2 && root2 <= thi {
            root2
        } else {
            return None;
        };
        let t: i64 = root as i64;
        proof {
            let tv = t as int;
            lemma_fx_mul_mag_tight(ray@.dir.x, tv, cmax as int, T_MAX as int);
            lemma_fx_mul_mag_tight(ray@.dir.y, tv, cmax as int, T_MAX as int);
            lemma_fx_mul_mag_tight(ray@.dir.z, tv, cmax as int, T_MAX as int);
            let p = ray_at(ray@, tv);
            let d = v3_sub(p, self@.center);
            lemma_fx_div_mag(d.x, self@.radius, 700_000_000_000_000);
            lemma_fx_div_mag(d.y, self@.radius, 700_000_000_000_000);
            lemma_fx_div_mag(d.z, self@.radius, 700_000_000_000_000);
        }
        let p: Point3 = ray.at(t);
        let outward: Vec3 = p.sub(&self.center).div_scalar(self.radius);
        let mut rec = HitRecord { p, normal: outward, t, front_face: false };
        rec.set_face_normal(ray, &outward);
        Some(rec)
    }
}

} // verus!
