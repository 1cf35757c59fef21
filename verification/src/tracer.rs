//! The recursive Monte-Carlo light-transport estimator.
//!
//! A ray is traced into the scene with the self-intersection epsilon as the
//! lower parameter bound. On a hit, a Lambertian bounce ray is scattered
//! toward `hit point + normal + random unit vector`, the estimator recurses
//! with one less remaining bounce, and the recursive color is attenuated by
//! one half. On a miss the vertical sky gradient is returned. Depth
//! exhaustion returns black, bounding the recursion.
//!
//! The estimator is deterministic once the scatter samples are fixed:
//! [`spec_ray_color`] gives the exact result for a given sample sequence,
//! [`ray_color_with`] computes it from a caller-supplied sample list, and
//! [`ray_color`] draws the samples from the process random source, promising
//! a result explained by *some* admissible sample sequence. Degenerate
//! bounce geometry (components outside the supported coordinate range, or a
//! scatter direction whose squared length rounds to zero, possible only for
//! degenerate scenes) is absorbed as black rather than propagated as
//! nonsense values; the reference behavior there was unguarded non-finite
//! arithmetic.

use vstd::prelude::*;
use vstd::arithmetic::div_mod::{
    lemma_div_is_ordered, lemma_div_pos_is_pos, lemma_div_multiples_vanish,
    lemma_fundamental_div_mod,
};
use crate::fixed::{fx_mul, fx_mul_i64, lemma_fx_mul_mag_tight, FX_ONE, FX_HALF, SCALE};
use crate::vec3::{Vec3, Color, V3, v3_add, v3_scale, v3_len_sq, v3_unit, v3_in_mag, v3_zero,
    lemma_v3_dot_mag, lemma_v3_fx_len_sq_le_raw, lemma_v3_unit_in_mag};
use crate::ray::{Ray, RayV};
use crate::hittable::HitV;
use crate::sphere::{SphereV, ray_wf_v, COORD_MAX, T_MAX};
use crate::hittable_list::{HittableList, spec_scene_hit, scene_wf_v};

verus! {

/// Self-intersection epsilon: scattered rays only count hits at `t >= 0.001`,
/// suppressing shadow acne.
pub const T_EPS: i64 = 10;

/// Reference maximum recursion depth for the estimator.
pub const MAX_DEPTH: u32 = 50;

/// Bound on the components of a scatter sample: a normalized point of the
/// unit ball has components within one raw unit of 1.0.
pub const SAMPLE_MAX: i64 = 10_001;

/// Bound on hit-normal components for a bounce to stay representable once a
/// scatter sample is added.
pub const BOUNCE_MAX: i64 = 99_000_000;

/// Black: full absorption.
pub open spec fn color_black() -> V3 {
    v3_zero()
}

/// White: the low end of the sky gradient.
pub open spec fn color_white() -> V3 {
    V3 { x: FX_ONE as int, y: FX_ONE as int, z: FX_ONE as int }
}

/// Sky blue `(0.5, 0.7, 1.0)`: the high end of the sky gradient.
pub open spec fn color_sky() -> V3 {
    V3 { x: FX_HALF as int, y: 7000, z: FX_ONE as int }
}

/// An admissible scatter sample.
pub open spec fn wf_sample(s: V3) -> bool {
    v3_in_mag(s, SAMPLE_MAX as int)
}

/// An admissible scatter sample sequence.
pub open spec fn wf_samples(ss: Seq<V3>) -> bool {
    forall|i: int| 0 <= i < ss.len() ==> wf_sample(#[trigger] ss[i])
}

/// A Lambertian scatter sample: the normalization of some point strictly
/// inside the unit ball, as the rejection sampler produces.
pub open spec fn is_unit_sample(s: V3) -> bool {
    exists|p: V3| v3_in_mag(p, 9999) && 1 <= v3_len_sq(p) < FX_ONE as int && s == v3_unit(p)
}

/// A sequence of Lambertian scatter samples.
pub open spec fn unit_samples(ss: Seq<V3>) -> bool {
    forall|i: int| 0 <= i < ss.len() ==> is_unit_sample(#[trigger] ss[i])
}

/// The views of an executable sample list.
pub open spec fn views_of(ss: Seq<Vec3>) -> Seq<V3> {
    ss.map_values(|v: Vec3| v@)
}

/// Clamp a fixed-point blend parameter into `[0, 1]`.
pub open spec fn clamp_fx_unit(t: int) -> int {
    if t < 0 {
        0
    } else if t > FX_ONE as int {
        FX_ONE as int
    } else {
        t
    }
}

/// The vertical sky gradient: blend white and sky blue by
/// `t = 0.5 * (unit(direction).y + 1)`, with `t` clamped into `[0, 1]`.
/// The clamp is a documented guard: floor rounding in normalization can push
/// the unit y-component one raw unit past 1.0 in magnitude, and clamping
/// keeps the blend between its endpoints where the reference arithmetic was
/// unguarded.
pub open spec fn spec_background(r: RayV) -> V3
    recommends
        v3_len_sq(r.dir) >= 1,
{
    let u = v3_unit(r.dir);
    let t = clamp_fx_unit(fx_mul(FX_HALF as int, u.y + FX_ONE as int));
    v3_add(v3_scale(color_white(), FX_ONE as int - t), v3_scale(color_sky(), t))
}

/// Attenuating an in-gamut channel by one half keeps it in `[0, 0.5]`.
proof fn lemma_half_in_range(c: int)
    requires
        0 <= c <= FX_ONE as int,
    ensures
        0 <= fx_mul(c, FX_HALF as int) <= FX_HALF as int,
{
    lemma_div_pos_is_pos(c * (FX_HALF as int), SCALE as int);
    lemma_div_is_ordered(c * (FX_HALF as int), 50_000_000, SCALE as int);
}

/// The background gradient never leaves the white-to-sky gamut: each channel
/// lies between its sky and white endpoints, and the blue channel is exactly
/// full, whatever the ray.
pub proof fn lemma_background_in_gamut(r: RayV)
    ensures
        FX_HALF as int <= spec_background(r).x <= FX_ONE as int,
        7000 <= spec_background(r).y <= FX_ONE as int,
        spec_background(r).z == FX_ONE as int,
{
    let u = v3_unit(r.dir);
    let t = clamp_fx_unit(fx_mul(FX_HALF as int, u.y + FX_ONE as int));
    assert(0 <= t <= FX_ONE as int);
    lemma_div_multiples_vanish(FX_ONE as int - t, SCALE as int);
    lemma_div_multiples_vanish(t, SCALE as int);
    lemma_fundamental_div_mod((FX_HALF as int) * t, SCALE as int);
    lemma_fundamental_div_mod(7000 * t, SCALE as int);
}

/// Every color the estimator can compute lies in `[0, 1]` per channel:
/// black and its halvings from below, the background gamut from above.
pub proof fn lemma_ray_color_in_gamut(r: RayV, objs: Seq<SphereV>, depth: nat, samples: Seq<V3>)
    ensures
        0 <= spec_ray_color(r, objs, depth, samples).x <= FX_ONE as int,
        0 <= spec_ray_color(r, objs, depth, samples).y <= FX_ONE as int,
        0 <= spec_ray_color(r, objs, depth, samples).z <= FX_ONE as int,
    decreases depth,
{
    if depth == 0 {
    } else {
        match spec_scene_hit(objs, r, T_EPS as int, T_MAX as int) {
            Some(h) => {
                let sample = if samples.len() > 0 {
                    samples.first()
                } else {
                    v3_zero()
                };
                let rest = if samples.len() > 0 {
                    samples.drop_first()
                } else {
                    samples
                };
                if bounce_ok(h, sample) {
                    let bounce = RayV { origin: h.p, dir: v3_add(h.normal, sample) };
                    lemma_ray_color_in_gamut(bounce, objs, (depth - 1) as nat, rest);
                    let inner = spec_ray_color(bounce, objs, (depth - 1) as nat, rest);
                    lemma_half_in_range(inner.x);
                    lemma_half_in_range(inner.y);
                    lemma_half_in_range(inner.z);
                }
            },
            None => {
                lemma_background_in_gamut(r);
            },
        }
    }
}

/// Whether a bounce off hit `h` with scatter sample `sample` stays within
/// the supported coordinate range and has a usable direction.
pub open spec fn bounce_ok(h: HitV, sample: V3) -> bool {
    &&& v3_in_mag(h.p, COORD_MAX as int)
    &&& v3_in_mag(h.normal, BOUNCE_MAX as int)
    &&& v3_len_sq(v3_add(h.normal, sample)) >= 1
}

/// The exact color the estimator computes for a ray, a scene, a remaining
/// depth, and the sequence of scatter samples consumed at each bounce.
pub open spec fn spec_ray_color(r: RayV, objs: Seq<SphereV>, depth: nat, samples: Seq<V3>) -> V3
    decreases depth,
{
    if depth == 0 {
        color_black()
    } else {
        match spec_scene_hit(objs, r, T_EPS as int, T_MAX as int) {
            Some(h) => {
                let sample = if samples.len() > 0 {
                    samples.first()
                } else {
                    v3_zero()
                };
                let rest = if samples.len() > 0 {
                    samples.drop_first()
                } else {
                    samples
                };
                if bounce_ok(h, sample) {
                    let bounce = RayV { origin: h.p, dir: v3_add(h.normal, sample) };
                    v3_scale(spec_ray_color(bounce, objs, (depth - 1) as nat, rest), FX_HALF as int)
                } else {
                    color_black()
                }
            },
            None => spec_background(r),
        }
    }
}

/// Whether every component of `v` has magnitude at most `m`.
fn in_mag3(v: &Vec3, m: i64) -> (r: bool)
    requires
        m >= 0,
    ensures
        r == v3_in_mag(v@, m as int),
{
    -m <= v.x && v.x <= m && -m <= v.y && v.y <= m && -m <= v.z && v.z <= m
}

/// The sky gradient a ray that escapes the scene evaluates to.
pub fn background(ray: &Ray) -> (c: Color)
    requires
        v3_in_mag(ray@.dir, COORD_MAX as int),
        v3_len_sq(ray@.dir) >= 1,
    ensures
        c@ == spec_background(ray@),
        FX_HALF as int <= c@.x <= FX_ONE as int,
        7000 <= c@.y <= FX_ONE as int,
        c@.z == FX_ONE as int,
{
    proof {
        lemma_v3_fx_len_sq_le_raw(ray@.dir);
        lemma_v3_unit_in_mag(ray@.dir);
        lemma_fx_mul_mag_tight(
            FX_HALF as int,
            v3_unit(ray@.dir).y + FX_ONE as int,
            FX_HALF as int,
            2 * (SCALE as int) + 1,
        );
        lemma_background_in_gamut(ray@);
    }
    let unit_direction = ray.direction.unit_vector();
    let t0: i64 = fx_mul_i64(FX_HALF, unit_direction.y + FX_ONE);
    let t: i64 = if t0 < 0 {
        0
    } else if t0 > FX_ONE {
        FX_ONE
    } else {
        t0
    };
    proof {
        lemma_fx_mul_mag_tight(FX_ONE as int, FX_ONE as int - t as int, FX_ONE as int,
            FX_ONE as int);
        lemma_fx_mul_mag_tight(FX_HALF as int, t as int, FX_HALF as int, FX_ONE as int);
        lemma_fx_mul_mag_tight(7000, t as int, 7000, FX_ONE as int);
        lemma_fx_mul_mag_tight(FX_ONE as int, t as int, FX_ONE as int, FX_ONE as int);
    }
    let white = Vec3::new(FX_ONE, FX_ONE, FX_ONE);
    let sky = Vec3::new(FX_HALF, 7000, FX_ONE);
    let blended = white.scale(FX_ONE - t).add(&sky.scale(t));
    blended
}

/// Estimate the color deterministically, consuming one scatter sample from
/// `samples` per bounce starting at index `start`.
fn ray_color_from(ray: &Ray, world: &HittableList, depth: u32, samples: &Vec<Vec3>, start: usize)
    -> (c: Color)
    requires
        ray_wf_v(ray@),
        scene_wf_v(world@),
        wf_samples(views_of(samples@).skip(start as int)),
        start as int + depth as int <= samples@.len(),
    ensures
        c@ == spec_ray_color(ray@, world@, depth as nat, views_of(samples@).skip(start as int)),
    decreases depth,
{
    if depth == 0 {
        return Vec3::new(0, 0, 0);
    }
    match world.hit(ray, T_EPS, T_MAX) {
        None => background(ray),
        Some(rec) => {
            let n = samples.len();
            let sample = samples[start];
            let ghost tail = views_of(samples@).skip(start as int);
            proof {
                assert(tail.first() == sample@);
                assert(tail.drop_first() =~= views_of(samples@).skip(start as int + 1));
            }
            if in_mag3(&rec.p, COORD_MAX) && in_mag3(&rec.normal, BOUNCE_MAX) {
                let scatter_direction = rec.normal.add(&sample);
                proof {
                    lemma_v3_dot_mag(
                        scatter_direction@,
                        scatter_direction@,
                        COORD_MAX as int,
                        COORD_MAX as int,
                    );
                }
                let len_sq = scatter_direction.length_squared();
                if len_sq >= 1 {
                    let bounce = Ray::new(rec.p, scatter_direction);
                    let inner = ray_color_from(&bounce, world, depth - 1, samples, start + 1);
                    proof {
                        lemma_fx_mul_mag_tight(
                            inner@.x,
                            FX_HALF as int,
                            0x8000_0000_0000_0000,
                            FX_HALF as int,
                        );
                        lemma_fx_mul_mag_tight(
                            inner@.y,
                            FX_HALF as int,
                            0x8000_0000_0000_0000,
                            FX_HALF as int,
                        );
                        lemma_fx_mul_mag_tight(
                            inner@.z,
                            FX_HALF as int,
                            0x8000_0000_0000_0000,
                            FX_HALF as int,
                        );
                    }
                    inner.scale(FX_HALF)
                } else {
                    Vec3::new(0, 0, 0)
                }
            } else {
                Vec3::new(0, 0, 0)
            }
        },
    }
}

/// Estimate the color deterministically from a caller-supplied sample list:
/// exactly [`spec_ray_color`] on the views of `samples`. With a fixed sample
/// list the estimator is a pure function of its arguments, so repeated calls
/// agree; this also makes seeded testing possible.
pub fn ray_color_with(ray: &Ray, world: &HittableList, depth: u32, samples: &Vec<Vec3>) -> (c:
    Color)
    requires
        ray_wf_v(ray@),
        scene_wf_v(world@),
        wf_samples(views_of(samples@)),
        depth as int <= samples@.len(),
    ensures
        c@ == spec_ray_color(ray@, world@, depth as nat, views_of(samples@)),
        0 <= c@.x <= FX_ONE as int,
        0 <= c@.y <= FX_ONE as int,
        0 <= c@.z <= FX_ONE as int,
{
    proof {
        assert(views_of(samples@).skip(0) =~= views_of(samples@));
        lemma_ray_color_in_gamut(ray@, world@, depth as nat, views_of(samples@));
    }
    ray_color_from(ray, world, depth, samples, 0)
}

/// Estimate the color carried back along `ray` through `world`, following
/// at most `depth` diffuse bounces, drawing scatter samples from the
/// process random source. The result is exactly [`spec_ray_color`] for some
/// admissible sample sequence; the depth-0 and miss cases do not depend on
/// the samples and are pinned directly.
pub fn ray_color(ray: &Ray, world: &HittableList, depth: u32) -> (c: Color)
    requires
        ray_wf_v(ray@),
        scene_wf_v(world@),
    ensures
        exists|samples: Seq<V3>|
            wf_samples(samples) && unit_samples(samples) && c@ == spec_ray_color(
                ray@,
                world@,
                depth as nat,
                samples,
            ),
        depth == 0 ==> c@ == color_black(),
        depth > 0 && spec_scene_hit(world@, ray@, T_EPS as int, T_MAX as int) is None ==> c@
            == spec_background(ray@),
        0 <= c@.x <= FX_ONE as int,
        0 <= c@.y <= FX_ONE as int,
        0 <= c@.z <= FX_ONE as int,
    decreases depth,
{
    if depth == 0 {
        let c = Vec3::new(0, 0, 0);
        proof {
            let w = Seq::<V3>::empty();
            assert(wf_samples(w) && unit_samples(w) && c@ == spec_ray_color(
                ray@,
                world@,
                depth as nat,
                w,
            ));
        }
        return c;
    }
    match world.hit(ray, T_EPS, T_MAX) {
        None => {
            let c = background(ray);
            proof {
                let w = Seq::<V3>::empty();
                assert(wf_samples(w) && unit_samples(w) && c@ == spec_ray_color(
                    ray@,
                    world@,
                    depth as nat,
                    w,
                ));
            }
            c
        },
        Some(rec) => {
            let sample = Vec3::random_unit_vector();
            let ghost w1 = seq![sample@];
            if in_mag3(&rec.p, COORD_MAX) && in_mag3(&rec.normal, BOUNCE_MAX) {
                let scatter_direction = rec.normal.add(&sample);
                proof {
                    lemma_v3_dot_mag(
                        scatter_direction@,
                        scatter_direction@,
                        COORD_MAX as int,
                        COORD_MAX as int,
                    );
                }
                let len_sq = scatter_direction.length_squared();
                if len_sq >= 1 {
                    let bounce = Ray::new(rec.p, scatter_direction);
                    let inner = ray_color(&bounce, world, depth - 1);
                    proof {
                        lemma_fx_mul_mag_tight(
                            inner@.x,
                            FX_HALF as int,
                            0x8000_0000_0000_0000,
                            FX_HALF as int,
                        );
                        lemma_fx_mul_mag_tight(
                            inner@.y,
                            FX_HALF as int,
                            0x8000_0000_0000_0000,
                            FX_HALF as int,
                        );
                        lemma_fx_mul_mag_tight(
                            inner@.z,
                            FX_HALF as int,
                            0x8000_0000_0000_0000,
                            FX_HALF as int,
                        );
                    }
                    let c = inner.scale(FX_HALF);
                    proof {
                        let wsub = choose|s: Seq<V3>|
                            wf_samples(s) && unit_samples(s) && inner@ == spec_ray_color(
                                bounce@,
                                world@,
                                (depth - 1) as nat,
                                s,
                            );
                        let w = w1 + wsub;
                        assert(is_unit_sample(sample@));
                        assert(w.first() == sample@);
                        assert(w.drop_first() =~= wsub);
                        assert(wf_samples(w) && unit_samples(w) && c@ == spec_ray_color(
                            ray@,
                            world@,
                            depth as nat,
                            w,
                        ));
                        lemma_ray_color_in_gamut(ray@, world@, depth as nat, w);
                    }
                    c
                } else {
                    let c = Vec3::new(0, 0, 0);
                    proof {
                        assert(is_unit_sample(sample@));
                        assert(wf_samples(w1) && unit_samples(w1) && c@ == spec_ray_color(
                            ray@,
                            world@,
                            depth as nat,
                            w1,
                        ));
                    }
                    c
                }
            } else {
                let c = Vec3::new(0, 0, 0);
                proof {
                    assert(is_unit_sample(sample@));
                    assert(wf_samples(w1) && unit_samples(w1) && c@ == spec_ray_color(
                        ray@,
                        world@,
                        depth as nat,
                        w1,
                    ));
                }
                c
            }
        },
    }
}

} // verus!
