//! Three-component fixed-point vectors, used interchangeably for points,
//! directions and colors.
//!
//! The mathematical model of a [`Vec3`] is a [`V3`]: three unbounded
//! integers, the raw fixed-point components. Every executable operation's
//! contract states its result exactly over that model.

use vstd::prelude::*;
use vstd::arithmetic::div_mod::{
    lemma_div_is_ordered, lemma_div_of0, lemma_fundamental_div_mod,
};
use crate::fixed::{
    fx_mul, fx_div, in_i64, sqrt_floor, fx_mul_i64, fx_div_i64, mul_i64_wide, div_floor_i128,
    isqrt_u128, lemma_fx_mul_mag, lemma_fx_mul_mag_tight, lemma_fx_square_nonneg,
    lemma_square_nonneg, lemma_mul_mag, lemma_div_lower, lemma_fx_div_scale_bound,
    lemma_sqrt_floor, lemma_sqrt_floor_unique, lemma_sqrt_floor_ordered,
    lemma_sqrt_floor_square, SCALE, FX_ONE, FX_HALF,
};

verus! {

/// Mathematical model of a vector: unbounded raw components.
pub ghost struct V3 {
    pub x: int,
    pub y: int,
    pub z: int,
}

/// A 3D vector of fixed-point scalars.
#[derive(Debug, Clone, Copy, PartialEq, Eq, Structural)]
pub struct Vec3 {
    pub x: i64,
    pub y: i64,
    pub z: i64,
}

/// A point in 3D.
pub type Point3 = Vec3;

/// An RGB color (components in raw units; 1.0 is full intensity).
pub type Color = Vec3;

impl View for Vec3 {
    type V = V3;

    open spec fn view(&self) -> V3 {
        V3 { x: self.x as int, y: self.y as int, z: self.z as int }
    }
}

/// All three components have magnitude at most `m`.
pub open spec fn v3_in_mag(v: V3, m: int) -> bool {
    &&& -m <= v.x <= m
    &&& -m <= v.y <= m
    &&& -m <= v.z <= m
}

pub open spec fn v3_zero() -> V3 {
    V3 { x: 0, y: 0, z: 0 }
}

pub open spec fn v3_add(a: V3, b: V3) -> V3 {
    V3 { x: a.x + b.x, y: a.y + b.y, z: a.z + b.z }
}

pub open spec fn v3_sub(a: V3, b: V3) -> V3 {
    V3 { x: a.x - b.x, y: a.y - b.y, z: a.z - b.z }
}

pub open spec fn v3_neg(a: V3) -> V3 {
    V3 { x: -a.x, y: -a.y, z: -a.z }
}

/// Componentwise scaling by a fixed-point scalar.
pub open spec fn v3_scale(a: V3, t: int) -> V3 {
    V3 { x: fx_mul(a.x, t), y: fx_mul(a.y, t), z: fx_mul(a.z, t) }
}

/// Componentwise division by a positive fixed-point scalar.
pub open spec fn v3_div(a: V3, t: int) -> V3
    recommends
        t > 0,
{
    V3 { x: fx_div(a.x, t), y: fx_div(a.y, t), z: fx_div(a.z, t) }
}

pub open spec fn v3_dot(a: V3, b: V3) -> int {
    fx_mul(a.x, b.x) + fx_mul(a.y, b.y) + fx_mul(a.z, b.z)
}

pub open spec fn v3_cross(a: V3, b: V3) -> V3 {
    V3 {
        x: fx_mul(a.y, b.z) - fx_mul(a.z, b.y),
        y: fx_mul(a.z, b.x) - fx_mul(a.x, b.z),
        z: fx_mul(a.x, b.y) - fx_mul(a.y, b.x),
    }
}

pub open spec fn v3_len_sq(a: V3) -> int {
    v3_dot(a, a)
}

/// Exact dot product of the raw components, with no rescaling: `SCALE^2`
/// times larger than the fixed-point [`v3_dot`], and free of rounding.
pub open spec fn v3_dot_raw(a: V3, b: V3) -> int {
    a.x * b.x + a.y * b.y + a.z * b.z
}

/// Exact sum of the squared raw components. Its truncated square root is the
/// exact raw length, so lengths are accurate to one raw unit; the rescaled
/// [`v3_len_sq`] would lose that precision before the root is taken.
pub open spec fn v3_raw_len_sq(a: V3) -> int {
    v3_dot_raw(a, a)
}

/// The raw fixed-point length: floor of the square root of the raw sum of
/// squares, within one raw unit of the true length for every vector.
pub open spec fn v3_len(a: V3) -> int {
    sqrt_floor(v3_raw_len_sq(a))
}

/// The unit vector in the direction of `a` (meaningful when `a` is nonzero):
/// each component divided by the raw fixed-point length.
pub open spec fn v3_unit(a: V3) -> V3
    recommends
        v3_len(a) > 0,
{
    v3_div(a, v3_len(a))
}

/// The squared length of a vector is never negative.
pub proof fn lemma_v3_len_sq_nonneg(a: V3)
    ensures
        v3_len_sq(a) >= 0,
{
    lemma_fx_square_nonneg(a.x);
    lemma_fx_square_nonneg(a.y);
    lemma_fx_square_nonneg(a.z);
}

/// The raw length is nonnegative and dominates each component's magnitude.
pub proof fn lemma_v3_len_bounds(a: V3)
    ensures
        v3_len(a) >= 0,
        -v3_len(a) <= a.x <= v3_len(a),
        -v3_len(a) <= a.y <= v3_len(a),
        -v3_len(a) <= a.z <= v3_len(a),
{
    let raw = v3_raw_len_sq(a);
    lemma_square_nonneg(a.x);
    lemma_square_nonneg(a.y);
    lemma_square_nonneg(a.z);
    lemma_sqrt_floor(raw);
    lemma_v3_len_bound_comp(a.x, raw);
    lemma_v3_len_bound_comp(a.y, raw);
    lemma_v3_len_bound_comp(a.z, raw);
}

/// Helper: the floor root of a sum dominating `c * c` dominates `|c|`.
proof fn lemma_v3_len_bound_comp(c: int, raw: int)
    requires
        c * c <= raw,
    ensures
        -sqrt_floor(raw) <= c <= sqrt_floor(raw),
{
    let m = if c >= 0 {
        c
    } else {
        -c
    };
    assert(m * m == c * c) by (nonlinear_arith)
        requires
            m == c || m == -c,
    ;
    lemma_sqrt_floor_square(m);
    lemma_sqrt_floor_ordered(m * m, raw);
}

/// The rescaled squared length underestimates the raw one by the scale
/// factor; in particular a nonzero fixed-point squared length forces a raw
/// squared length of at least `SCALE`.
pub proof fn lemma_v3_fx_len_sq_le_raw(a: V3)
    ensures
        (SCALE as int) * v3_len_sq(a) <= v3_raw_len_sq(a),
        v3_len_sq(a) >= 1 ==> v3_raw_len_sq(a) >= SCALE as int,
{
    lemma_fundamental_div_mod(a.x * a.x, SCALE as int);
    lemma_fundamental_div_mod(a.y * a.y, SCALE as int);
    lemma_fundamental_div_mod(a.z * a.z, SCALE as int);
}

/// A normalized nonzero vector has components within one raw unit of 1.0.
pub proof fn lemma_v3_unit_in_mag(a: V3)
    requires
        v3_raw_len_sq(a) >= 1,
    ensures
        v3_len(a) >= 1,
        v3_in_mag(v3_unit(a), SCALE as int + 1),
{
    lemma_v3_len_bounds(a);
    lemma_sqrt_floor_unique(1, 1);
    lemma_sqrt_floor_ordered(1, v3_raw_len_sq(a));
    let len = v3_len(a);
    lemma_v3_unit_comp_bound(a.x, len);
    lemma_v3_unit_comp_bound(a.y, len);
    lemma_v3_unit_comp_bound(a.z, len);
}

/// Helper: dividing a component by a length that dominates it keeps the
/// quotient within one raw unit of the scale.
proof fn lemma_v3_unit_comp_bound(c: int, len: int)
    requires
        len >= 1,
        -len <= c <= len,
    ensures
        -(SCALE as int) - 1 <= fx_div(c, len) <= SCALE as int,
{
    let s = SCALE as int;
    if c == 0 {
        assert(c * s == 0);
        lemma_div_of0(len);
    } else if c > 0 {
        lemma_fx_div_scale_bound(c, len);
    } else {
        let m = -c;
        lemma_fx_div_scale_bound(m, len);
        lemma_div_lower(c * s, len, m * s);
    }
}

/// Relies on `rand::thread_rng` and `rand::Rng::gen_range`: a sample drawn
/// from a nonempty inclusive range lies within that range (`gen_range`
/// panics only on an empty range, which the precondition rules out).
#[verifier::external_body]
fn rand_in_range(lo: i64, hi: i64) -> (r: i64)
    requires
        lo <= hi,
    ensures
        lo <= r <= hi,
{
    rand::Rng::gen_range(&mut rand::thread_rng(), lo..=hi)
}

/// A scalar whose fixed-point square is below one has magnitude below one.
proof fn lemma_sq_below_one(c: int)
    requires
        -(FX_ONE as int) <= c <= FX_ONE as int,
        fx_mul(c, c) < FX_ONE as int,
    ensures
        -9999 <= c <= 9999,
{
    if c >= FX_ONE as int || c <= -(FX_ONE as int) {
        assert(c * c >= 100_000_000) by (nonlinear_arith)
            requires
                c >= 10000 || c <= -10000,
        ;
        lemma_div_is_ordered(100_000_000, c * c, SCALE as int);
    }
}

/// Magnitude bound for a dot product from componentwise bounds, with the
/// fixed-point rescaling reflected in the bound.
pub proof fn lemma_v3_dot_mag(a: V3, b: V3, ma: int, mb: int)
    requires
        v3_in_mag(a, ma),
        v3_in_mag(b, mb),
        ma >= 0,
        mb >= 0,
    ensures
        -3 * ((ma * mb) / (SCALE as int)) - 3 <= v3_dot(a, b) <= 3 * ((ma * mb) / (SCALE as int)),
{
    lemma_fx_mul_mag_tight(a.x, b.x, ma, mb);
    lemma_fx_mul_mag_tight(a.y, b.y, ma, mb);
    lemma_fx_mul_mag_tight(a.z, b.z, ma, mb);
}

impl Vec3 {
    pub fn new(x: i64, y: i64, z: i64) -> (v: Vec3)
        ensures
            v@ == (V3 { x: x as int, y: y as int, z: z as int }),
    {
        Vec3 { x, y, z }
    }

    /// Componentwise sum.
    pub fn add(&self, rhs: &Vec3) -> (v: Vec3)
        requires
            in_i64(self@.x + rhs@.x),
            in_i64(self@.y + rhs@.y),
            in_i64(self@.z + rhs@.z),
        ensures
            v@ == v3_add(self@, rhs@),
    {
        Vec3 { x: self.x + rhs.x, y: self.y + rhs.y, z: self.z + rhs.z }
    }

    /// Componentwise difference.
    pub fn sub(&self, rhs: &Vec3) -> (v: Vec3)
        requires
            in_i64(self@.x - rhs@.x),
            in_i64(self@.y - rhs@.y),
            in_i64(self@.z - rhs@.z),
        ensures
            v@ == v3_sub(self@, rhs@),
    {
        Vec3 { x: self.x - rhs.x, y: self.y - rhs.y, z: self.z - rhs.z }
    }

    /// Componentwise negation.
    pub fn neg(&self) -> (v: Vec3)
        requires
            in_i64(-self@.x),
            in_i64(-self@.y),
            in_i64(-self@.z),
        ensures
            v@ == v3_neg(self@),
    {
        Vec3 { x: -self.x, y: -self.y, z: -self.z }
    }

    /// Scale by a fixed-point scalar.
    pub fn scale(&self, t: i64) -> (v: Vec3)
        requires
            in_i64(fx_mul(self@.x, t as int)),
            in_i64(fx_mul(self@.y, t as int)),
            in_i64(fx_mul(self@.z, t as int)),
        ensures
            v@ == v3_scale(self@, t as int),
    {
        Vec3 { x: fx_mul_i64(self.x, t), y: fx_mul_i64(self.y, t), z: fx_mul_i64(self.z, t) }
    }

    /// Divide by a positive fixed-point scalar.
    pub fn div_scalar(&self, t: i64) -> (v: Vec3)
        requires
            t > 0,
            in_i64(fx_div(self@.x, t as int)),
            in_i64(fx_div(self@.y, t as int)),
            in_i64(fx_div(self@.z, t as int)),
        ensures
            v@ == v3_div(self@, t as int),
    {
        Vec3 { x: fx_div_i64(self.x, t), y: fx_div_i64(self.y, t), z: fx_div_i64(self.z, t) }
    }

    /// Dot product, computed in full width so it never overflows.
    fn dot_wide(&self, other: &Vec3) -> (r: i128)
        ensures
            r as int == v3_dot(self@, other@),
    {
        proof {
            let m = 0x8000_0000_0000_0000int;
            lemma_fx_mul_mag_tight(self@.x, other@.x, m, m);
            lemma_fx_mul_mag_tight(self@.y, other@.y, m, m);
            lemma_fx_mul_mag_tight(self@.z, other@.z, m, m);
        }
        let mx: i128 = div_floor_i128(mul_i64_wide(self.x, other.x), SCALE as i128);
        let my: i128 = div_floor_i128(mul_i64_wide(self.y, other.y), SCALE as i128);
        let mz: i128 = div_floor_i128(mul_i64_wide(self.z, other.z), SCALE as i128);
        mx + my + mz
    }

    /// Dot product.
    pub fn dot(&self, other: &Vec3) -> (r: i64)
        requires
            in_i64(v3_dot(self@, other@)),
        ensures
            r as int == v3_dot(self@, other@),
    {
        self.dot_wide(other) as i64
    }

    /// Whether the dot product with `other` is negative; total, with no
    /// overflow precondition, because it is computed in full width.
    pub fn dot_is_neg(&self, other: &Vec3) -> (r: bool)
        ensures
            r == (v3_dot(self@, other@) < 0),
    {
        self.dot_wide(other) < 0
    }

    /// Cross product.
    pub fn cross(&self, other: &Vec3) -> (v: Vec3)
        requires
            in_i64(v3_cross(self@, other@).x),
            in_i64(v3_cross(self@, other@).y),
            in_i64(v3_cross(self@, other@).z),
        ensures
            v@ == v3_cross(self@, other@),
    {
        proof {
            let m = 0x8000_0000_0000_0000int;
            lemma_fx_mul_mag_tight(self@.y, other@.z, m, m);
            lemma_fx_mul_mag_tight(self@.z, other@.y, m, m);
            lemma_fx_mul_mag_tight(self@.z, other@.x, m, m);
            lemma_fx_mul_mag_tight(self@.x, other@.z, m, m);
            lemma_fx_mul_mag_tight(self@.x, other@.y, m, m);
            lemma_fx_mul_mag_tight(self@.y, other@.x, m, m);
        }
        let cx: i128 = div_floor_i128(mul_i64_wide(self.y, other.z), SCALE as i128)
            - div_floor_i128(mul_i64_wide(self.z, other.y), SCALE as i128);
        let cy: i128 = div_floor_i128(mul_i64_wide(self.z, other.x), SCALE as i128)
            - div_floor_i128(mul_i64_wide(self.x, other.z), SCALE as i128);
        let cz: i128 = div_floor_i128(mul_i64_wide(self.x, other.y), SCALE as i128)
            - div_floor_i128(mul_i64_wide(self.y, other.x), SCALE as i128);
        Vec3 { x: cx as i64, y: cy as i64, z: cz as i64 }
    }

    /// Squared length.
    pub fn length_squared(&self) -> (r: i64)
        requires
            in_i64(v3_len_sq(self@)),
        ensures
            r as int == v3_len_sq(self@),
            r >= 0,
    {
        proof {
            lemma_v3_len_sq_nonneg(self@);
        }
        self.dot(self)
    }

    /// Fixed-point length: truncated square root of the exact raw sum of
    /// squares, accurate to one raw unit for every vector. (Rooting the
    /// rescaled [`Self::length_squared`] instead would round away up to half
    /// the precision before the root is taken.)
    pub fn length(&self) -> (r: i64)
        requires
            v3_in_mag(self@, 0x4000_0000_0000_0000),
        ensures
            r as int == v3_len(self@),
            r >= 0,
    {
        proof {
            let m = 0x4000_0000_0000_0000int;
            lemma_mul_mag(self@.x, self@.x, m, m);
            lemma_mul_mag(self@.y, self@.y, m, m);
            lemma_mul_mag(self@.z, self@.z, m, m);
            lemma_square_nonneg(self@.x);
            lemma_square_nonneg(self@.y);
            lemma_square_nonneg(self@.z);
        }
        let sx: u128 = mul_i64_wide(self.x, self.x) as u128;
        let sy: u128 = mul_i64_wide(self.y, self.y) as u128;
        let sz: u128 = mul_i64_wide(self.z, self.z) as u128;
        let total: u128 = sx + sy + sz;
        let root: u128 = isqrt_u128(total);
        proof {
            lemma_sqrt_floor(total as int);
            assert(root as int <= 0x7fff_ffff_ffff_ffff) by (nonlinear_arith)
                requires
                    (root as int) * (root as int) <= total as int,
                    root as int >= 0,
                    total as int <= 3 * (0x4000_0000_0000_0000 * 0x4000_0000_0000_0000),
            ;
        }
        root as i64
    }

    /// A vector with each component drawn uniformly from `[0, 1)`.
    pub fn random_unit() -> (v: Vec3)
        ensures
            v3_in_mag(v@, FX_ONE as int),
            0 <= v@.x < FX_ONE as int,
            0 <= v@.y < FX_ONE as int,
            0 <= v@.z < FX_ONE as int,
    {
        Vec3 {
            x: rand_in_range(0, FX_ONE - 1),
            y: rand_in_range(0, FX_ONE - 1),
            z: rand_in_range(0, FX_ONE - 1),
        }
    }

    /// A vector with each component drawn uniformly from `[min, max]`.
    pub fn random(min: i64, max: i64) -> (v: Vec3)
        requires
            min <= max,
        ensures
            min as int <= v@.x <= max as int,
            min as int <= v@.y <= max as int,
            min as int <= v@.z <= max as int,
    {
        Vec3 {
            x: rand_in_range(min, max),
            y: rand_in_range(min, max),
            z: rand_in_range(min, max),
        }
    }

    /// A random point strictly inside the unit sphere, by rejection
    /// sampling from the cube `[-1, 1]^3`.
    ///
    /// Differences from unguarded real-number sampling, both to keep the
    /// fixed-point pipeline total: points whose squared length rounds to
    /// zero are rejected (they could not be normalized), and after a fixed
    /// number of failed draws a fixed interior point is returned so the
    /// loop provably terminates.
    pub fn random_in_unit_sphere() -> (v: Vec3)
        ensures
            v3_in_mag(v@, 9999),
            1 <= v3_len_sq(v@) < FX_ONE as int,
    {
        let mut tries: u32 = 64;
        while tries > 0
            decreases tries,
        {
            let p = Vec3::random(-FX_ONE, FX_ONE);
            proof {
                lemma_fx_mul_mag(p@.x, p@.x, FX_ONE as int, FX_ONE as int);
                lemma_fx_mul_mag(p@.y, p@.y, FX_ONE as int, FX_ONE as int);
                lemma_fx_mul_mag(p@.z, p@.z, FX_ONE as int, FX_ONE as int);
            }
            let len_sq = p.length_squared();
            if 0 < len_sq && len_sq < FX_ONE {
                proof {
                    lemma_fx_square_nonneg(p@.x);
                    lemma_fx_square_nonneg(p@.y);
                    lemma_fx_square_nonneg(p@.z);
                    lemma_sq_below_one(p@.x);
                    lemma_sq_below_one(p@.y);
                    lemma_sq_below_one(p@.z);
                }
                return p;
            }
            tries = tries - 1;
        }
        let fallback = Vec3 { x: FX_HALF, y: 0, z: 0 };
        proof {
            assert(fx_mul(FX_HALF as int, FX_HALF as int) == 2500);
            assert(fx_mul(0, 0) == 0);
        }
        fallback
    }

    /// A random near-unit vector: a point in the unit sphere, normalized,
    /// with components within one raw unit of a true unit vector's.
    pub fn random_unit_vector() -> (v: Vec3)
        ensures
            v3_in_mag(v@, SCALE as int + 1),
            exists|p: V3|
                v3_in_mag(p, 9999) && 1 <= v3_len_sq(p) < FX_ONE as int && v@ == v3_unit(p),
    {
        let s = Self::random_in_unit_sphere();
        proof {
            lemma_v3_fx_len_sq_le_raw(s@);
        }
        let v = s.unit_vector();
        proof {
            assert(v3_in_mag(s@, 9999) && 1 <= v3_len_sq(s@) < FX_ONE as int && v@ == v3_unit(
                s@,
            ));
        }
        v
    }

    /// Exact (unrescaled) dot product of the raw components, computed in
    /// full width. The componentwise bound on `self` keeps the sum inside an
    /// `i128` whatever `other` holds.
    fn dot_raw_wide(&self, other: &Vec3) -> (r: i128)
        requires
            v3_in_mag(self@, 100_000_000),
        ensures
            r as int == v3_dot_raw(self@, other@),
    {
        proof {
            let m = 0x8000_0000_0000_0000int;
            lemma_mul_mag(self@.x, other@.x, 100_000_000, m);
            lemma_mul_mag(self@.y, other@.y, 100_000_000, m);
            lemma_mul_mag(self@.z, other@.z, 100_000_000, m);
        }
        mul_i64_wide(self.x, other.x) + mul_i64_wide(self.y, other.y) + mul_i64_wide(
            self.z,
            other.z,
        )
    }

    /// A random point in the unit sphere, flipped if needed so that it lies
    /// in the hemisphere around `normal`: the flip compares the exact raw
    /// dot product, which negation mirrors exactly, so the result's raw dot
    /// with `normal` is never negative.
    pub fn random_in_hemisphere(normal: &Vec3) -> (v: Vec3)
        ensures
            v3_in_mag(v@, FX_ONE as int),
            v3_dot_raw(v@, normal@) >= 0,
            exists|p: V3|
                v3_in_mag(p, 9999) && 1 <= v3_len_sq(p) < FX_ONE as int && v@ == (
                if v3_dot_raw(p, normal@) > 0 {
                    p
                } else {
                    v3_neg(p)
                }),
    {
        let in_unit_sphere = Self::random_in_unit_sphere();
        let d = in_unit_sphere.dot_raw_wide(normal);
        let v = if d > 0 {
            in_unit_sphere
        } else {
            in_unit_sphere.neg()
        };
        proof {
            let pw = in_unit_sphere@;
            assert((-pw.x) * normal@.x == -(pw.x * normal@.x)) by (nonlinear_arith);
            assert((-pw.y) * normal@.y == -(pw.y * normal@.y)) by (nonlinear_arith);
            assert((-pw.z) * normal@.z == -(pw.z * normal@.z)) by (nonlinear_arith);
            assert(v3_in_mag(pw, 9999) && 1 <= v3_len_sq(pw) < FX_ONE as int && v@ == (
            if v3_dot_raw(pw, normal@) > 0 {
                pw
            } else {
                v3_neg(pw)
            }));
        }
        v
    }

    /// The unit vector in this direction: defined for every nonzero vector,
    /// with each component within one raw unit of the true unit vector's.
    pub fn unit_vector(&self) -> (v: Vec3)
        requires
            v3_in_mag(self@, 0x4000_0000_0000_0000),
            v3_raw_len_sq(self@) >= 1,
        ensures
            v@ == v3_unit(self@),
            v3_in_mag(v@, SCALE as int + 1),
    {
        proof {
            lemma_v3_unit_in_mag(self@);
        }
        let len = self.length();
        self.div_scalar(len)
    }
}

} // verus!
