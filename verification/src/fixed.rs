//! Fixed-point scalar arithmetic.
//!
//! Every scalar in this library is a fixed-point number: an `i64` that stores
//! a multiple of `1/SCALE` of a unit. Products and quotients are rescaled
//! with floor rounding, and square roots truncate, so all operations are
//! exact integer functions of their arguments.

use vstd::prelude::*;
use vstd::arithmetic::div_mod::{
    lemma_fundamental_div_mod, lemma_fundamental_div_mod_converse, lemma_div_is_ordered,
    lemma_div_is_ordered_by_denominator, lemma_div_pos_is_pos, lemma_div_multiples_vanish,
};

verus! {

/// Raw units per whole unit: a raw value `x` stands for the real `x / SCALE`.
pub const SCALE: i64 = 10000;

/// The value 1.0 in raw units.
pub const FX_ONE: i64 = 10000;

/// The value 0.5 in raw units.
pub const FX_HALF: i64 = 5000;

/// Fixed-point product: the exact integer product, rescaled with floor rounding.
pub open spec fn fx_mul(a: int, b: int) -> int {
    (a * b) / (SCALE as int)
}

/// Fixed-point quotient of `a` by `b` (meaningful for `b > 0`): floor of the
/// real quotient, in raw units.
pub open spec fn fx_div(a: int, b: int) -> int
    recommends
        b > 0,
{
    (a * (SCALE as int)) / b
}

/// Whether a mathematical integer fits in an `i64`.
pub open spec fn in_i64(x: int) -> bool {
    i64::MIN <= x <= i64::MAX
}

/// Floor of the square root of `n` (0 for negative `n`).
pub open spec fn sqrt_floor(n: int) -> int
    decreases n,
{
    if n <= 0 {
        0
    } else {
        let r = sqrt_floor(n - 1);
        if (r + 1) * (r + 1) <= n {
            r + 1
        } else {
            r
        }
    }
}

/// `sqrt_floor(n)` really is the floor of the square root.
pub proof fn lemma_sqrt_floor(n: int)
    requires
        n >= 0,
    ensures
        sqrt_floor(n) >= 0,
        sqrt_floor(n) * sqrt_floor(n) <= n,
        n < (sqrt_floor(n) + 1) * (sqrt_floor(n) + 1),
    decreases n,
{
    if n == 0 {
        assert(sqrt_floor(0) == 0);
    } else {
        lemma_sqrt_floor(n - 1);
        let r = sqrt_floor(n - 1);
        if (r + 1) * (r + 1) <= n {
            assert(n < ((r + 1) + 1) * ((r + 1) + 1)) by (nonlinear_arith)
                requires
                    r >= 0,
                    n - 1 < (r + 1) * (r + 1),
            ;
        }
    }
}

/// The floor square root is unique: any `r` bracketing `n` equals `sqrt_floor(n)`.
pub proof fn lemma_sqrt_floor_unique(n: int, r: int)
    requires
        n >= 0,
        r >= 0,
        r * r <= n,
        n < (r + 1) * (r + 1),
    ensures
        r == sqrt_floor(n),
{
    let s = sqrt_floor(n);
    lemma_sqrt_floor(n);
    if r < s {
        assert(false) by (nonlinear_arith)
            requires
                0 <= r < s,
                s * s <= n,
                n < (r + 1) * (r + 1),
        ;
    }
    if s < r {
        assert(false) by (nonlinear_arith)
            requires
                0 <= s < r,
                r * r <= n,
                n < (s + 1) * (s + 1),
        ;
    }
}

/// `sqrt_floor` is monotone.
pub proof fn lemma_sqrt_floor_ordered(a: int, b: int)
    requires
        0 <= a <= b,
    ensures
        sqrt_floor(a) <= sqrt_floor(b),
{
    lemma_sqrt_floor(a);
    lemma_sqrt_floor(b);
    if sqrt_floor(b) < sqrt_floor(a) {
        assert(false) by (nonlinear_arith)
            requires
                0 <= sqrt_floor(b) < sqrt_floor(a),
                sqrt_floor(a) * sqrt_floor(a) <= a,
                a <= b,
                b < (sqrt_floor(b) + 1) * (sqrt_floor(b) + 1),
        ;
    }
}

/// Dividing by a positive integer cannot grow the magnitude:
/// the quotient lies between 0 and the dividend.
pub proof fn lemma_div_mag(n: int, d: int)
    requires
        d >= 1,
    ensures
        n >= 0 ==> 0 <= n / d <= n,
        n < 0 ==> n <= n / d <= 0,
{
    lemma_fundamental_div_mod(n, d);
    let q = n / d;
    let r = n % d;
    assert(n >= 0 ==> 0 <= q <= n) by (nonlinear_arith)
        requires
            n == d * q + r,
            0 <= r < d,
            d >= 1,
    ;
    assert(n < 0 ==> n <= q <= 0) by (nonlinear_arith)
        requires
            n == d * q + r,
            0 <= r < d,
            d >= 1,
    ;
}

/// Coarse magnitude bound for a product.
pub proof fn lemma_mul_mag(a: int, b: int, ma: int, mb: int)
    requires
        -ma <= a <= ma,
        -mb <= b <= mb,
    ensures
        -(ma * mb) <= a * b <= ma * mb,
{
    assert(-(ma * mb) <= a * b <= ma * mb) by (nonlinear_arith)
        requires
            -ma <= a <= ma,
            -mb <= b <= mb,
    ;
}

/// Coarse magnitude bound for a fixed-point product.
pub proof fn lemma_fx_mul_mag(a: int, b: int, ma: int, mb: int)
    requires
        -ma <= a <= ma,
        -mb <= b <= mb,
    ensures
        -(ma * mb) <= fx_mul(a, b) <= ma * mb,
{
    lemma_mul_mag(a, b, ma, mb);
    lemma_div_mag(a * b, SCALE as int);
}

/// Tight magnitude bound for a fixed-point product: the rescaling by `SCALE`
/// is reflected in the bound.
pub proof fn lemma_fx_mul_mag_tight(a: int, b: int, ma: int, mb: int)
    requires
        -ma <= a <= ma,
        -mb <= b <= mb,
        ma >= 0,
        mb >= 0,
    ensures
        -((ma * mb) / (SCALE as int)) - 1 <= fx_mul(a, b) <= (ma * mb) / (SCALE as int),
{
    lemma_mul_mag(a, b, ma, mb);
    assert(ma * mb >= 0) by (nonlinear_arith)
        requires
            ma >= 0,
            mb >= 0,
    ;
    lemma_div_lower(a * b, SCALE as int, ma * mb);
}

/// Coarse magnitude bound for a fixed-point quotient.
pub proof fn lemma_fx_div_mag(a: int, b: int, ma: int)
    requires
        -ma <= a <= ma,
        b >= 1,
    ensures
        -(ma * (SCALE as int)) <= fx_div(a, b) <= ma * (SCALE as int),
{
    lemma_mul_mag(a, SCALE as int, ma, SCALE as int);
    lemma_div_mag(a * (SCALE as int), b);
}

/// Tight two-sided bound on a floor quotient from a magnitude bound on the
/// dividend.
pub proof fn lemma_div_lower(n: int, d: int, m: int)
    requires
        d >= 1,
        m >= 0,
        -m <= n <= m,
    ensures
        -(m / d) - 1 <= n / d <= m / d,
{
    lemma_div_is_ordered(n, m, d);
    lemma_div_is_ordered(-m, n, d);
    lemma_fundamental_div_mod(m, d);
    let q = m / d;
    let r = m % d;
    if r == 0 {
        assert(-m == (-q) * d + 0) by (nonlinear_arith)
            requires
                m == d * q + r,
                r == 0,
        ;
        lemma_fundamental_div_mod_converse(-m, d, -q, 0);
    } else {
        assert(-m == (-q - 1) * d + (d - r)) by (nonlinear_arith)
            requires
                m == d * q + r,
        ;
        lemma_fundamental_div_mod_converse(-m, d, -q - 1, d - r);
    }
}

/// The quotient of a nonnegative scaled value by a divisor at least as large
/// as the unscaled value is at most the scale: `b >= a >= 1` gives
/// `0 <= (a * SCALE) / b <= SCALE`.
pub proof fn lemma_fx_div_scale_bound(a: int, b: int)
    requires
        1 <= a <= b,
    ensures
        0 <= fx_div(a, b) <= SCALE as int,
{
    let s = SCALE as int;
    assert(a * s >= 0) by (nonlinear_arith)
        requires
            a >= 0,
            s >= 0,
    ;
    lemma_div_pos_is_pos(a * s, b);
    lemma_div_is_ordered_by_denominator(a * s, a, b);
    lemma_div_multiples_vanish(s, a);
    assert(a * s == s * a) by (nonlinear_arith);
}

/// The floor square root of a perfect square is its (nonnegative) root.
pub proof fn lemma_sqrt_floor_square(x: int)
    requires
        x >= 0,
    ensures
        sqrt_floor(x * x) == x,
{
    assert(x * x < (x + 1) * (x + 1)) by (nonlinear_arith)
        requires
            x >= 0,
    ;
    assert(x * x >= 0) by (nonlinear_arith);
    lemma_sqrt_floor_unique(x * x, x);
}

/// A square is never negative.
pub proof fn lemma_square_nonneg(a: int)
    ensures
        a * a >= 0,
{
    assert(a * a >= 0) by (nonlinear_arith);
}

/// `fx_mul(a, a)` is never negative.
pub proof fn lemma_fx_square_nonneg(a: int)
    ensures
        fx_mul(a, a) >= 0,
{
    lemma_square_nonneg(a);
    lemma_div_mag(a * a, SCALE as int);
}

/// Exact widening product of two `i64` values.
pub fn mul_i64_wide(a: i64, b: i64) -> (r: i128)
    ensures
        r as int == a as int * b as int,
{
    proof {
        lemma_mul_mag(a as int, b as int, 0x8000_0000_0000_0000, 0x8000_0000_0000_0000);
    }
    (a as i128) * (b as i128)
}

/// Floor division of an `i128` by a positive divisor.
pub fn div_floor_i128(n: i128, d: i128) -> (q: i128)
    requires
        0 < d,
        i128::MIN < n,
    ensures
        q == n as int / d as int,
{
    if n >= 0 {
        let q0: u128 = (n as u128) / (d as u128);
        proof {
            lemma_div_mag(n as int, d as int);
        }
        q0 as i128
    } else {
        let m: u128 = (-n) as u128;
        let du: u128 = d as u128;
        let q0: u128 = m / du;
        let r0: u128 = m % du;
        proof {
            lemma_fundamental_div_mod(m as int, du as int);
        }
        if r0 == 0 {
            proof {
                assert(n as int == (-(q0 as int)) * (d as int) + 0) by (nonlinear_arith)
                    requires
                        m as int == du as int * (q0 as int) + (r0 as int),
                        r0 as int == 0,
                        n as int == -(m as int),
                        du as int == d as int,
                ;
                lemma_fundamental_div_mod_converse(n as int, d as int, -(q0 as int), 0);
            }
            -(q0 as i128)
        } else {
            proof {
                assert(n as int == (-(q0 as int) - 1) * (d as int) + (d as int - r0 as int))
                    by (nonlinear_arith)
                    requires
                        m as int == du as int * (q0 as int) + (r0 as int),
                        n as int == -(m as int),
                        du as int == d as int,
                ;
                lemma_fundamental_div_mod_converse(
                    n as int,
                    d as int,
                    -(q0 as int) - 1,
                    d as int - r0 as int,
                );
            }
            -(q0 as i128) - 1
        }
    }
}

/// Fixed-point product of two raw `i64` values.
pub fn fx_mul_i64(a: i64, b: i64) -> (r: i64)
    requires
        in_i64(fx_mul(a as int, b as int)),
    ensures
        r as int == fx_mul(a as int, b as int),
{
    let p: i128 = mul_i64_wide(a, b);
    let q: i128 = div_floor_i128(p, SCALE as i128);
    q as i64
}

/// Fixed-point quotient of two raw `i64` values; the divisor must be positive.
pub fn fx_div_i64(a: i64, b: i64) -> (r: i64)
    requires
        b > 0,
        in_i64(fx_div(a as int, b as int)),
    ensures
        r as int == fx_div(a as int, b as int),
{
    let p: i128 = mul_i64_wide(a, SCALE);
    let q: i128 = div_floor_i128(p, b as i128);
    q as i64
}

/// Floor of the square root of a `u128`, by bisection.
pub fn isqrt_u128(n: u128) -> (r: u128)
    requires
        (n as int) < 0x4000_0000_0000_0000_0000_0000_0000_0000,
    ensures
        r as int == sqrt_floor(n as int),
{
    if n == 0 {
        return 0;
    }
    let mut lo: u128 = 0;
    let mut hi: u128 = 0x8000_0000_0000_0000;
    proof {
        assert((hi as int) * (hi as int) == 0x4000_0000_0000_0000_0000_0000_0000_0000)
            by (nonlinear_arith)
            requires
                hi as int == 0x8000_0000_0000_0000,
        ;
    }
    while lo + 1 < hi
        invariant
            0 <= lo < hi <= 0x8000_0000_0000_0000,
            (lo as int) * (lo as int) <= n as int,
            (n as int) < (hi as int) * (hi as int),
        decreases hi - lo,
    {
        let mid: u128 = lo + (hi - lo) / 2;
        proof {
            lemma_mul_mag(mid as int, mid as int, 0x8000_0000_0000_0000, 0x8000_0000_0000_0000);
        }
        if mid * mid <= n {
            lo = mid;
        } else {
            hi = mid;
        }
    }
    proof {
        lemma_sqrt_floor_unique(n as int, lo as int);
    }
    lo
}

} // verus!
