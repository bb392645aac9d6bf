//! 16.16 fixed-point scalars: an `i64` raw value stands for `raw / 65536`.
//!
//! Multiplication and division truncate toward zero, exactly like the
//! sign-magnitude computation the executable code performs; `tdiv` is the
//! specification of that rounding.  Square roots are integer square roots
//! of the raw value scaled by one more factor of 65536.

use vstd::arithmetic::div_mod::{lemma_div_is_ordered, lemma_div_nonincreasing, lemma_div_pos_is_pos};
use vstd::prelude::*;

verus! {

/// Raw units per 1.0.
pub const FX_ONE: i64 = 65536;

/// Magnitude bound on ray origins, ray directions and bounding boxes
/// (1024 in world units).
pub const WORLD_MAX: i64 = 0x400_0000;

/// Magnitude bound on scene geometry: sphere centers, radii and transform
/// times (256 in world units).  Keeping geometry four times tighter than
/// `WORLD_MAX` gives the quadratic in the sphere intersection the headroom
/// it needs to stay inside `i64`.
pub const GEOM_MAX: i64 = 0x100_0000;

/// Magnitude bound on ray parameters handed to intersection queries
/// (2048 units of ray parameter).
pub const T_LIM: i64 = 0x800_0000;

pub open spec fn iabs(x: int) -> int {
    if x >= 0 {
        x
    } else {
        -x
    }
}

/// Division truncating toward zero (the rounding of the executable code).
pub open spec fn tdiv(n: int, d: int) -> int {
    if (n >= 0) == (d >= 0) {
        iabs(n) / iabs(d)
    } else {
        -(iabs(n) / iabs(d))
    }
}

/// The product of two fixed-point values.
pub open spec fn fx_mul_spec(a: int, b: int) -> int {
    tdiv(a * b, FX_ONE as int)
}

/// The quotient of two fixed-point values.
pub open spec fn fx_div_spec(a: int, b: int) -> int {
    tdiv(a * (FX_ONE as int), b)
}

/// `r` is the integer square root of `n`.
pub open spec fn is_isqrt(n: int, r: int) -> bool {
    &&& r >= 0
    &&& r * r <= n
    &&& n < (r + 1) * (r + 1)
}

/// The integer square root as a function.
pub open spec fn isqrt_spec(n: int) -> int
    decreases n,
{
    if n < 1 {
        0
    } else {
        let r = isqrt_spec(n - 1);
        if (r + 1) * (r + 1) <= n {
            r + 1
        } else {
            r
        }
    }
}

/// The square root of a fixed-point value.
pub open spec fn fx_sqrt_spec(a: int) -> int {
    isqrt_spec(a * (FX_ONE as int))
}

pub proof fn lemma_isqrt_spec(n: int)
    requires
        n >= 0,
    ensures
        is_isqrt(n, isqrt_spec(n)),
    decreases n,
{
    if n < 1 {
        assert(isqrt_spec(n) == 0);
    } else {
        lemma_isqrt_spec(n - 1);
        let r = isqrt_spec(n - 1);
        if (r + 1) * (r + 1) <= n {
            assert(n < (r + 2) * (r + 2)) by (nonlinear_arith)
                requires
                    r >= 0,
                    n - 1 < (r + 1) * (r + 1),
            ;
        }
    }
}

pub proof fn lemma_isqrt_unique(n: int, r: int)
    requires
        n >= 0,
        is_isqrt(n, r),
    ensures
        r == isqrt_spec(n),
{
    lemma_isqrt_spec(n);
    let s = isqrt_spec(n);
    assert(r == s) by (nonlinear_arith)
        requires
            r >= 0,
            s >= 0,
            r * r <= n,
            n < (r + 1) * (r + 1),
            s * s <= n,
            n < (s + 1) * (s + 1),
    ;
}

/// A bound on the magnitude of a truncating quotient.
pub proof fn lemma_tdiv_abs_le(n: int, d: int, b: int)
    requires
        d != 0,
        iabs(n) <= b,
    ensures
        iabs(tdiv(n, d)) == iabs(n) / iabs(d),
        iabs(tdiv(n, d)) <= b / iabs(d),
        iabs(tdiv(n, d)) <= b,
{
    lemma_div_pos_is_pos(iabs(n), iabs(d));
    lemma_div_is_ordered(iabs(n), b, iabs(d));
    lemma_div_nonincreasing(b, iabs(d));
}

/// Truncating division preserves sign: nonnegative over positive is nonnegative.
pub proof fn lemma_tdiv_nonneg(n: int, d: int)
    requires
        n >= 0,
        d > 0,
    ensures
        tdiv(n, d) >= 0,
        tdiv(n, d) == n / d,
{
    lemma_div_pos_is_pos(n, d);
}

/// Truncating division is monotone in the numerator.
pub proof fn lemma_tdiv_mono(n1: int, n2: int, d: int)
    requires
        d > 0,
        n1 <= n2,
    ensures
        tdiv(n1, d) <= tdiv(n2, d),
{
    if n1 >= 0 {
        lemma_div_is_ordered(n1, n2, d);
    } else if n2 < 0 {
        lemma_div_is_ordered(-n2, -n1, d);
    } else {
        lemma_div_pos_is_pos(-n1, d);
        lemma_div_pos_is_pos(n2, d);
    }
}

/// An upper bound on a nonnegative quotient from a product bound.
pub proof fn lemma_tdiv_le_of(n: int, d: int, c: int)
    requires
        d > 0,
        0 <= n,
        0 <= c,
        n <= c * d,
    ensures
        0 <= tdiv(n, d) <= c,
{
    lemma_div_pos_is_pos(n, d);
    lemma_div_is_ordered(n, c * d, d);
    vstd::arithmetic::div_mod::lemma_div_by_multiple(c, d);
    assert(c * d == d * c) by (nonlinear_arith);
}

/// A bound on the magnitude of a fixed-point product.
pub proof fn lemma_fx_mul_bound(a: int, b: int, aa: int, bb: int)
    requires
        iabs(a) <= aa,
        iabs(b) <= bb,
    ensures
        iabs(a * b) <= aa * bb,
        iabs(fx_mul_spec(a, b)) <= (aa * bb) / (FX_ONE as int),
        iabs(fx_mul_spec(a, b)) <= aa * bb,
{
    assert(iabs(a * b) <= aa * bb) by (nonlinear_arith)
        requires
            iabs(a) <= aa,
            iabs(b) <= bb,
    ;
    lemma_tdiv_abs_le(a * b, FX_ONE as int, aa * bb);
}

/// A fixed-point product of values in `[0, 1]` stays in `[0, 1]`.
pub proof fn lemma_fx_mul_unit(a: int, b: int)
    requires
        0 <= a <= FX_ONE,
        0 <= b <= FX_ONE,
    ensures
        0 <= fx_mul_spec(a, b) <= FX_ONE,
        fx_mul_spec(a, b) == (a * b) / (FX_ONE as int),
{
    assert(0 <= a * b <= (FX_ONE as int) * (FX_ONE as int)) by (nonlinear_arith)
        requires
            0 <= a <= FX_ONE,
            0 <= b <= FX_ONE,
    ;
    lemma_tdiv_nonneg(a * b, FX_ONE as int);
    lemma_div_is_ordered(a * b, (FX_ONE as int) * (FX_ONE as int), FX_ONE as int);
    assert(((FX_ONE as int) * (FX_ONE as int)) / (FX_ONE as int) == FX_ONE as int) by (nonlinear_arith);
}

/// The magnitude of a value as an unsigned integer.
fn abs_u128(n: i128) -> (r: u128)
    ensures
        r as int == iabs(n as int),
{
    if n >= 0 {
        n as u128
    } else {
        ((-(n + 1)) as u128) + 1
    }
}

/// Division of `i128` values truncating toward zero, carried out on
/// unsigned magnitudes.
fn tdiv_i128(n: i128, d: i128) -> (r: i128)
    requires
        d != 0,
        n > i128::MIN,
    ensures
        r as int == tdiv(n as int, d as int),
{
    let un: u128 = abs_u128(n);
    let ud: u128 = abs_u128(d);
    let q: u128 = un / ud;
    proof {
        lemma_div_nonincreasing(un as int, ud as int);
        lemma_div_pos_is_pos(un as int, ud as int);
    }
    if (n < 0) == (d < 0) {
        q as i128
    } else {
        -(q as i128)
    }
}

/// Fixed-point multiplication.
pub fn fx_mul(a: i64, b: i64) -> (r: i64)
    requires
        i64::MIN <= fx_mul_spec(a as int, b as int) <= i64::MAX,
    ensures
        r as int == fx_mul_spec(a as int, b as int),
{
    proof {
        assert(-0x4000_0000_0000_0000_0000_0000_0000_0000 <= (a as int) * (b as int)
            <= 0x4000_0000_0000_0000_0000_0000_0000_0000) by (nonlinear_arith)
            requires
                -0x8000_0000_0000_0000 <= a <= 0x7fff_ffff_ffff_ffff,
                -0x8000_0000_0000_0000 <= b <= 0x7fff_ffff_ffff_ffff,
        ;
    }
    let p: i128 = (a as i128) * (b as i128);
    let q: i128 = tdiv_i128(p, 65536);
    q as i64
}

/// Fixed-point division.
pub fn fx_div(a: i64, b: i64) -> (r: i64)
    requires
        b != 0,
        i64::MIN <= fx_div_spec(a as int, b as int) <= i64::MAX,
    ensures
        r as int == fx_div_spec(a as int, b as int),
{
    let p: i128 = (a as i128) * 65536;
    let q: i128 = tdiv_i128(p, b as i128);
    q as i64
}

/// Integer square root by bisection.
fn isqrt_u128(n: u128) -> (r: u128)
    ensures
        is_isqrt(n as int, r as int),
{
    let mut lo: u128 = 0;
    let mut hi: u128 = 0x1_0000_0000_0000_0000;
    proof {
        assert((0x1_0000_0000_0000_0000 as int) * (0x1_0000_0000_0000_0000 as int) > u128::MAX as int) by (nonlinear_arith);
    }
    while lo + 1 < hi
        invariant
            0 <= lo < hi <= 0x1_0000_0000_0000_0000,
            (lo as int) * (lo as int) <= n as int,
            (n as int) < (hi as int) * (hi as int),
        decreases hi - lo,
    {
        let mid: u128 = lo + (hi - lo) / 2;
        proof {
            assert((mid as int) * (mid as int) <= u128::MAX as int) by (nonlinear_arith)
                requires
                    0 <= mid < 0x1_0000_0000_0000_0000,
            ;
        }
        if mid * mid <= n {
            lo = mid;
        } else {
            hi = mid;
        }
    }
    lo
}

/// Fixed-point square root of a nonnegative value.
pub fn fx_sqrt(a: i64) -> (r: i64)
    requires
        a >= 0,
    ensures
        r as int == fx_sqrt_spec(a as int),
        r >= 0,
        is_isqrt((a as int) * (FX_ONE as int), r as int),
{
    let n: u128 = (a as u128) * 65536;
    let s: u128 = isqrt_u128(n);
    proof {
        assert((s as int) * (s as int) <= n as int);
        assert(s < 0x1_0000_0000_0000) by (nonlinear_arith)
            requires
                s >= 0,
                (s as int) * (s as int) <= n as int,
                n as int <= 0x7fff_ffff_ffff_ffff * 65536,
        ;
        lemma_isqrt_unique(n as int, s as int);
    }
    s as i64
}

/// The floor of a fixed-point value, as a plain integer (Euclidean
/// division by the scale).
pub fn fx_floor(a: i64) -> (r: i64)
    requires
        a > i64::MIN,
    ensures
        r as int == (a as int) / (FX_ONE as int),
        (r as int) * (FX_ONE as int) <= a as int,
{
    let r: i64 = if a >= 0 {
        ((a as u64) / 65536) as i64
    } else {
        let m: u64 = (-a) as u64;
        let q: u64 = (m + 65535) / 65536;
        proof {
            lemma_div_nonincreasing((m + 65535) as int, 65536);
            lemma_div_pos_is_pos((m + 65535) as int, 65536);
            assert((a as int) / (FX_ONE as int) == -(q as int)) by (nonlinear_arith)
                requires
                    a < 0,
                    m == -(a as int),
                    q == ((m + 65535) as int) / 65536,
            ;
        }
        -(q as i64)
    };
    proof {
        vstd::arithmetic::div_mod::lemma_fundamental_div_mod(a as int, FX_ONE as int);
        vstd::arithmetic::div_mod::lemma_mod_bound(a as int, FX_ONE as int);
    }
    r
}

/// The fractional part of a fixed-point value, in `[0, 1)`.
pub fn fx_fract(a: i64) -> (r: i64)
    requires
        a > i64::MIN,
    ensures
        r as int == (a as int) - ((a as int) / (FX_ONE as int)) * (FX_ONE as int),
        0 <= r < FX_ONE,
{
    let f: i64 = fx_floor(a);
    proof {
        vstd::arithmetic::div_mod::lemma_fundamental_div_mod(a as int, FX_ONE as int);
        vstd::arithmetic::div_mod::lemma_mod_bound(a as int, FX_ONE as int);
    }
    a - f * 65536
}

/// Euclidean (flooring) division by a positive divisor.
pub fn fx_floor_div(a: i64, d: i64) -> (r: i64)
    requires
        a > i64::MIN,
        d >= 1,
    ensures
        r as int == (a as int) / (d as int),
{
    if a >= 0 {
        let q: u64 = (a as u64) / (d as u64);
        proof {
            lemma_div_nonincreasing(a as int, d as int);
            lemma_div_pos_is_pos(a as int, d as int);
        }
        q as i64
    } else {
        let m: u64 = (-a) as u64;
        let q: u64 = (m + (d as u64) - 1) / (d as u64);
        proof {
            let mi = m as int;
            let di = d as int;
            let qi = (mi + di - 1) / di;
            let ri = (mi + di - 1) % di;
            vstd::arithmetic::div_mod::lemma_fundamental_div_mod(mi + di - 1, di);
            vstd::arithmetic::div_mod::lemma_mod_bound(mi + di - 1, di);
            assert(di * (-qi) == -(di * qi)) by (nonlinear_arith);
            assert(a as int == di * (-qi) + (di - 1 - ri));
            vstd::arithmetic::div_mod::lemma_fundamental_div_mod_converse(
                a as int,
                di,
                -qi,
                di - 1 - ri,
            );
            assert(mi + di - 1 <= mi * di) by (nonlinear_arith)
                requires
                    mi >= 1,
                    di >= 1,
            ;
            lemma_div_is_ordered(mi + di - 1, mi * di, di);
            vstd::arithmetic::div_mod::lemma_div_by_multiple(mi, di);
            assert(mi * di == di * mi) by (nonlinear_arith);
        }
        -(q as i64)
    }
}

/// The Euclidean parity of a value.
pub fn emod2(x: i64) -> (r: i64)
    requires
        x > i64::MIN,
    ensures
        r as int == (x as int) % 2,
        r == 0 || r == 1,
{
    proof {
        vstd::arithmetic::div_mod::lemma_mod_bound(x as int, 2);
    }
    if x >= 0 {
        let r: u64 = (x as u64) % 2;
        proof {
            assert(r as int == (x as int) % 2) by (nonlinear_arith)
                requires
                    x >= 0,
                    r == (x as int) % 2,
            ;
        }
        r as i64
    } else {
        let y: u64 = (-(x + 1)) as u64;
        let m: u64 = y % 2;
        proof {
            assert(1 - (m as int) == (x as int) % 2) by (nonlinear_arith)
                requires
                    x < 0,
                    y == -((x as int) + 1),
                    m == (y as int) % 2,
                    0 <= m < 2,
            ;
        }
        (1 - m) as i64
    }
}

/// A value reduced to `[0, 256)` by Euclidean remainder.
pub fn emod256(x: i64) -> (r: usize)
    requires
        x > i64::MIN,
    ensures
        r as int == (x as int) % 256,
        r < 256,
{
    proof {
        vstd::arithmetic::div_mod::lemma_mod_bound(x as int, 256);
    }
    if x >= 0 {
        let r: u64 = (x as u64) % 256;
        proof {
            assert(r as int == (x as int) % 256) by (nonlinear_arith)
                requires
                    x >= 0,
                    r == (x as int) % 256,
            ;
        }
        r as usize
    } else {
        let y: u64 = (-(x + 1)) as u64;
        let m: u64 = y % 256;
        proof {
            assert(255 - (m as int) == (x as int) % 256) by (nonlinear_arith)
                requires
                    x < 0,
                    y == -((x as int) + 1),
                    m == (y as int) % 256,
                    0 <= m < 256,
            ;
        }
        (255 - m) as usize
    }
}

/// Clamp into a closed interval.
pub fn fx_clamp(v: i64, min: i64, max: i64) -> (r: i64)
    requires
        min <= max,
    ensures
        r == if v < min { min } else if v > max { max } else { v },
        min <= r <= max,
{
    if v < min {
        min
    } else if v > max {
        max
    } else {
        v
    }
}

/// The smaller of two values.
pub fn fx_min(a: i64, b: i64) -> (r: i64)
    ensures
        r == if a < b { a } else { b },
{
    if a < b {
        a
    } else {
        b
    }
}

/// The larger of two values.
pub fn fx_max(a: i64, b: i64) -> (r: i64)
    ensures
        r == if a > b { a } else { b },
{
    if a > b {
        a
    } else {
        b
    }
}

} // verus!
