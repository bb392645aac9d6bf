//! The 3D lattice checker.
//!
//! The pattern is the sign of
//! `sin(s x) sin(s y) sin(s z)`: a factor is negative exactly when the
//! scaled coordinate lies in an odd half-period of the sine, that is when
//! `floor(s x / pi)` is odd, and the product is negative exactly when an
//! odd number of factors are.  The selection is computed here in that
//! exact integer form (a lattice face, where a sine is zero and the
//! float sign would be rounding-determined, belongs to the half-period
//! it opens: a coordinate at an odd multiple of the fixed-point pi
//! counts as an odd factor).

use crate::fx::{emod2, fx_floor_div, fx_mul, fx_mul_spec, lemma_fx_mul_bound};
use crate::texture::Texture;
use crate::vec3::{vec_bounded, Point3};
use vstd::prelude::*;

verus! {

/// The fixed-point half-period of the sine: pi * 65536, truncated.
pub const PI_FX: i64 = 205887;

pub struct Checkered {
    pub scale: i64,
    pub even: Box<Texture>,
    pub odd: Box<Texture>,
}

impl Checkered {
    /// A fixed lattice frequency of ten.
    pub fn new(even: Box<Texture>, odd: Box<Texture>) -> (r: Self)
        ensures
            r.scale == 655360,
            r.even == even,
            r.odd == odd,
    {
        Checkered { scale: 655360, even, odd }
    }
}

/// Which half-period of the sine the scaled coordinate falls in.
pub open spec fn spec_half_period(scale: int, x: int) -> int {
    fx_mul_spec(scale, x) / (PI_FX as int)
}

/// The sine product is negative: an odd number of coordinates fall in
/// odd half-periods.
pub open spec fn spec_checker_odd(scale: int, p: Point3) -> bool {
    (spec_half_period(scale, p.x as int) + spec_half_period(scale, p.y as int)
        + spec_half_period(scale, p.z as int)) % 2 == 1
}

/// Decides which sub-texture the lattice selects at a point.
pub fn checker_odd(scale: i64, p: &Point3) -> (r: bool)
    requires
        1 <= scale <= 0x40_0000,
        vec_bounded(*p, 0x40_0000_0000),
    ensures
        r == spec_checker_odd(scale as int, *p),
{
    proof {
        lemma_fx_mul_bound(scale as int, p.x as int, 0x40_0000, 0x40_0000_0000);
        lemma_fx_mul_bound(scale as int, p.y as int, 0x40_0000, 0x40_0000_0000);
        lemma_fx_mul_bound(scale as int, p.z as int, 0x40_0000, 0x40_0000_0000);
    }
    let qx: i64 = fx_floor_div(fx_mul(scale, p.x), PI_FX);
    let qy: i64 = fx_floor_div(fx_mul(scale, p.y), PI_FX);
    let qz: i64 = fx_floor_div(fx_mul(scale, p.z), PI_FX);
    proof {
        lemma_half_period_bound(scale as int, p.x as int);
        lemma_half_period_bound(scale as int, p.y as int);
        lemma_half_period_bound(scale as int, p.z as int);
    }
    emod2(qx + qy + qz) == 1
}

/// A half-period index stays far from the integer edge.
proof fn lemma_half_period_bound(scale: int, x: int)
    requires
        1 <= scale <= 0x40_0000,
        crate::fx::iabs(x) <= 0x40_0000_0000,
    ensures
        crate::fx::iabs(spec_half_period(scale, x)) <= 0x4000_0000_0000,
{
    lemma_fx_mul_bound(scale, x, 0x40_0000, 0x40_0000_0000);
    let m = fx_mul_spec(scale, x);
    assert(crate::fx::iabs(m / (PI_FX as int)) <= crate::fx::iabs(m)) by (nonlinear_arith)
        requires
            crate::fx::iabs(m) <= 0x1_0000_0000_0000,
    ;
}

} // verus!
