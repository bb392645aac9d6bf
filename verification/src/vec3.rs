//! The 3-component fixed-point vector used for points, directions and colors.

use crate::fx::{
    fx_clamp, fx_div, fx_div_spec, fx_mul, fx_mul_spec, fx_sqrt, fx_sqrt_spec, iabs, is_isqrt,
    isqrt_spec, lemma_fx_mul_bound, lemma_isqrt_spec, lemma_tdiv_abs_le, lemma_tdiv_nonneg, tdiv,
    FX_ONE,
};
use crate::rng::rand_fx;
use vstd::arithmetic::div_mod::{
    lemma_div_is_ordered, lemma_fundamental_div_mod, lemma_mod_bound,
};
use vstd::prelude::*;

verus! {

/// Bound under which all the binary vector operations stay free of overflow.
pub const DOT_MAX: i64 = 0x40_0000_0000;

/// Bound on the components of a normalized vector (a little under 3.0,
/// covering the worst truncation of the square root and the division).
pub const UNIT_MAX: i64 = 0x30000;

#[derive(Clone, Copy, Debug, PartialEq, Eq, Structural)]
pub struct Vec3 {
    pub x: i64,
    pub y: i64,
    pub z: i64,
}

pub type Point3 = Vec3;

pub type Color = Vec3;

/// A vector from three mathematical components (used only in specifications,
/// always under bounds that make the coercions exact).
pub open spec fn v3(x: int, y: int, z: int) -> Vec3 {
    Vec3 { x: x as i64, y: y as i64, z: z as i64 }
}

pub open spec fn vec_bounded(v: Vec3, b: int) -> bool {
    &&& iabs(v.x as int) <= b
    &&& iabs(v.y as int) <= b
    &&& iabs(v.z as int) <= b
}

pub open spec fn spec_dot(a: Vec3, b: Vec3) -> int {
    fx_mul_spec(a.x as int, b.x as int) + fx_mul_spec(a.y as int, b.y as int) + fx_mul_spec(
        a.z as int,
        b.z as int,
    )
}

pub open spec fn spec_add(a: Vec3, b: Vec3) -> Vec3 {
    v3(a.x + b.x, a.y + b.y, a.z + b.z)
}

pub open spec fn spec_sub(a: Vec3, b: Vec3) -> Vec3 {
    v3(a.x - b.x, a.y - b.y, a.z - b.z)
}

pub open spec fn spec_neg(a: Vec3) -> Vec3 {
    v3(-a.x, -a.y, -a.z)
}

/// Componentwise fixed-point product.
pub open spec fn spec_mul(a: Vec3, b: Vec3) -> Vec3 {
    v3(
        fx_mul_spec(a.x as int, b.x as int),
        fx_mul_spec(a.y as int, b.y as int),
        fx_mul_spec(a.z as int, b.z as int),
    )
}

/// Product with a fixed-point scalar.
pub open spec fn spec_scale(a: Vec3, s: int) -> Vec3 {
    v3(
        fx_mul_spec(a.x as int, s),
        fx_mul_spec(a.y as int, s),
        fx_mul_spec(a.z as int, s),
    )
}

/// Quotient by a fixed-point scalar.
pub open spec fn spec_div_scalar(a: Vec3, s: int) -> Vec3 {
    v3(
        fx_div_spec(a.x as int, s),
        fx_div_spec(a.y as int, s),
        fx_div_spec(a.z as int, s),
    )
}

pub open spec fn spec_normalized(a: Vec3) -> Vec3 {
    spec_div_scalar(a, fx_sqrt_spec(spec_dot(a, a)))
}

pub open spec fn spec_cross(a: Vec3, b: Vec3) -> Vec3 {
    v3(
        fx_mul_spec(a.y as int, b.z as int) - fx_mul_spec(a.z as int, b.y as int),
        fx_mul_spec(a.z as int, b.x as int) - fx_mul_spec(a.x as int, b.z as int),
        fx_mul_spec(a.x as int, b.y as int) - fx_mul_spec(a.y as int, b.x as int),
    )
}

/// `v - 2 (v . n) n`, the mirror image about the plane normal to `n`.
pub open spec fn spec_reflect(v: Vec3, n: Vec3) -> Vec3 {
    v3(
        v.x - fx_mul_spec(2 * spec_dot(v, n), n.x as int),
        v.y - fx_mul_spec(2 * spec_dot(v, n), n.y as int),
        v.z - fx_mul_spec(2 * spec_dot(v, n), n.z as int),
    )
}

/// Snell refraction: the perpendicular part scaled by the index ratio,
/// plus a parallel part restoring (nearly) unit length.
pub open spec fn spec_refract(uv: Vec3, n: Vec3, eta: int) -> Vec3 {
    let cos_theta = if spec_dot(spec_neg(uv), n) < FX_ONE {
        spec_dot(spec_neg(uv), n)
    } else {
        FX_ONE as int
    };
    let perp = spec_scale(spec_add(uv, spec_scale(n, cos_theta)), eta);
    let par_len = fx_sqrt_spec(iabs((FX_ONE as int) - spec_dot(perp, perp)));
    spec_sub(perp, spec_scale(n, par_len))
}

/// Truncating toward zero is odd: negating the numerator negates the quotient.
pub proof fn lemma_tdiv_neg(n: int, d: int)
    requires
        d > 0,
    ensures
        tdiv(-n, d) == -tdiv(n, d),
{
    assert(iabs(-n) == iabs(n));
}

pub proof fn lemma_fx_mul_neg(a: int, b: int)
    ensures
        fx_mul_spec(-a, b) == -fx_mul_spec(a, b),
{
    assert(-a * b == -(a * b)) by (nonlinear_arith);
    lemma_tdiv_neg(a * b, FX_ONE as int);
}

pub proof fn lemma_dot_neg(a: Vec3, b: Vec3)
    requires
        vec_bounded(a, i64::MAX as int),
    ensures
        spec_dot(spec_neg(a), b) == -spec_dot(a, b),
{
    lemma_fx_mul_neg(a.x as int, b.x as int);
    lemma_fx_mul_neg(a.y as int, b.y as int);
    lemma_fx_mul_neg(a.z as int, b.z as int);
}

/// Each term of a vector's dot product with itself is nonnegative.
pub proof fn lemma_square_term_nonneg(x: int)
    ensures
        fx_mul_spec(x, x) >= 0,
        fx_mul_spec(x, x) == (x * x) / (FX_ONE as int),
{
    assert(x * x >= 0) by (nonlinear_arith);
    lemma_tdiv_nonneg(x * x, FX_ONE as int);
}

pub proof fn lemma_dot_self_nonneg(a: Vec3)
    ensures
        spec_dot(a, a) >= 0,
{
    lemma_square_term_nonneg(a.x as int);
    lemma_square_term_nonneg(a.y as int);
    lemma_square_term_nonneg(a.z as int);
}

/// A magnitude bound on a dot product from bounds on its arguments.
pub proof fn lemma_dot_bound(a: Vec3, b: Vec3, aa: int, bb: int)
    requires
        vec_bounded(a, aa),
        vec_bounded(b, bb),
    ensures
        iabs(spec_dot(a, b)) <= 3 * ((aa * bb) / (FX_ONE as int)),
{
    lemma_fx_mul_bound(a.x as int, b.x as int, aa, bb);
    lemma_fx_mul_bound(a.y as int, b.y as int, aa, bb);
    lemma_fx_mul_bound(a.z as int, b.z as int, aa, bb);
}

/// Overflow bound for one dot-product term of `DOT_MAX`-bounded vectors.
proof fn lemma_dot_term(a: int, b: int)
    requires
        iabs(a) <= DOT_MAX as int,
        iabs(b) <= DOT_MAX as int,
    ensures
        iabs(fx_mul_spec(a, b)) <= 0x1000_0000_0000_0000,
{
    lemma_fx_mul_bound(a, b, DOT_MAX as int, DOT_MAX as int);
}

/// The components of `a / sqrt(a . a)` stay below `UNIT_MAX` whenever the
/// squared length is at least one raw unit.
proof fn lemma_normalized_bound(x: int, lensq: int, len: int)
    requires
        1 <= lensq,
        fx_mul_spec(x, x) <= lensq,
        len == isqrt_spec(lensq * (FX_ONE as int)),
    ensures
        len >= 256,
        iabs(fx_div_spec(x, len)) <= UNIT_MAX as int,
{
    lemma_isqrt_spec(lensq * (FX_ONE as int));
    assert(is_isqrt(lensq * (FX_ONE as int), len));
    lemma_square_term_nonneg(x);
    // x * x <= lensq * 65536 + 65535
    lemma_fundamental_div_mod(x * x, FX_ONE as int);
    lemma_mod_bound(x * x, FX_ONE as int);
    assert(x * x <= lensq * (FX_ONE as int) + 65535);
    // len >= 256
    if len < 256 {
        assert((len + 1) * (len + 1) <= 65536) by (nonlinear_arith)
            requires
                0 <= len < 256,
        ;
        assert(lensq * (FX_ONE as int) >= 65536) by (nonlinear_arith)
            requires
                lensq >= 1,
        ;
        assert(false);
    }
    assert(iabs(x) <= len + 257) by (nonlinear_arith)
        requires
            len >= 256,
            x * x <= (len + 1) * (len + 1) + 65535,
    ;
    assert(iabs(x * (FX_ONE as int)) <= (len + 257) * (FX_ONE as int)) by (nonlinear_arith)
        requires
            iabs(x) <= len + 257,
    ;
    lemma_tdiv_abs_le(x * (FX_ONE as int), len, (len + 257) * (FX_ONE as int));
    assert(((len + 257) * (FX_ONE as int)) / len <= UNIT_MAX as int) by (nonlinear_arith)
        requires
            len >= 256,
    ;
}

impl Vec3 {
    pub fn zero() -> (r: Self)
        ensures
            r == (Vec3 { x: 0i64, y: 0i64, z: 0i64 }),
    {
        Vec3 { x: 0, y: 0, z: 0 }
    }

    pub fn one() -> (r: Self)
        ensures
            r == (Vec3 { x: FX_ONE, y: FX_ONE, z: FX_ONE }),
    {
        Vec3 { x: FX_ONE, y: FX_ONE, z: FX_ONE }
    }

    pub fn new(x: i64, y: i64, z: i64) -> (r: Self)
        ensures
            r == (Vec3 { x, y, z }),
    {
        Vec3 { x, y, z }
    }

    pub fn x(&self) -> (r: i64)
        ensures
            r == self.x,
    {
        self.x
    }

    pub fn y(&self) -> (r: i64)
        ensures
            r == self.y,
    {
        self.y
    }

    pub fn z(&self) -> (r: i64)
        ensures
            r == self.z,
    {
        self.z
    }

    pub fn r(&self) -> (r: i64)
        ensures
            r == self.x,
    {
        self.x
    }

    pub fn g(&self) -> (r: i64)
        ensures
            r == self.y,
    {
        self.y
    }

    pub fn b(&self) -> (r: i64)
        ensures
            r == self.z,
    {
        self.z
    }

    pub fn add(&self, o: &Vec3) -> (r: Vec3)
        requires
            vec_bounded(*self, 0x3fff_ffff_ffff_ffff),
            vec_bounded(*o, 0x3fff_ffff_ffff_ffff),
        ensures
            r == spec_add(*self, *o),
            r.x == self.x + o.x,
            r.y == self.y + o.y,
            r.z == self.z + o.z,
    {
        Vec3 { x: self.x + o.x, y: self.y + o.y, z: self.z + o.z }
    }

    pub fn sub(&self, o: &Vec3) -> (r: Vec3)
        requires
            vec_bounded(*self, 0x3fff_ffff_ffff_ffff),
            vec_bounded(*o, 0x3fff_ffff_ffff_ffff),
        ensures
            r == spec_sub(*self, *o),
            r.x == self.x - o.x,
            r.y == self.y - o.y,
            r.z == self.z - o.z,
    {
        Vec3 { x: self.x - o.x, y: self.y - o.y, z: self.z - o.z }
    }

    pub fn neg(&self) -> (r: Vec3)
        requires
            vec_bounded(*self, i64::MAX as int),
        ensures
            r == spec_neg(*self),
            r.x == -self.x,
            r.y == -self.y,
            r.z == -self.z,
    {
        Vec3 { x: -self.x, y: -self.y, z: -self.z }
    }

    /// Componentwise product (used for color attenuation).
    pub fn mul(&self, o: &Vec3) -> (r: Vec3)
        requires
            vec_bounded(*self, DOT_MAX as int),
            vec_bounded(*o, DOT_MAX as int),
        ensures
            r == spec_mul(*self, *o),
            r.x == fx_mul_spec(self.x as int, o.x as int),
            r.y == fx_mul_spec(self.y as int, o.y as int),
            r.z == fx_mul_spec(self.z as int, o.z as int),
    {
        proof {
            lemma_dot_term(self.x as int, o.x as int);
            lemma_dot_term(self.y as int, o.y as int);
            lemma_dot_term(self.z as int, o.z as int);
        }
        Vec3 {
            x: fx_mul(self.x, o.x),
            y: fx_mul(self.y, o.y),
            z: fx_mul(self.z, o.z),
        }
    }

    pub fn scale(&self, s: i64) -> (r: Vec3)
        requires
            vec_bounded(*self, DOT_MAX as int),
            iabs(s as int) <= DOT_MAX as int,
        ensures
            r == spec_scale(*self, s as int),
            r.x == fx_mul_spec(self.x as int, s as int),
            r.y == fx_mul_spec(self.y as int, s as int),
            r.z == fx_mul_spec(self.z as int, s as int),
    {
        proof {
            lemma_dot_term(self.x as int, s as int);
            lemma_dot_term(self.y as int, s as int);
            lemma_dot_term(self.z as int, s as int);
        }
        Vec3 {
            x: fx_mul(self.x, s),
            y: fx_mul(self.y, s),
            z: fx_mul(self.z, s),
        }
    }

    pub fn div_scalar(&self, s: i64) -> (r: Vec3)
        requires
            s != 0,
            vec_bounded(*self, DOT_MAX as int),
        ensures
            r == spec_div_scalar(*self, s as int),
            r.x == fx_div_spec(self.x as int, s as int),
            r.y == fx_div_spec(self.y as int, s as int),
            r.z == fx_div_spec(self.z as int, s as int),
    {
        proof {
            lemma_tdiv_abs_le((self.x as int) * (FX_ONE as int), s as int, (DOT_MAX as int) * (FX_ONE as int));
            lemma_tdiv_abs_le((self.y as int) * (FX_ONE as int), s as int, (DOT_MAX as int) * (FX_ONE as int));
            lemma_tdiv_abs_le((self.z as int) * (FX_ONE as int), s as int, (DOT_MAX as int) * (FX_ONE as int));
            assert(iabs((self.x as int) * (FX_ONE as int)) <= (DOT_MAX as int) * (FX_ONE as int)) by (nonlinear_arith)
                requires
                    iabs(self.x as int) <= DOT_MAX as int,
            ;
            assert(iabs((self.y as int) * (FX_ONE as int)) <= (DOT_MAX as int) * (FX_ONE as int)) by (nonlinear_arith)
                requires
                    iabs(self.y as int) <= DOT_MAX as int,
            ;
            assert(iabs((self.z as int) * (FX_ONE as int)) <= (DOT_MAX as int) * (FX_ONE as int)) by (nonlinear_arith)
                requires
                    iabs(self.z as int) <= DOT_MAX as int,
            ;
        }
        Vec3 {
            x: fx_div(self.x, s),
            y: fx_div(self.y, s),
            z: fx_div(self.z, s),
        }
    }

    pub fn dot(&self, o: &Vec3) -> (r: i64)
        requires
            vec_bounded(*self, DOT_MAX as int),
            vec_bounded(*o, DOT_MAX as int),
        ensures
            r == spec_dot(*self, *o),
    {
        proof {
            lemma_dot_term(self.x as int, o.x as int);
            lemma_dot_term(self.y as int, o.y as int);
            lemma_dot_term(self.z as int, o.z as int);
        }
        fx_mul(self.x, o.x) + fx_mul(self.y, o.y) + fx_mul(self.z, o.z)
    }

    pub fn cross(&self, o: &Vec3) -> (r: Vec3)
        requires
            vec_bounded(*self, DOT_MAX as int),
            vec_bounded(*o, DOT_MAX as int),
        ensures
            r == spec_cross(*self, *o),
    {
        proof {
            lemma_dot_term(self.y as int, o.z as int);
            lemma_dot_term(self.z as int, o.y as int);
            lemma_dot_term(self.z as int, o.x as int);
            lemma_dot_term(self.x as int, o.z as int);
            lemma_dot_term(self.x as int, o.y as int);
            lemma_dot_term(self.y as int, o.x as int);
        }
        Vec3 {
            x: fx_mul(self.y, o.z) - fx_mul(self.z, o.y),
            y: fx_mul(self.z, o.x) - fx_mul(self.x, o.z),
            z: fx_mul(self.x, o.y) - fx_mul(self.y, o.x),
        }
    }

    pub fn length_squared(&self) -> (r: i64)
        requires
            vec_bounded(*self, DOT_MAX as int),
        ensures
            r == spec_dot(*self, *self),
            r >= 0,
    {
        proof {
            lemma_dot_self_nonneg(*self);
        }
        self.dot(self)
    }

    pub fn length(&self) -> (r: i64)
        requires
            vec_bounded(*self, DOT_MAX as int),
        ensures
            r == fx_sqrt_spec(spec_dot(*self, *self)),
            r >= 0,
    {
        let sq: i64 = self.length_squared();
        fx_sqrt(sq)
    }

    pub fn normalized(&self) -> (r: Vec3)
        requires
            vec_bounded(*self, DOT_MAX as int),
            spec_dot(*self, *self) >= 1,
        ensures
            r == spec_normalized(*self),
            vec_bounded(r, UNIT_MAX as int),
    {
        let len: i64 = self.length();
        proof {
            let lensq = spec_dot(*self, *self);
            lemma_square_term_nonneg(self.x as int);
            lemma_square_term_nonneg(self.y as int);
            lemma_square_term_nonneg(self.z as int);
            lemma_normalized_bound(self.x as int, lensq, len as int);
            lemma_normalized_bound(self.y as int, lensq, len as int);
            lemma_normalized_bound(self.z as int, lensq, len as int);
        }
        self.div_scalar(len)
    }

    /// `a (1 - t) + b t` componentwise, for `t` in `[0, 1]`.
    pub fn lerp(a: Vec3, b: Vec3, t: i64) -> (r: Vec3)
        requires
            0 <= t <= FX_ONE,
            vec_bounded(a, DOT_MAX as int),
            vec_bounded(b, DOT_MAX as int),
        ensures
            r.x == fx_mul_spec(a.x as int, FX_ONE - t) + fx_mul_spec(b.x as int, t as int),
            r.y == fx_mul_spec(a.y as int, FX_ONE - t) + fx_mul_spec(b.y as int, t as int),
            r.z == fx_mul_spec(a.z as int, FX_ONE - t) + fx_mul_spec(b.z as int, t as int),
    {
        let u: i64 = FX_ONE - t;
        proof {
            lemma_dot_term(a.x as int, u as int);
            lemma_dot_term(a.y as int, u as int);
            lemma_dot_term(a.z as int, u as int);
            lemma_dot_term(b.x as int, t as int);
            lemma_dot_term(b.y as int, t as int);
            lemma_dot_term(b.z as int, t as int);
        }
        Vec3 {
            x: fx_mul(a.x, u) + fx_mul(b.x, t),
            y: fx_mul(a.y, u) + fx_mul(b.y, t),
            z: fx_mul(a.z, u) + fx_mul(b.z, t),
        }
    }

    /// In fixed point the degenerate-direction threshold is one raw unit:
    /// a vector is nearly zero exactly when it is zero.
    pub fn nearly_zero(&self) -> (r: bool)
        ensures
            r == (self.x == 0 && self.y == 0 && self.z == 0),
    {
        self.x == 0 && self.y == 0 && self.z == 0
    }

    pub fn reflect(vec: &Vec3, normal: &Vec3) -> (r: Vec3)
        requires
            vec_bounded(*vec, UNIT_MAX as int),
            vec_bounded(*normal, UNIT_MAX as int),
        ensures
            r == spec_reflect(*vec, *normal),
            vec_bounded(r, 0xA8_0000),
    {
        proof {
            lemma_dot_bound(*vec, *normal, UNIT_MAX as int, UNIT_MAX as int);
        }
        let d: i64 = 2 * vec.dot(normal);
        proof {
            lemma_fx_mul_bound(d as int, normal.x as int, 0x90000int * 6, UNIT_MAX as int);
            lemma_fx_mul_bound(d as int, normal.y as int, 0x90000int * 6, UNIT_MAX as int);
            lemma_fx_mul_bound(d as int, normal.z as int, 0x90000int * 6, UNIT_MAX as int);
        }
        Vec3 {
            x: vec.x - fx_mul(d, normal.x),
            y: vec.y - fx_mul(d, normal.y),
            z: vec.z - fx_mul(d, normal.z),
        }
    }

    /// Snell refraction of a unit-ish direction about a unit-ish normal.
    pub fn refract(uv: &Vec3, normal: &Vec3, etai_over_etat: i64) -> (r: Vec3)
        requires
            vec_bounded(*uv, UNIT_MAX as int),
            vec_bounded(*normal, UNIT_MAX as int),
            0 <= etai_over_etat <= 0x40000,
        ensures
            r == spec_refract(*uv, *normal, etai_over_etat as int),
            vec_bounded(r, 0x1000_0000),
    {
        proof {
            lemma_dot_bound(spec_neg(*uv), *normal, UNIT_MAX as int, UNIT_MAX as int);
        }
        let cos_theta: i64 = crate::fx::fx_min(uv.neg().dot(normal), FX_ONE);
        proof {
            lemma_fx_mul_bound(normal.x as int, cos_theta as int, UNIT_MAX as int, 27 * (FX_ONE as int));
            lemma_fx_mul_bound(normal.y as int, cos_theta as int, UNIT_MAX as int, 27 * (FX_ONE as int));
            lemma_fx_mul_bound(normal.z as int, cos_theta as int, UNIT_MAX as int, 27 * (FX_ONE as int));
        }
        let inner: Vec3 = uv.add(&normal.scale(cos_theta));
        proof {
            lemma_fx_mul_bound(inner.x as int, etai_over_etat as int, 84 * (FX_ONE as int), 0x40000);
            lemma_fx_mul_bound(inner.y as int, etai_over_etat as int, 84 * (FX_ONE as int), 0x40000);
            lemma_fx_mul_bound(inner.z as int, etai_over_etat as int, 84 * (FX_ONE as int), 0x40000);
        }
        let perp: Vec3 = inner.scale(etai_over_etat);
        proof {
            lemma_dot_bound(perp, perp, 336 * (FX_ONE as int), 336 * (FX_ONE as int));
        }
        let perp_lensq: i64 = perp.length_squared();
        let raw: i64 = FX_ONE - perp_lensq;
        let arg: i64 = if raw >= 0 {
            raw
        } else {
            -raw
        };
        let par_len: i64 = fx_sqrt(arg);
        proof {
            assert(par_len < 0x400_0000) by (nonlinear_arith)
                requires
                    par_len >= 0,
                    (par_len as int) * (par_len as int) <= (arg as int) * (FX_ONE as int),
                    arg <= 0x6_0000_0000,
            ;
            lemma_fx_mul_bound(normal.x as int, par_len as int, UNIT_MAX as int, 0x400_0000);
            lemma_fx_mul_bound(normal.y as int, par_len as int, UNIT_MAX as int, 0x400_0000);
            lemma_fx_mul_bound(normal.z as int, par_len as int, UNIT_MAX as int, 0x400_0000);
        }
        perp.sub(&normal.scale(par_len))
    }

    /// A vector with components drawn uniformly from `[min, max]`.
    pub fn random(rng: &mut rand::rngs::ThreadRng, min: i64, max: i64) -> (r: Vec3)
        requires
            min <= max,
        ensures
            min <= r.x <= max,
            min <= r.y <= max,
            min <= r.z <= max,
    {
        let x: i64 = rand_fx(rng, min, max);
        let y: i64 = rand_fx(rng, min, max);
        let z: i64 = rand_fx(rng, min, max);
        Vec3 { x, y, z }
    }

    /// Rejection-samples the unit cube until the point falls inside the unit
    /// ball; after a bounded number of tries it falls back to a fixed point
    /// of the ball (the draws make that all but impossible).
    pub fn random_in_unit_sphere(rng: &mut rand::rngs::ThreadRng) -> (r: Vec3)
        ensures
            vec_bounded(r, FX_ONE as int),
            spec_dot(r, r) < FX_ONE,
    {
        let mut tries: u32 = 0;
        while tries < 64
            invariant
                true,
            decreases 64 - tries,
        {
            let point: Vec3 = Self::random(rng, -FX_ONE, FX_ONE);
            if point.length_squared() < FX_ONE {
                return point;
            }
            tries = tries + 1;
        }
        let fallback: Vec3 = Vec3 { x: 32768, y: 0, z: 0 };
        proof {
            lemma_square_term_nonneg(32768);
        }
        fallback
    }

    /// A point of the unit ball, at least one raw unit from the origin.
    fn random_in_unit_ball_nonzero(rng: &mut rand::rngs::ThreadRng) -> (r: Vec3)
        ensures
            vec_bounded(r, FX_ONE as int),
            1 <= spec_dot(r, r) < FX_ONE,
    {
        let mut tries: u32 = 0;
        while tries < 64
            invariant
                true,
            decreases 64 - tries,
        {
            let point: Vec3 = Self::random(rng, -FX_ONE, FX_ONE);
            let lensq: i64 = point.length_squared();
            if 1 <= lensq && lensq < FX_ONE {
                return point;
            }
            tries = tries + 1;
        }
        let fallback: Vec3 = Vec3 { x: 32768, y: 0, z: 0 };
        proof {
            lemma_square_term_nonneg(32768);
        }
        fallback
    }

    /// A unit-length direction: a nonzero ball sample, normalized.
    pub fn random_unit(rng: &mut rand::rngs::ThreadRng) -> (r: Vec3)
        ensures
            vec_bounded(r, UNIT_MAX as int),
            exists|p: Vec3|
                {
                    &&& #[trigger] spec_normalized(p) == r
                    &&& vec_bounded(p, FX_ONE as int)
                    &&& 1 <= spec_dot(p, p) < FX_ONE
                },
    {
        let p: Vec3 = Self::random_in_unit_ball_nonzero(rng);
        let r: Vec3 = p.normalized();
        proof {
            assert(spec_normalized(p) == r);
        }
        r
    }

    /// A ball sample flipped, when needed, into the half space of `normal`.
    pub fn random_in_hemisphere(rng: &mut rand::rngs::ThreadRng, normal: &Vec3) -> (r: Vec3)
        requires
            vec_bounded(*normal, DOT_MAX as int),
        ensures
            vec_bounded(r, FX_ONE as int),
            spec_dot(r, *normal) >= 0,
    {
        let result: Vec3 = Self::random_in_unit_sphere(rng);
        if result.dot(normal) > 0 {
            result
        } else {
            proof {
                lemma_dot_neg(result, *normal);
            }
            result.neg()
        }
    }

    /// A point of the unit disk in the xy plane (lens sampling).
    pub fn random_in_unit_disk(rng: &mut rand::rngs::ThreadRng) -> (r: Vec3)
        ensures
            vec_bounded(r, FX_ONE as int),
            r.z == 0,
            spec_dot(r, r) < FX_ONE,
    {
        let mut tries: u32 = 0;
        while tries < 64
            invariant
                true,
            decreases 64 - tries,
        {
            let x: i64 = rand_fx(rng, -FX_ONE, FX_ONE);
            let y: i64 = rand_fx(rng, -FX_ONE, FX_ONE);
            let point: Vec3 = Vec3 { x, y, z: 0 };
            if point.length_squared() < FX_ONE {
                return point;
            }
            tries = tries + 1;
        }
        let fallback: Vec3 = Vec3 { x: 32768, y: 0, z: 0 };
        proof {
            lemma_square_term_nonneg(32768);
        }
        fallback
    }

    /// The display form of one color channel: `floor(255.999 * clamp(v, 0, 0.999))`.
    pub fn channel_8bit(v: i64) -> (r: u8)
        ensures
            r as int == tdiv(tdiv(fx_clamp_spec(v as int) * 16777150, FX_ONE as int), FX_ONE as int),
    {
        let c: i64 = fx_clamp(v, 0, 65470);
        proof {
            lemma_tdiv_nonneg((c as int) * 16777150, FX_ONE as int);
            lemma_tdiv_abs_le((c as int) * 16777150, FX_ONE as int, 65470int * 16777150);
            assert(iabs((c as int) * 16777150) <= 65470 * 16777150) by (nonlinear_arith)
                requires
                    0 <= c <= 65470,
            ;
        }
        let m: i64 = fx_mul(c, 16777150);
        proof {
            lemma_tdiv_nonneg(m as int, FX_ONE as int);
            lemma_tdiv_abs_le(m as int, FX_ONE as int, 65470int * 16777150 / 65536);
        }
        let q: u64 = (m as u64) / 65536;
        q as u8
    }

    /// The three display channels of a color.
    pub fn rgb8(&self) -> (r: (u8, u8, u8))
        ensures
            r.0 as int == tdiv(tdiv(fx_clamp_spec(self.x as int) * 16777150, FX_ONE as int), FX_ONE as int),
            r.1 as int == tdiv(tdiv(fx_clamp_spec(self.y as int) * 16777150, FX_ONE as int), FX_ONE as int),
            r.2 as int == tdiv(tdiv(fx_clamp_spec(self.z as int) * 16777150, FX_ONE as int), FX_ONE as int),
    {
        (
            Self::channel_8bit(self.x),
            Self::channel_8bit(self.y),
            Self::channel_8bit(self.z),
        )
    }
}

/// A color with every channel in `[0, 1]`.
pub open spec fn color_unit(c: Color) -> bool {
    &&& 0 <= c.x <= FX_ONE
    &&& 0 <= c.y <= FX_ONE
    &&& 0 <= c.z <= FX_ONE
}

/// Clamp to the displayable range `[0, 0.999]`.
pub open spec fn fx_clamp_spec(v: int) -> int {
    if v < 0 {
        0
    } else if v > 65470 {
        65470
    } else {
        v
    }
}

} // verus!
