//! Perlin-style gradient noise.
//!
//! Construction draws 256 unit gradients and three independent
//! permutations of `0..255`; evaluation hashes the lattice cell through
//! the permutations (XOR of the three table entries) and interpolates the
//! eight corner gradients with the Hermite cubic `3t^2 - 2t^3`.

use crate::fx::{
    emod256, fx_clamp, fx_floor, fx_fract, fx_mul, fx_mul_spec, iabs, lemma_fx_mul_bound,
    lemma_tdiv_nonneg, FX_ONE,
};
use crate::rng::rand_index;
use crate::vec3::{
    color_unit, lemma_dot_bound, spec_dot, v3, vec_bounded, Color, Point3, Vec3, UNIT_MAX,
};
use vstd::arithmetic::div_mod::lemma_div_is_ordered;
use vstd::prelude::*;

verus! {

pub struct Perlin {
    pub random: Vec<Vec3>,
    pub perm_x: Vec<u8>,
    pub perm_y: Vec<u8>,
    pub perm_z: Vec<u8>,
}

pub struct Noise {
    pub scale: i64,
    pub perlin: Perlin,
}

/// Every value below 256 appears exactly once: no duplicates and none
/// missing.
pub open spec fn contains_value(s: Seq<u8>, v: int) -> bool {
    exists|i: int| 0 <= i < 256 && #[trigger] s[i] == v
}

pub open spec fn is_permutation(s: Seq<u8>) -> bool {
    &&& s.len() == 256
    &&& forall|i: int, j: int| 0 <= i < j < 256 ==> s[i] != s[j]
    &&& forall|v: int| 0 <= v < 256 ==> #[trigger] contains_value(s, v)
}

pub open spec fn perlin_wf(p: Perlin) -> bool {
    &&& p.random@.len() == 256
    &&& forall|i: int| 0 <= i < 256 ==> vec_bounded(#[trigger] p.random@[i], UNIT_MAX as int)
    &&& is_permutation(p.perm_x@)
    &&& is_permutation(p.perm_y@)
    &&& is_permutation(p.perm_z@)
}

/// The Hermite fade `t^2 (3 - 2 t)` of a fractional coordinate.
pub open spec fn spec_hermite(u: int) -> int {
    fx_mul_spec(fx_mul_spec(u, u), 3 * (FX_ONE as int) - 2 * u)
}

/// The gradient selected for one corner of the lattice cell.
pub open spec fn spec_corner(p: Perlin, i: int, j: int, k: int) -> Vec3 {
    p.random@[(p.perm_x@[i % 256] ^ p.perm_y@[j % 256] ^ p.perm_z@[k % 256]) as int]
}

/// One corner's contribution: the faded weights times the gradient's dot
/// product with the offset from the corner.
pub open spec fn spec_term(
    g: Vec3,
    u: int,
    v: int,
    w: int,
    uu: int,
    vv: int,
    ww: int,
    di: int,
    dj: int,
    dk: int,
) -> int {
    let fu = if di == 1 {
        uu
    } else {
        (FX_ONE as int) - uu
    };
    let fv = if dj == 1 {
        vv
    } else {
        (FX_ONE as int) - vv
    };
    let fw = if dk == 1 {
        ww
    } else {
        (FX_ONE as int) - ww
    };
    fx_mul_spec(
        fx_mul_spec(fx_mul_spec(fu, fv), fw),
        spec_dot(g, v3(u - di * (FX_ONE as int), v - dj * (FX_ONE as int), w - dk * (FX_ONE as int))),
    )
}

/// The raw noise of a (scaled) point.
pub open spec fn spec_perlin_noise(p: Perlin, pt: Point3) -> int {
    let i = (pt.x as int) / (FX_ONE as int);
    let j = (pt.y as int) / (FX_ONE as int);
    let k = (pt.z as int) / (FX_ONE as int);
    let u = (pt.x as int) - i * (FX_ONE as int);
    let v = (pt.y as int) - j * (FX_ONE as int);
    let w = (pt.z as int) - k * (FX_ONE as int);
    let uu = spec_hermite(u);
    let vv = spec_hermite(v);
    let ww = spec_hermite(w);
    spec_term(spec_corner(p, i, j, k), u, v, w, uu, vv, ww, 0, 0, 0) + spec_term(
        spec_corner(p, i, j, k + 1),
        u,
        v,
        w,
        uu,
        vv,
        ww,
        0,
        0,
        1,
    ) + spec_term(spec_corner(p, i, j + 1, k), u, v, w, uu, vv, ww, 0, 1, 0) + spec_term(
        spec_corner(p, i, j + 1, k + 1),
        u,
        v,
        w,
        uu,
        vv,
        ww,
        0,
        1,
        1,
    ) + spec_term(spec_corner(p, i + 1, j, k), u, v, w, uu, vv, ww, 1, 0, 0) + spec_term(
        spec_corner(p, i + 1, j, k + 1),
        u,
        v,
        w,
        uu,
        vv,
        ww,
        1,
        0,
        1,
    ) + spec_term(spec_corner(p, i + 1, j + 1, k), u, v, w, uu, vv, ww, 1, 1, 0) + spec_term(
        spec_corner(p, i + 1, j + 1, k + 1),
        u,
        v,
        w,
        uu,
        vv,
        ww,
        1,
        1,
        1,
    )
}

/// The texture color: `(1 + noise) / 2` at the scaled point, clamped to
/// the unit range (the raw trilinear sum can leave it, since gradients
/// reach every direction).
pub open spec fn spec_noise_value(n: Noise, p: Point3) -> Color {
    let scaled = v3(
        fx_mul_spec(n.scale as int, p.x as int),
        fx_mul_spec(n.scale as int, p.y as int),
        fx_mul_spec(n.scale as int, p.z as int),
    );
    let raw = spec_perlin_noise(n.perlin, scaled);
    let half = fx_mul_spec((FX_ONE as int) + raw, 32768);
    let c = if half < 0 {
        0
    } else if half > FX_ONE as int {
        FX_ONE as int
    } else {
        half
    };
    Vec3 { x: c as i64, y: c as i64, z: c as i64 }
}

/// A Hermite fade of a fractional coordinate stays in `[0, 1]`.
proof fn lemma_hermite_range(u: int)
    requires
        0 <= u < FX_ONE,
    ensures
        0 <= spec_hermite(u) <= FX_ONE,
{
    let sq = fx_mul_spec(u, u);
    crate::vec3::lemma_square_term_nonneg(u);
    assert(u * u <= u * (FX_ONE as int)) by (nonlinear_arith)
        requires
            0 <= u < FX_ONE,
    ;
    lemma_div_is_ordered(u * u, u * (FX_ONE as int), FX_ONE as int);
    vstd::arithmetic::div_mod::lemma_div_by_multiple(u, FX_ONE as int);
    assert(u * (FX_ONE as int) == (FX_ONE as int) * u) by (nonlinear_arith);
    assert(sq <= u);
    lemma_tdiv_nonneg(sq * (3 * (FX_ONE as int) - 2 * u), FX_ONE as int);
    vstd::arithmetic::div_mod::lemma_fundamental_div_mod(u * u, FX_ONE as int);
    vstd::arithmetic::div_mod::lemma_mod_bound(u * u, FX_ONE as int);
    assert((FX_ONE as int) * sq <= u * u);
    assert(u * u * (3 * (FX_ONE as int) - 2 * u) <= (FX_ONE as int) * (FX_ONE as int) * (
    FX_ONE as int)) by (nonlinear_arith)
        requires
            0 <= u < FX_ONE,
    ;
    assert(sq * (3 * (FX_ONE as int) - 2 * u) * (FX_ONE as int) <= u * u * (3 * (FX_ONE as int) - 2
        * u)) by (nonlinear_arith)
        requires
            (FX_ONE as int) * sq <= u * u,
            0 <= u < FX_ONE,
            sq >= 0,
    ;
    assert(sq * (3 * (FX_ONE as int) - 2 * u) <= (FX_ONE as int) * (FX_ONE as int)) by (nonlinear_arith)
        requires
            sq * (3 * (FX_ONE as int) - 2 * u) * (FX_ONE as int) <= (FX_ONE as int) * (
            FX_ONE as int) * (FX_ONE as int),
    ;
    lemma_div_is_ordered(
        sq * (3 * (FX_ONE as int) - 2 * u),
        (FX_ONE as int) * (FX_ONE as int),
        FX_ONE as int,
    );
    assert(((FX_ONE as int) * (FX_ONE as int)) / (FX_ONE as int) == FX_ONE as int) by (nonlinear_arith);
}

/// One corner term is bounded by nine units.
proof fn lemma_term_bound(
    g: Vec3,
    u: int,
    v: int,
    w: int,
    uu: int,
    vv: int,
    ww: int,
    di: int,
    dj: int,
    dk: int,
)
    requires
        vec_bounded(g, UNIT_MAX as int),
        0 <= u < FX_ONE,
        0 <= v < FX_ONE,
        0 <= w < FX_ONE,
        0 <= uu <= FX_ONE,
        0 <= vv <= FX_ONE,
        0 <= ww <= FX_ONE,
        di == 0 || di == 1,
        dj == 0 || dj == 1,
        dk == 0 || dk == 1,
    ensures
        iabs(spec_term(g, u, v, w, uu, vv, ww, di, dj, dk)) <= 9 * (FX_ONE as int),
{
    let fu = if di == 1 {
        uu
    } else {
        (FX_ONE as int) - uu
    };
    let fv = if dj == 1 {
        vv
    } else {
        (FX_ONE as int) - vv
    };
    let fw = if dk == 1 {
        ww
    } else {
        (FX_ONE as int) - ww
    };
    crate::fx::lemma_fx_mul_unit(fu, fv);
    crate::fx::lemma_fx_mul_unit(fx_mul_spec(fu, fv), fw);
    let wv = v3(u - di * (FX_ONE as int), v - dj * (FX_ONE as int), w - dk * (FX_ONE as int));
    lemma_dot_bound(g, wv, UNIT_MAX as int, FX_ONE as int);
    lemma_fx_mul_bound(
        fx_mul_spec(fx_mul_spec(fu, fv), fw),
        spec_dot(g, wv),
        FX_ONE as int,
        9 * (FX_ONE as int),
    );
}

impl Perlin {
    /// Fresh gradients and permutations from the random source.
    pub fn new(rng: &mut rand::rngs::ThreadRng) -> (r: Self)
        ensures
            perlin_wf(r),
    {
        let mut random: Vec<Vec3> = Vec::new();
        let mut i: usize = 0;
        while i < 256
            invariant
                random@.len() == i as int,
                i <= 256,
                forall|j: int| 0 <= j < i ==> vec_bounded(#[trigger] random@[j], UNIT_MAX as int),
            decreases 256 - i,
        {
            let g: Vec3 = Vec3::random_unit(rng);
            random.push(g);
            i = i + 1;
        }
        Perlin {
            random,
            perm_x: Self::perlin_generate_perm(rng),
            perm_y: Self::perlin_generate_perm(rng),
            perm_z: Self::perlin_generate_perm(rng),
        }
    }

    /// A uniformly shuffled permutation table: always a permutation of
    /// `0..255`, whatever the random source returns.
    pub fn perlin_generate_perm(rng: &mut rand::rngs::ThreadRng) -> (r: Vec<u8>)
        ensures
            is_permutation(r@),
    {
        let mut p: Vec<u8> = Vec::new();
        let mut i: usize = 0;
        while i < 256
            invariant
                p@.len() == i as int,
                i <= 256,
                forall|j: int| 0 <= j < i ==> #[trigger] p@[j] == j,
            decreases 256 - i,
        {
            p.push(i as u8);
            i = i + 1;
        }
        proof {
            assert forall|v: int| 0 <= v < 256 implies #[trigger] contains_value(p@, v) by {
                assert(p@[v] == v);
            }
        }
        Self::permute(rng, &mut p);
        p
    }

    /// A downward Fisher-Yates shuffle: each position from the top down
    /// is exchanged with a uniformly drawn position at or below it.  A
    /// swap never adds or removes a value, so the permutation property
    /// is an invariant.
    fn permute(rng: &mut rand::rngs::ThreadRng, p: &mut Vec<u8>)
        requires
            is_permutation(old(p)@),
        ensures
            is_permutation(final(p)@),
    {
        let mut i: usize = 255;
        while i >= 1
            invariant
                i <= 255,
                p@.len() == 256,
                is_permutation(p@),
            decreases i,
        {
            let target: usize = rand_index(rng, i + 1);
            let a: u8 = p[i];
            let b: u8 = p[target];
            let ghost before = p@;
            p[i] = b;
            p[target] = a;
            proof {
                lemma_swap_permutation(before, p@, i as int, target as int);
            }
            i = i - 1;
        }
    }

    /// The raw noise of a point (already scaled by the caller).
    #[verifier::rlimit(80)]
    pub fn noise(&self, point: &Point3) -> (r: i64)
        requires
            perlin_wf(*self),
            vec_bounded(*point, 0x1000_0000_0000),
        ensures
            r == spec_perlin_noise(*self, *point),
            iabs(r as int) <= 72 * (FX_ONE as int),
    {
        let i: i64 = fx_floor(point.x);
        let j: i64 = fx_floor(point.y);
        let k: i64 = fx_floor(point.z);
        let u: i64 = fx_fract(point.x);
        let v: i64 = fx_fract(point.y);
        let w: i64 = fx_fract(point.z);
        let uu: i64 = Self::hermite(u);
        let vv: i64 = Self::hermite(v);
        let ww: i64 = Self::hermite(w);
        let t000: i64 = self.term(i, j, k, u, v, w, uu, vv, ww, 0, 0, 0);
        let t001: i64 = self.term(i, j, k + 1, u, v, w, uu, vv, ww, 0, 0, 1);
        let t010: i64 = self.term(i, j + 1, k, u, v, w, uu, vv, ww, 0, 1, 0);
        let t011: i64 = self.term(i, j + 1, k + 1, u, v, w, uu, vv, ww, 0, 1, 1);
        let t100: i64 = self.term(i + 1, j, k, u, v, w, uu, vv, ww, 1, 0, 0);
        let t101: i64 = self.term(i + 1, j, k + 1, u, v, w, uu, vv, ww, 1, 0, 1);
        let t110: i64 = self.term(i + 1, j + 1, k, u, v, w, uu, vv, ww, 1, 1, 0);
        let t111: i64 = self.term(i + 1, j + 1, k + 1, u, v, w, uu, vv, ww, 1, 1, 1);
        t000 + t001 + t010 + t011 + t100 + t101 + t110 + t111
    }

    /// The Hermite fade, executable.
    fn hermite(u: i64) -> (r: i64)
        requires
            0 <= u < FX_ONE,
        ensures
            r == spec_hermite(u as int),
            0 <= r <= FX_ONE,
    {
        proof {
            lemma_hermite_range(u as int);
            crate::vec3::lemma_square_term_nonneg(u as int);
            lemma_fx_mul_bound(u as int, u as int, FX_ONE as int, FX_ONE as int);
            lemma_fx_mul_bound(
                fx_mul_spec(u as int, u as int),
                3 * (FX_ONE as int) - 2 * (u as int),
                FX_ONE as int,
                3 * (FX_ONE as int),
            );
        }
        let sq: i64 = fx_mul(u, u);
        fx_mul(sq, 3 * FX_ONE - 2 * u)
    }

    /// One corner's contribution, executable.
    #[verifier::rlimit(30)]
    fn term(
        &self,
        ci: i64,
        cj: i64,
        ck: i64,
        u: i64,
        v: i64,
        w: i64,
        uu: i64,
        vv: i64,
        ww: i64,
        di: i64,
        dj: i64,
        dk: i64,
    ) -> (r: i64)
        requires
            perlin_wf(*self),
            ci > i64::MIN,
            cj > i64::MIN,
            ck > i64::MIN,
            0 <= u < FX_ONE,
            0 <= v < FX_ONE,
            0 <= w < FX_ONE,
            0 <= uu <= FX_ONE,
            0 <= vv <= FX_ONE,
            0 <= ww <= FX_ONE,
            di == 0 || di == 1,
            dj == 0 || dj == 1,
            dk == 0 || dk == 1,
        ensures
            r == spec_term(
                spec_corner(*self, ci as int, cj as int, ck as int),
                u as int,
                v as int,
                w as int,
                uu as int,
                vv as int,
                ww as int,
                di as int,
                dj as int,
                dk as int,
            ),
            iabs(r as int) <= 9 * (FX_ONE as int),
    {
        let qi: usize = emod256(ci);
        let qj: usize = emod256(cj);
        let qk: usize = emod256(ck);
        let hx: u8 = self.perm_x[qi];
        let hy: u8 = self.perm_y[qj];
        let hz: u8 = self.perm_z[qk];
        let g: Vec3 = self.random[((hx ^ hy) ^ hz) as usize];
        let fu: i64 = if di == 1 {
            uu
        } else {
            FX_ONE - uu
        };
        let fv: i64 = if dj == 1 {
            vv
        } else {
            FX_ONE - vv
        };
        let fw: i64 = if dk == 1 {
            ww
        } else {
            FX_ONE - ww
        };
        let weight: Vec3 = Vec3 {
            x: u - di * FX_ONE,
            y: v - dj * FX_ONE,
            z: w - dk * FX_ONE,
        };
        proof {
            crate::fx::lemma_fx_mul_unit(fu as int, fv as int);
            crate::fx::lemma_fx_mul_unit(fx_mul_spec(fu as int, fv as int), fw as int);
            lemma_dot_bound(g, weight, UNIT_MAX as int, FX_ONE as int);
            lemma_fx_mul_bound(
                fx_mul_spec(fx_mul_spec(fu as int, fv as int), fw as int),
                spec_dot(g, weight),
                FX_ONE as int,
                9 * (FX_ONE as int),
            );
            lemma_term_bound(
                g,
                u as int,
                v as int,
                w as int,
                uu as int,
                vv as int,
                ww as int,
                di as int,
                dj as int,
                dk as int,
            );
        }
        let faded: i64 = fx_mul(fx_mul(fu, fv), fw);
        let d: i64 = g.dot(&weight);
        fx_mul(faded, d)
    }
}

/// Exchanging two entries preserves the permutation property.
proof fn lemma_swap_permutation(before: Seq<u8>, after: Seq<u8>, i: int, j: int)
    requires
        is_permutation(before),
        0 <= i < 256,
        0 <= j < 256,
        after.len() == 256,
        after[i] == before[j],
        after[j] == before[i],
        forall|k: int| 0 <= k < 256 && k != i && k != j ==> after[k] == before[k],
    ensures
        is_permutation(after),
{
    assert forall|a: int, b: int| 0 <= a < b < 256 implies after[a] != after[b] by {
        let pa = if a == i {
            j
        } else if a == j {
            i
        } else {
            a
        };
        let pb = if b == i {
            j
        } else if b == j {
            i
        } else {
            b
        };
        assert(after[a] == before[pa] && after[b] == before[pb]);
        if pa < pb {
            assert(before[pa] != before[pb]);
        } else if pb < pa {
            assert(before[pb] != before[pa]);
        }
    }
    assert forall|v: int| 0 <= v < 256 implies #[trigger] contains_value(after, v) by {
        assert(contains_value(before, v));
        let k0 = choose|k0: int| 0 <= k0 < 256 && #[trigger] before[k0] == v;
        if k0 == i {
            assert(after[j] == v);
        } else if k0 == j {
            assert(after[i] == v);
        } else {
            assert(after[k0] == v);
        }
    }
}

/// The noise texture color at a point.
pub fn noise_value(n: &Noise, p: &Point3) -> (r: Color)
    requires
        1 <= n.scale <= 0x40_0000,
        perlin_wf(n.perlin),
        vec_bounded(*p, 0x40_0000_0000),
    ensures
        r == spec_noise_value(*n, *p),
        color_unit(r),
{
    proof {
        lemma_fx_mul_bound(n.scale as int, p.x as int, 0x40_0000, 0x40_0000_0000);
        lemma_fx_mul_bound(n.scale as int, p.y as int, 0x40_0000, 0x40_0000_0000);
        lemma_fx_mul_bound(n.scale as int, p.z as int, 0x40_0000, 0x40_0000_0000);
    }
    let scaled: Vec3 = Vec3 {
        x: fx_mul(n.scale, p.x),
        y: fx_mul(n.scale, p.y),
        z: fx_mul(n.scale, p.z),
    };
    let raw: i64 = n.perlin.noise(&scaled);
    proof {
        lemma_fx_mul_bound((FX_ONE as int) + raw, 32768, 80 * (FX_ONE as int), 32768);
    }
    let half: i64 = fx_mul(FX_ONE + raw, 32768);
    let c: i64 = fx_clamp(half, 0, FX_ONE);
    Vec3 { x: c, y: c, z: c }
}

impl Noise {
    pub fn new(rng: &mut rand::rngs::ThreadRng, scale: i64) -> (r: Self)
        requires
            1 <= scale <= 0x40_0000,
        ensures
            r.scale == scale,
            perlin_wf(r.perlin),
    {
        Noise { scale, perlin: Perlin::new(rng) }
    }
}

} // verus!
