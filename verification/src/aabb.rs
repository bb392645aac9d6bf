//! Axis-aligned bounding box with an exact slab test.
//!
//! The textbook slab method divides by the ray direction and leans on
//! floating-point infinities.  Here the test is carried out on rationals:
//! a candidate parameter `t = p / q` enters the box when, on every axis,
//! `min < origin + t * direction < max`; cross-multiplying by the positive
//! denominators turns each comparison into exact integer arithmetic.
//! `hit` returns true exactly when such a rational parameter exists
//! strictly inside the queried window — the positive-length-interval
//! semantics of the slab method.

use crate::fx::{iabs, FX_ONE, WORLD_MAX};
use crate::ray::Ray;
use crate::vec3::{vec_bounded, Point3, Vec3};
use vstd::prelude::*;

verus! {

#[derive(Clone, Copy, Debug, PartialEq, Eq, Structural)]
pub struct Aabb {
    pub min: Point3,
    pub max: Point3,
}

pub open spec fn aabb_bounded(b: Aabb, w: int) -> bool {
    &&& vec_bounded(b.min, w)
    &&& vec_bounded(b.max, w)
}

/// `a/b < c/d` for positive denominators, cross-multiplied.
pub open spec fn frac_lt_spec(an: int, ad: int, bn: int, bd: int) -> bool {
    an * bd < bn * ad
}

/// The ray coordinate `origin + (p/q) * direction` lies strictly between
/// `mn` and `mx` (all terms multiplied by `q > 0`).
pub open spec fn axis_ok(o: int, d: int, mn: int, mx: int, p: int, q: int) -> bool {
    &&& mn * q < o * q + p * d
    &&& o * q + p * d < mx * q
}

/// `p/q` lies strictly inside the window `(ln/ld, hn/hd)`.
pub open spec fn in_window(ln: int, ld: int, hn: int, hd: int, p: int, q: int) -> bool {
    &&& ln * q < p * ld
    &&& p * hd < hn * q
}

/// A rational ray parameter strictly inside the time window and, on every
/// axis, strictly inside the slab.
pub open spec fn hit_witness(b: Aabb, ray: Ray, t0: int, t1: int, p: int, q: int) -> bool {
    &&& q > 0
    &&& in_window(t0, FX_ONE as int, t1, FX_ONE as int, p, q)
    &&& axis_ok(ray.origin.x as int, ray.direction.x as int, b.min.x as int, b.max.x as int, p, q)
    &&& axis_ok(ray.origin.y as int, ray.direction.y as int, b.min.y as int, b.max.y as int, p, q)
    &&& axis_ok(ray.origin.z as int, ray.direction.z as int, b.min.z as int, b.max.z as int, p, q)
}

/// What the slab test decides: some parameter strictly inside everything.
pub open spec fn aabb_hit_spec(b: Aabb, ray: Ray, t0: int, t1: int) -> bool {
    exists|p: int, q: int| #[trigger] hit_witness(b, ray, t0, t1, p, q)
}

/// Chaining two strict rational comparisons.
proof fn lemma_frac_trans_ss(an: int, ad: int, bn: int, bd: int, cn: int, cd: int)
    by (nonlinear_arith)
    requires
        ad > 0,
        bd > 0,
        cd > 0,
        an * bd < bn * ad,
        bn * cd < cn * bd,
    ensures
        an * cd < cn * ad,
{
}

/// Chaining a non-strict and a strict rational comparison.
proof fn lemma_frac_trans_ls(an: int, ad: int, bn: int, bd: int, cn: int, cd: int)
    by (nonlinear_arith)
    requires
        ad > 0,
        bd > 0,
        cd > 0,
        an * bd <= bn * ad,
        bn * cd < cn * bd,
    ensures
        an * cd < cn * ad,
{
}

/// Chaining a strict and a non-strict rational comparison.
proof fn lemma_frac_trans_sl(an: int, ad: int, bn: int, bd: int, cn: int, cd: int)
    by (nonlinear_arith)
    requires
        ad > 0,
        bd > 0,
        cd > 0,
        an * bd < bn * ad,
        bn * cd <= cn * bd,
    ensures
        an * cd < cn * ad,
{
}

/// A nonempty open window holds its midpoint.
proof fn lemma_window_witness(ln: int, ld: int, hn: int, hd: int)
    requires
        ld > 0,
        hd > 0,
        frac_lt_spec(ln, ld, hn, hd),
    ensures
        exists|p: int, q: int| q > 0 && #[trigger] in_window(ln, ld, hn, hd, p, q),
{
    let p = ln * hd + hn * ld;
    let q = 2 * ld * hd;
    assert(q > 0 && in_window(ln, ld, hn, hd, p, q)) by (nonlinear_arith)
        requires
            ld > 0,
            hd > 0,
            ln * hd < hn * ld,
            p == ln * hd + hn * ld,
            q == 2 * ld * hd,
    ;
}

/// Exact comparison of two rationals with positive denominators.
fn frac_lt(an: i64, ad: i64, bn: i64, bd: i64) -> (r: bool)
    requires
        ad > 0,
        bd > 0,
    ensures
        r == frac_lt_spec(an as int, ad as int, bn as int, bd as int),
{
    proof {
        assert(-0x4000_0000_0000_0000_0000_0000_0000_0000 <= (an as int) * (bd as int)
            <= 0x4000_0000_0000_0000_0000_0000_0000_0000) by (nonlinear_arith)
            requires
                -0x8000_0000_0000_0000 <= an <= 0x7fff_ffff_ffff_ffff,
                -0x8000_0000_0000_0000 <= bd <= 0x7fff_ffff_ffff_ffff,
        ;
        assert(-0x4000_0000_0000_0000_0000_0000_0000_0000 <= (bn as int) * (ad as int)
            <= 0x4000_0000_0000_0000_0000_0000_0000_0000) by (nonlinear_arith)
            requires
                -0x8000_0000_0000_0000 <= bn <= 0x7fff_ffff_ffff_ffff,
                -0x8000_0000_0000_0000 <= ad <= 0x7fff_ffff_ffff_ffff,
        ;
    }
    (an as i128) * (bd as i128) < (bn as i128) * (ad as i128)
}

/// Intersect the running window with one axis's slab; the boolean says
/// whether the window is still nonempty.
#[verifier::rlimit(30)]
fn axis_clip(o: i64, d: i64, mn: i64, mx: i64, ln: i64, ld: i64, hn: i64, hd: i64) -> (r: (
    i64,
    i64,
    i64,
    i64,
    bool,
))
    requires
        ld > 0,
        hd > 0,
        iabs(o as int) <= WORLD_MAX as int,
        iabs(d as int) <= WORLD_MAX as int,
        iabs(mn as int) <= WORLD_MAX as int,
        iabs(mx as int) <= WORLD_MAX as int,
    ensures
        r.4 ==> r.1 > 0 && r.3 > 0,
        r.4 ==> frac_lt_spec(r.0 as int, r.1 as int, r.2 as int, r.3 as int),
        r.4 ==> forall|p: int, q: int|
            #![trigger in_window(r.0 as int, r.1 as int, r.2 as int, r.3 as int, p, q)]
            #![trigger in_window(ln as int, ld as int, hn as int, hd as int, p, q)]
            q > 0 ==> (in_window(r.0 as int, r.1 as int, r.2 as int, r.3 as int, p, q) <==> (
            in_window(ln as int, ld as int, hn as int, hd as int, p, q) && axis_ok(
                o as int,
                d as int,
                mn as int,
                mx as int,
                p,
                q,
            ))),
        !r.4 ==> forall|p: int, q: int|
            q > 0 && #[trigger] in_window(ln as int, ld as int, hn as int, hd as int, p, q)
                ==> !axis_ok(o as int, d as int, mn as int, mx as int, p, q),
{
    if d == 0 {
        let inside: bool = mn < o && o < mx;
        let nonempty: bool = frac_lt(ln, ld, hn, hd);
        let ok: bool = inside && nonempty;
        proof {
            if ok {
                assert forall|p: int, q: int| q > 0 implies (in_window(
                    ln as int,
                    ld as int,
                    hn as int,
                    hd as int,
                    p,
                    q,
                ) <==> (in_window(ln as int, ld as int, hn as int, hd as int, p, q) && axis_ok(
                    o as int,
                    d as int,
                    mn as int,
                    mx as int,
                    p,
                    q,
                ))) by {
                    assert((mn as int) * q < (o as int) * q && (o as int) * q < (mx as int) * q)
                        by (nonlinear_arith)
                        requires
                            q > 0,
                            mn < o < mx,
                    ;
                }
            } else if !inside {
                assert forall|p: int, q: int|
                    q > 0 && #[trigger] in_window(
                        ln as int,
                        ld as int,
                        hn as int,
                        hd as int,
                        p,
                        q,
                    ) implies !axis_ok(o as int, d as int, mn as int, mx as int, p, q) by {
                    assert((o <= mn ==> (o as int) * q <= (mn as int) * q) && (o >= mx ==> (
                    o as int) * q >= (mx as int) * q)) by (nonlinear_arith)
                        requires
                            q > 0,
                    ;
                }
            } else {
                assert forall|p: int, q: int|
                    q > 0 && #[trigger] in_window(
                        ln as int,
                        ld as int,
                        hn as int,
                        hd as int,
                        p,
                        q,
                    ) implies !axis_ok(o as int, d as int, mn as int, mx as int, p, q) by {
                    lemma_frac_trans_ss(ln as int, ld as int, p, q, hn as int, hd as int);
                }
            }
        }
        (ln, ld, hn, hd, ok)
    } else {
        let aln: i64 = if d > 0 {
            mn - o
        } else {
            o - mx
        };
        let ahn: i64 = if d > 0 {
            mx - o
        } else {
            o - mn
        };
        let ad: i64 = if d > 0 {
            d
        } else {
            -d
        };
        proof {
            assert forall|p: int, q: int| q > 0 implies (axis_ok(
                o as int,
                d as int,
                mn as int,
                mx as int,
                p,
                q,
            ) <==> ((aln as int) * q < p * (ad as int) && p * (ad as int) < (ahn as int) * q)) by {
                assert(((mn - o) as int) * q == (mn as int) * q - (o as int) * q && ((mx - o) as int)
                    * q == (mx as int) * q - (o as int) * q && ((o - mx) as int) * q == (o as int)
                    * q - (mx as int) * q && ((o - mn) as int) * q == (o as int) * q - (mn as int)
                    * q && p * (-d as int) == -(p * (d as int))) by (nonlinear_arith);
            }
        }
        let take_al: bool = frac_lt(ln, ld, aln, ad);
        let nln: i64 = if take_al {
            aln
        } else {
            ln
        };
        let nld: i64 = if take_al {
            ad
        } else {
            ld
        };
        let take_ah: bool = frac_lt(ahn, ad, hn, hd);
        let nhn: i64 = if take_ah {
            ahn
        } else {
            hn
        };
        let nhd: i64 = if take_ah {
            ad
        } else {
            hd
        };
        let ok: bool = frac_lt(nln, nld, nhn, nhd);
        proof {
            // The clipped window is exactly the old window cut by the slab.
            assert forall|p: int, q: int| q > 0 implies (in_window(
                nln as int,
                nld as int,
                nhn as int,
                nhd as int,
                p,
                q,
            ) <==> (in_window(ln as int, ld as int, hn as int, hd as int, p, q) && (aln as int) * q
                < p * (ad as int) && p * (ad as int) < (ahn as int) * q)) by {
                if take_al {
                    if (aln as int) * q < p * (ad as int) {
                        lemma_frac_trans_sl(ln as int, ld as int, aln as int, ad as int, p, q);
                    }
                } else {
                    if (ln as int) * q < p * (ld as int) {
                        lemma_frac_trans_ls(aln as int, ad as int, ln as int, ld as int, p, q);
                    }
                }
                if take_ah {
                    if p * (ad as int) < (ahn as int) * q {
                        lemma_frac_trans_ls(p, q, ahn as int, ad as int, hn as int, hd as int);
                    }
                } else {
                    if p * (hd as int) < (hn as int) * q {
                        lemma_frac_trans_sl(p, q, hn as int, hd as int, ahn as int, ad as int);
                    }
                }
            }
            if !ok {
                assert forall|p: int, q: int|
                    q > 0 && #[trigger] in_window(
                        ln as int,
                        ld as int,
                        hn as int,
                        hd as int,
                        p,
                        q,
                    ) implies !axis_ok(o as int, d as int, mn as int, mx as int, p, q) by {
                    if axis_ok(o as int, d as int, mn as int, mx as int, p, q) {
                        assert(in_window(nln as int, nld as int, nhn as int, nhd as int, p, q));
                        lemma_frac_trans_ss(nln as int, nld as int, p, q, nhn as int, nhd as int);
                    }
                }
            }
        }
        (nln, nld, nhn, nhd, ok)
    }
}

impl Aabb {
    pub fn new(min: Point3, max: Point3) -> (r: Self)
        ensures
            r == (Aabb { min, max }),
    {
        Aabb { min, max }
    }

    pub fn min(&self) -> (r: Point3)
        ensures
            r == self.min,
    {
        self.min
    }

    pub fn max(&self) -> (r: Point3)
        ensures
            r == self.max,
    {
        self.max
    }

    /// The slab test over the window `(t_min, t_max)`.
    pub fn hit(&self, ray: &Ray, t_min: i64, t_max: i64) -> (res: bool)
        requires
            aabb_bounded(*self, WORLD_MAX as int),
            vec_bounded(ray.origin, WORLD_MAX as int),
            vec_bounded(ray.direction, WORLD_MAX as int),
        ensures
            res == aabb_hit_spec(*self, *ray, t_min as int, t_max as int),
    {
        let c1: (i64, i64, i64, i64, bool) = axis_clip(
            ray.origin.x,
            ray.direction.x,
            self.min.x,
            self.max.x,
            t_min,
            FX_ONE,
            t_max,
            FX_ONE,
        );
        if !c1.4 {
            proof {
                assert forall|p: int, q: int| !hit_witness(
                    *self,
                    *ray,
                    t_min as int,
                    t_max as int,
                    p,
                    q,
                ) by {
                    if hit_witness(*self, *ray, t_min as int, t_max as int, p, q) {
                        assert(in_window(t_min as int, FX_ONE as int, t_max as int, FX_ONE as int, p, q));
                    }
                }
            }
            return false;
        }
        let c2: (i64, i64, i64, i64, bool) = axis_clip(
            ray.origin.y,
            ray.direction.y,
            self.min.y,
            self.max.y,
            c1.0,
            c1.1,
            c1.2,
            c1.3,
        );
        if !c2.4 {
            proof {
                assert forall|p: int, q: int| !hit_witness(
                    *self,
                    *ray,
                    t_min as int,
                    t_max as int,
                    p,
                    q,
                ) by {
                    if hit_witness(*self, *ray, t_min as int, t_max as int, p, q) {
                        assert(in_window(t_min as int, FX_ONE as int, t_max as int, FX_ONE as int, p, q));
                        assert(in_window(c1.0 as int, c1.1 as int, c1.2 as int, c1.3 as int, p, q));
                    }
                }
            }
            return false;
        }
        let c3: (i64, i64, i64, i64, bool) = axis_clip(
            ray.origin.z,
            ray.direction.z,
            self.min.z,
            self.max.z,
            c2.0,
            c2.1,
            c2.2,
            c2.3,
        );
        if !c3.4 {
            proof {
                assert forall|p: int, q: int| !hit_witness(
                    *self,
                    *ray,
                    t_min as int,
                    t_max as int,
                    p,
                    q,
                ) by {
                    if hit_witness(*self, *ray, t_min as int, t_max as int, p, q) {
                        assert(in_window(t_min as int, FX_ONE as int, t_max as int, FX_ONE as int, p, q));
                        assert(in_window(c1.0 as int, c1.1 as int, c1.2 as int, c1.3 as int, p, q));
                        assert(in_window(c2.0 as int, c2.1 as int, c2.2 as int, c2.3 as int, p, q));
                    }
                }
            }
            return false;
        }
        proof {
            lemma_window_witness(c3.0 as int, c3.1 as int, c3.2 as int, c3.3 as int);
            let (p, q) = choose|p: int, q: int|
                q > 0 && #[trigger] in_window(c3.0 as int, c3.1 as int, c3.2 as int, c3.3 as int, p, q);
            assert(in_window(c2.0 as int, c2.1 as int, c2.2 as int, c2.3 as int, p, q));
            assert(in_window(c1.0 as int, c1.1 as int, c1.2 as int, c1.3 as int, p, q));
            assert(in_window(t_min as int, FX_ONE as int, t_max as int, FX_ONE as int, p, q));
            assert(hit_witness(*self, *ray, t_min as int, t_max as int, p, q));
        }
        true
    }

    /// The smallest box holding both arguments.
    pub fn surround(box0: &Aabb, box1: &Aabb) -> (r: Aabb)
        ensures
            r == spec_surround(*box0, *box1),
            aabb_contains(r, *box0),
            aabb_contains(r, *box1),
    {
        let min: Point3 = Vec3 {
            x: crate::fx::fx_min(box0.min.x, box1.min.x),
            y: crate::fx::fx_min(box0.min.y, box1.min.y),
            z: crate::fx::fx_min(box0.min.z, box1.min.z),
        };
        let max: Point3 = Vec3 {
            x: crate::fx::fx_max(box0.max.x, box1.max.x),
            y: crate::fx::fx_max(box0.max.y, box1.max.y),
            z: crate::fx::fx_max(box0.max.z, box1.max.z),
        };
        Aabb { min, max }
    }
}

/// Componentwise min of mins and max of maxes.
pub open spec fn spec_surround(a: Aabb, b: Aabb) -> Aabb {
    Aabb {
        min: Vec3 {
            x: if a.min.x < b.min.x { a.min.x } else { b.min.x },
            y: if a.min.y < b.min.y { a.min.y } else { b.min.y },
            z: if a.min.z < b.min.z { a.min.z } else { b.min.z },
        },
        max: Vec3 {
            x: if a.max.x > b.max.x { a.max.x } else { b.max.x },
            y: if a.max.y > b.max.y { a.max.y } else { b.max.y },
            z: if a.max.z > b.max.z { a.max.z } else { b.max.z },
        },
    }
}

/// `outer` holds every point of `inner`.
pub open spec fn aabb_contains(outer: Aabb, inner: Aabb) -> bool {
    &&& outer.min.x <= inner.min.x
    &&& outer.min.y <= inner.min.y
    &&& outer.min.z <= inner.min.z
    &&& inner.max.x <= outer.max.x
    &&& inner.max.y <= outer.max.y
    &&& inner.max.z <= outer.max.z
}

/// The union of a box with itself is itself.
pub proof fn lemma_surround_self(b: Aabb)
    ensures
        spec_surround(b, b) == b,
{
}

/// The union contains both of its arguments.
pub proof fn lemma_surround_contains(a: Aabb, b: Aabb)
    ensures
        aabb_contains(spec_surround(a, b), a),
        aabb_contains(spec_surround(a, b), b),
{
}

/// Containment is transitive.
pub proof fn lemma_contains_trans(a: Aabb, b: Aabb, c: Aabb)
    requires
        aabb_contains(a, b),
        aabb_contains(b, c),
    ensures
        aabb_contains(a, c),
{
}

/// A ray parameter inside a box is inside every enclosing box: the slab
/// test is monotone under enlargement.
pub proof fn lemma_hit_monotone(inner: Aabb, outer: Aabb, ray: Ray, t0: int, t1: int)
    requires
        aabb_contains(outer, inner),
        aabb_hit_spec(inner, ray, t0, t1),
    ensures
        aabb_hit_spec(outer, ray, t0, t1),
{
    let (p, q) = choose|p: int, q: int| #[trigger] hit_witness(inner, ray, t0, t1, p, q);
    assert(hit_witness(outer, ray, t0, t1, p, q)) by {
        assert((outer.min.x as int) * q <= (inner.min.x as int) * q && (outer.min.y as int) * q <= (
        inner.min.y as int) * q && (outer.min.z as int) * q <= (inner.min.z as int) * q && (
        inner.max.x as int) * q <= (outer.max.x as int) * q && (inner.max.y as int) * q <= (
        outer.max.y as int) * q && (inner.max.z as int) * q <= (outer.max.z as int) * q)
            by (nonlinear_arith)
            requires
                q > 0,
                outer.min.x <= inner.min.x,
                outer.min.y <= inner.min.y,
                outer.min.z <= inner.min.z,
                inner.max.x <= outer.max.x,
                inner.max.y <= outer.max.y,
                inner.max.z <= outer.max.z,
        ;
    }
}

} // verus!
