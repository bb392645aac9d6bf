//! A position as a function of time: fixed, or linearly interpolated
//! across a declared time range (motion blur).

use crate::fx::{fx_div, fx_div_spec, fx_mul_spec, iabs, lemma_fx_mul_bound, lemma_tdiv_nonneg, FX_ONE, GEOM_MAX};
use crate::vec3::{spec_add, spec_scale, spec_sub, vec_bounded, Point3, Vec3, DOT_MAX};
use vstd::arithmetic::div_mod::{lemma_div_by_multiple, lemma_div_is_ordered};
use vstd::prelude::*;

verus! {

#[derive(Clone, Copy, Debug, PartialEq, Eq, Structural)]
pub struct StaticTransform {
    pub position: Point3,
}

impl StaticTransform {
    pub fn new(position: Point3) -> (r: Self)
        ensures
            r == (StaticTransform { position }),
    {
        StaticTransform { position }
    }
}

#[derive(Clone, Copy, Debug, PartialEq, Eq, Structural)]
pub struct LerpTransform {
    pub from: Point3,
    pub to: Point3,
    pub time_start: i64,
    pub time_end: i64,
}

impl LerpTransform {
    pub fn new(from: Point3, to: Point3, time_start: i64, time_end: i64) -> (r: Self)
        ensures
            r == (LerpTransform { from, to, time_start, time_end }),
    {
        LerpTransform { from, to, time_start, time_end }
    }
}

#[derive(Clone, Copy, Debug, PartialEq, Eq, Structural)]
pub enum Transform {
    Static(StaticTransform),
    Lerp(LerpTransform),
}

/// Endpoints within the world bound, and for an interpolation a usable
/// time range: it must run forward and span at least 32 raw units, so the
/// interpolation factor cannot overflow.
pub open spec fn transform_wf(t: Transform) -> bool {
    match t {
        Transform::Static(s) => vec_bounded(s.position, GEOM_MAX as int),
        Transform::Lerp(l) => {
            &&& vec_bounded(l.from, GEOM_MAX as int)
            &&& vec_bounded(l.to, GEOM_MAX as int)
            &&& iabs(l.time_start as int) <= GEOM_MAX as int
            &&& iabs(l.time_end as int) <= GEOM_MAX as int
            &&& l.time_end - l.time_start >= 32
        },
    }
}

/// The sample time lies inside the transform's declared range.
pub open spec fn transform_time_ok(t: Transform, time: int) -> bool {
    match t {
        Transform::Static(_) => true,
        Transform::Lerp(l) => l.time_start <= time <= l.time_end,
    }
}

/// The interpolation factor `(time - start) / (end - start)`.
pub open spec fn spec_lerp_factor(l: LerpTransform, time: int) -> int {
    fx_div_spec(time - l.time_start, l.time_end - l.time_start)
}

pub open spec fn spec_position(t: Transform, time: int) -> Point3 {
    match t {
        Transform::Static(s) => s.position,
        Transform::Lerp(l) => spec_add(
            l.from,
            spec_scale(spec_sub(l.to, l.from), spec_lerp_factor(l, time)),
        ),
    }
}

/// The factor stays in `[0, 1]` while the time stays in the range.
pub proof fn lemma_lerp_factor_range(l: LerpTransform, time: int)
    requires
        transform_wf(Transform::Lerp(l)),
        l.time_start <= time <= l.time_end,
    ensures
        0 <= spec_lerp_factor(l, time) <= FX_ONE,
{
    let e = time - l.time_start;
    let d = l.time_end - l.time_start;
    lemma_tdiv_nonneg(e * (FX_ONE as int), d);
    assert(0 <= e * (FX_ONE as int) <= d * (FX_ONE as int)) by (nonlinear_arith)
        requires
            0 <= e <= d,
    ;
    lemma_div_is_ordered(e * (FX_ONE as int), d * (FX_ONE as int), d);
    lemma_div_by_multiple(FX_ONE as int, d);
    assert(d * (FX_ONE as int) == (FX_ONE as int) * d) by (nonlinear_arith);
}

/// The interpolated position stays within three times the world bound.
pub proof fn lemma_position_bounded(t: Transform, time: int)
    requires
        transform_wf(t),
        transform_time_ok(t, time),
    ensures
        vec_bounded(spec_position(t, time), 3 * GEOM_MAX),
{
    match t {
        Transform::Static(_) => {
        },
        Transform::Lerp(l) => {
            lemma_lerp_factor_range(l, time);
            let s = spec_lerp_factor(l, time);
            let d = spec_sub(l.to, l.from);
            lemma_fx_mul_bound(d.x as int, s, 2 * GEOM_MAX, FX_ONE as int);
            lemma_fx_mul_bound(d.y as int, s, 2 * GEOM_MAX, FX_ONE as int);
            lemma_fx_mul_bound(d.z as int, s, 2 * GEOM_MAX, FX_ONE as int);
            assert((2 * GEOM_MAX) * (FX_ONE as int) / (FX_ONE as int) == 2 * GEOM_MAX) by (nonlinear_arith);
        },
    }
}

impl Transform {
    /// The position at the given sample time.
    pub fn position(&self, time: i64) -> (r: Point3)
        requires
            transform_wf(*self),
            transform_time_ok(*self, time as int),
        ensures
            r == spec_position(*self, time as int),
            vec_bounded(r, 3 * GEOM_MAX),
    {
        proof {
            lemma_position_bounded(*self, time as int);
        }
        match self {
            Transform::Static(s) => s.position,
            Transform::Lerp(l) => {
                let duration: i64 = l.time_end - l.time_start;
                let elapsed: i64 = time - l.time_start;
                proof {
                    lemma_lerp_factor_range(*l, time as int);
                }
                let factor: i64 = fx_div(elapsed, duration);
                let diff: Vec3 = l.to.sub(&l.from);
                let offset: Vec3 = diff.scale(factor);
                proof {
                    lemma_fx_mul_bound(diff.x as int, factor as int, 2 * GEOM_MAX, FX_ONE as int);
                    lemma_fx_mul_bound(diff.y as int, factor as int, 2 * GEOM_MAX, FX_ONE as int);
                    lemma_fx_mul_bound(diff.z as int, factor as int, 2 * GEOM_MAX, FX_ONE as int);
                }
                l.from.add(&offset)
            },
        }
    }
}

} // verus!
