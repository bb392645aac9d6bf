//! Dielectric scattering: reflect or refract by Snell's law, choosing
//! stochastically by Schlick's reflectance approximation.

use crate::fx::{
    fx_clamp, fx_div, fx_div_spec, fx_mul, fx_mul_spec, fx_sqrt, fx_sqrt_spec, iabs,
    lemma_fx_mul_bound, lemma_isqrt_spec, lemma_tdiv_abs_le, lemma_tdiv_nonneg, FX_ONE, WORLD_MAX,
};
use crate::hittable::HitResult;
use crate::material::ScatterResult;
use crate::ray::Ray;
use crate::rng::rand_fx;
use crate::vec3::{
    color_unit, lemma_dot_bound, spec_dot, spec_neg, spec_normalized, spec_reflect, spec_refract,
    vec_bounded, Point3, Vec3, UNIT_MAX,
};
use vstd::arithmetic::div_mod::lemma_div_is_ordered_by_denominator;
use vstd::prelude::*;

verus! {

pub struct Dielectric {
    pub index_of_refraction: i64,
}

impl Dielectric {
    pub fn new(index_of_refraction: i64) -> (r: Self)
        ensures
            r.index_of_refraction == index_of_refraction,
    {
        Dielectric { index_of_refraction }
    }
}

/// Schlick's reflectance approximation
/// `r0 + (1 - r0) (1 - cos)^5`, `r0 = ((1 - n) / (1 + n))^2`.
pub open spec fn spec_reflectance(cosine: int, ref_index: int) -> int {
    let r0 = fx_div_spec((FX_ONE as int) - ref_index, (FX_ONE as int) + ref_index);
    let r0sq = fx_mul_spec(r0, r0);
    let p = (FX_ONE as int) - cosine;
    let p2 = fx_mul_spec(p, p);
    let p4 = fx_mul_spec(p2, p2);
    let p5 = fx_mul_spec(p4, p);
    r0sq + fx_mul_spec((FX_ONE as int) - r0sq, p5)
}

/// What the dielectric does with one uniform draw: total internal
/// reflection forces a mirror bounce; otherwise the draw against the
/// reflectance picks reflection or refraction.  Glass absorbs nothing.
pub open spec fn spec_dielectric_scatter(
    d: Dielectric,
    front_face: bool,
    point: Point3,
    normal: Vec3,
    ray: Ray,
    draw: int,
) -> ScatterResult {
    let ratio = if front_face {
        fx_div_spec(FX_ONE as int, d.index_of_refraction as int)
    } else {
        d.index_of_refraction as int
    };
    let unit = spec_normalized(ray.direction);
    let cos_raw = spec_dot(spec_neg(unit), normal);
    let cos = if cos_raw < -(FX_ONE as int) {
        -(FX_ONE as int)
    } else if cos_raw > FX_ONE as int {
        FX_ONE as int
    } else {
        cos_raw
    };
    let sin = fx_sqrt_spec((FX_ONE as int) - fx_mul_spec(cos, cos));
    let cannot_refract = fx_mul_spec(ratio, sin) > FX_ONE as int;
    let dir = if cannot_refract || spec_reflectance(cos, ratio) > draw {
        spec_reflect(unit, normal)
    } else {
        spec_refract(unit, normal, ratio)
    };
    ScatterResult {
        scattered: Ray { origin: point, direction: dir, time: ray.time },
        attenuation: Vec3 { x: FX_ONE, y: FX_ONE, z: FX_ONE },
    }
}

/// Schlick's approximation, executable.
pub fn reflectance(cosine: i64, ref_index: i64) -> (r: i64)
    requires
        -FX_ONE <= cosine <= FX_ONE,
        16384 <= ref_index <= 0x40000,
    ensures
        r == spec_reflectance(cosine as int, ref_index as int),
        iabs(r as int) <= 300 * (FX_ONE as int),
{
    proof {
        lemma_tdiv_abs_le(
            ((FX_ONE - ref_index) as int) * (FX_ONE as int),
            (FX_ONE + ref_index) as int,
            3 * (FX_ONE as int) * (FX_ONE as int),
        );
        assert(iabs(((FX_ONE - ref_index) as int) * (FX_ONE as int)) <= 3 * (FX_ONE as int) * (
        FX_ONE as int)) by (nonlinear_arith)
            requires
                iabs((FX_ONE - ref_index) as int) <= 3 * (FX_ONE as int),
        ;
        lemma_div_is_ordered_by_denominator(
            3 * (FX_ONE as int) * (FX_ONE as int),
            FX_ONE as int,
            (FX_ONE + ref_index) as int,
        );
        assert((3 * (FX_ONE as int) * (FX_ONE as int)) / (FX_ONE as int) == 3 * (FX_ONE as int))
            by (nonlinear_arith);
    }
    let r0: i64 = fx_div(FX_ONE - ref_index, FX_ONE + ref_index);
    proof {
        lemma_fx_mul_bound(r0 as int, r0 as int, 3 * (FX_ONE as int), 3 * (FX_ONE as int));
        crate::vec3::lemma_square_term_nonneg(r0 as int);
    }
    let r0sq: i64 = fx_mul(r0, r0);
    let p: i64 = FX_ONE - cosine;
    proof {
        lemma_fx_mul_bound(p as int, p as int, 2 * (FX_ONE as int), 2 * (FX_ONE as int));
        crate::vec3::lemma_square_term_nonneg(p as int);
    }
    let p2: i64 = fx_mul(p, p);
    proof {
        lemma_fx_mul_bound(p2 as int, p2 as int, 4 * (FX_ONE as int), 4 * (FX_ONE as int));
        crate::vec3::lemma_square_term_nonneg(p2 as int);
    }
    let p4: i64 = fx_mul(p2, p2);
    proof {
        lemma_fx_mul_bound(p4 as int, p as int, 16 * (FX_ONE as int), 2 * (FX_ONE as int));
    }
    let p5: i64 = fx_mul(p4, p);
    proof {
        lemma_fx_mul_bound(
            (FX_ONE - r0sq) as int,
            p5 as int,
            8 * (FX_ONE as int),
            32 * (FX_ONE as int),
        );
    }
    r0sq + fx_mul(FX_ONE - r0sq, p5)
}

/// The deterministic part of dielectric scattering, usable with any draw.
pub fn dielectric_scatter_with(
    d: &Dielectric,
    front_face: bool,
    point: Point3,
    normal: Vec3,
    ray_in: &Ray,
    draw: i64,
) -> (r: ScatterResult)
    requires
        16384 <= d.index_of_refraction <= 0x40000,
        vec_bounded(normal, UNIT_MAX as int),
        vec_bounded(ray_in.direction, WORLD_MAX as int),
        spec_dot(ray_in.direction, ray_in.direction) >= 1,
        0 <= draw <= FX_ONE,
    ensures
        r == spec_dielectric_scatter(*d, front_face, point, normal, *ray_in, draw as int),
        r.scattered.origin == point,
        r.scattered.time == ray_in.time,
        color_unit(r.attenuation),
{
    let refraction_ratio: i64 = if front_face {
        proof {
            lemma_tdiv_nonneg((FX_ONE as int) * (FX_ONE as int), d.index_of_refraction as int);
            lemma_tdiv_abs_le(
                (FX_ONE as int) * (FX_ONE as int),
                d.index_of_refraction as int,
                (FX_ONE as int) * (FX_ONE as int),
            );
            lemma_div_is_ordered_by_denominator(
                (FX_ONE as int) * (FX_ONE as int),
                16384,
                d.index_of_refraction as int,
            );
            lemma_div_is_ordered_by_denominator(
                (FX_ONE as int) * (FX_ONE as int),
                d.index_of_refraction as int,
                0x40000,
            );
            assert(((FX_ONE as int) * (FX_ONE as int)) / 16384 == 4 * (FX_ONE as int))
                by (nonlinear_arith);
            assert(((FX_ONE as int) * (FX_ONE as int)) / 0x40000 == 16384) by (nonlinear_arith);
        }
        fx_div(FX_ONE, d.index_of_refraction)
    } else {
        d.index_of_refraction
    };
    let unit_direction: Vec3 = ray_in.direction().normalized();
    proof {
        lemma_dot_bound(spec_neg(unit_direction), normal, UNIT_MAX as int, UNIT_MAX as int);
    }
    let cos_raw: i64 = unit_direction.neg().dot(&normal);
    let cos_theta: i64 = fx_clamp(cos_raw, -FX_ONE, FX_ONE);
    proof {
        lemma_fx_mul_bound(cos_theta as int, cos_theta as int, FX_ONE as int, FX_ONE as int);
        crate::vec3::lemma_square_term_nonneg(cos_theta as int);
        crate::fx::lemma_fx_mul_unit(
            if cos_theta >= 0 {
                cos_theta as int
            } else {
                -(cos_theta as int)
            },
            if cos_theta >= 0 {
                cos_theta as int
            } else {
                -(cos_theta as int)
            },
        );
    }
    let cos_sq: i64 = fx_mul(cos_theta, cos_theta);
    proof {
        assert(fx_mul_spec(cos_theta as int, cos_theta as int) <= FX_ONE as int) by {
            assert((cos_theta as int) * (cos_theta as int) <= (FX_ONE as int) * (FX_ONE as int))
                by (nonlinear_arith)
                requires
                    -(FX_ONE as int) <= cos_theta as int <= FX_ONE as int,
            ;
            vstd::arithmetic::div_mod::lemma_div_is_ordered(
                (cos_theta as int) * (cos_theta as int),
                (FX_ONE as int) * (FX_ONE as int),
                FX_ONE as int,
            );
            assert(((FX_ONE as int) * (FX_ONE as int)) / (FX_ONE as int) == FX_ONE as int)
                by (nonlinear_arith);
        }
    }
    let sin_theta: i64 = fx_sqrt(FX_ONE - cos_sq);
    proof {
        lemma_isqrt_spec(((FX_ONE - cos_sq) as int) * (FX_ONE as int));
        assert(sin_theta <= FX_ONE) by (nonlinear_arith)
            requires
                sin_theta >= 0,
                (sin_theta as int) * (sin_theta as int) <= ((FX_ONE - cos_sq) as int) * (
                FX_ONE as int),
                0 <= (FX_ONE - cos_sq) as int <= FX_ONE as int,
        ;
        lemma_fx_mul_bound(refraction_ratio as int, sin_theta as int, 0x40000, FX_ONE as int);
    }
    let cannot_refract: bool = fx_mul(refraction_ratio, sin_theta) > FX_ONE;
    let reflect_draw: i64 = reflectance(cos_theta, refraction_ratio);
    let direction: Vec3 = if cannot_refract || reflect_draw > draw {
        Vec3::reflect(&unit_direction, &normal)
    } else {
        Vec3::refract(&unit_direction, &normal, refraction_ratio)
    };
    ScatterResult {
        scattered: Ray { origin: point, direction, time: ray_in.time },
        attenuation: Vec3 { x: FX_ONE, y: FX_ONE, z: FX_ONE },
    }
}

pub fn dielectric_scatter(
    d: &Dielectric,
    rng: &mut rand::rngs::ThreadRng,
    hit: &HitResult,
    ray_in: &Ray,
) -> (r: Option<ScatterResult>)
    requires
        16384 <= d.index_of_refraction <= 0x40000,
        vec_bounded(hit.normal, UNIT_MAX as int),
        vec_bounded(ray_in.direction, WORLD_MAX as int),
        spec_dot(ray_in.direction, ray_in.direction) >= 1,
    ensures
        r is Some,
        r matches Some(sr) ==> {
            &&& sr.scattered.origin == hit.point
            &&& sr.scattered.time == ray_in.time
            &&& color_unit(sr.attenuation)
        },
        exists|draw: int|
            {
                &&& 0 <= draw <= FX_ONE
                &&& Some(#[trigger] spec_dielectric_scatter(
                    *d,
                    hit.front_face,
                    hit.point,
                    hit.normal,
                    *ray_in,
                    draw,
                )) == r
            },
{
    let draw: i64 = rand_fx(rng, 0, FX_ONE);
    let sr: ScatterResult = dielectric_scatter_with(
        d,
        hit.front_face,
        hit.point,
        hit.normal,
        ray_in,
        draw,
    );
    proof {
        assert(Some(
            spec_dielectric_scatter(
                *d,
                hit.front_face,
                hit.point,
                hit.normal,
                *ray_in,
                draw as int,
            ),
        ) == Some(sr));
    }
    Some(sr)
}

} // verus!
