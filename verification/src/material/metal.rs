//! Specular scattering: mirror reflection perturbed by fuzz.

use crate::fx::{lemma_fx_mul_bound, FX_ONE, WORLD_MAX};
use crate::hittable::HitResult;
use crate::material::ScatterResult;
use crate::ray::Ray;
use crate::vec3::{
    color_unit, spec_add, spec_dot, spec_normalized, spec_reflect, spec_scale, vec_bounded, Color,
    Point3, Vec3, DOT_MAX, UNIT_MAX,
};
use vstd::prelude::*;

verus! {

pub struct Metal {
    pub albedo: Color,
    pub fuzz: i64,
}

impl Metal {
    pub fn new(albedo: Color, fuzz: i64) -> (r: Self)
        ensures
            r.albedo == albedo,
            r.fuzz == fuzz,
    {
        Metal { albedo, fuzz }
    }
}

/// What a metal does with one fuzz sample: reflect the unit incoming
/// direction, perturb it by `fuzz * sample`, and absorb the ray when the
/// perturbed direction falls behind the surface.
pub open spec fn spec_metal_scatter(
    m: Metal,
    point: Point3,
    normal: Vec3,
    ray: Ray,
    sample: Vec3,
) -> Option<ScatterResult> {
    let unit = spec_normalized(ray.direction);
    let dir = spec_add(spec_reflect(unit, normal), spec_scale(sample, m.fuzz as int));
    if spec_dot(dir, normal) > 0 {
        Some(
            ScatterResult {
                scattered: Ray { origin: point, direction: dir, time: ray.time },
                attenuation: m.albedo,
            },
        )
    } else {
        None
    }
}

/// The deterministic part of metal scattering, usable with any sample.
pub fn metal_scatter_with(
    m: &Metal,
    point: Point3,
    normal: Vec3,
    ray_in: &Ray,
    sample: Vec3,
) -> (r: Option<ScatterResult>)
    requires
        0 <= m.fuzz <= FX_ONE,
        vec_bounded(normal, UNIT_MAX as int),
        vec_bounded(ray_in.direction, WORLD_MAX as int),
        spec_dot(ray_in.direction, ray_in.direction) >= 1,
        vec_bounded(sample, FX_ONE as int),
    ensures
        r == spec_metal_scatter(*m, point, normal, *ray_in, sample),
        r matches Some(sr) ==> {
            &&& sr.scattered.origin == point
            &&& sr.scattered.time == ray_in.time
            &&& sr.attenuation == m.albedo
        },
{
    let unit: Vec3 = ray_in.direction().normalized();
    let reflected: Vec3 = Vec3::reflect(&unit, &normal);
    proof {
        lemma_fx_mul_bound(sample.x as int, m.fuzz as int, FX_ONE as int, FX_ONE as int);
        lemma_fx_mul_bound(sample.y as int, m.fuzz as int, FX_ONE as int, FX_ONE as int);
        lemma_fx_mul_bound(sample.z as int, m.fuzz as int, FX_ONE as int, FX_ONE as int);
    }
    let dir: Vec3 = reflected.add(&sample.scale(m.fuzz));
    if dir.dot(&normal) > 0 {
        Some(
            ScatterResult {
                scattered: Ray { origin: point, direction: dir, time: ray_in.time },
                attenuation: m.albedo,
            },
        )
    } else {
        None
    }
}

pub fn metal_scatter(
    m: &Metal,
    rng: &mut rand::rngs::ThreadRng,
    hit: &HitResult,
    ray_in: &Ray,
) -> (r: Option<ScatterResult>)
    requires
        color_unit(m.albedo),
        0 <= m.fuzz <= FX_ONE,
        vec_bounded(hit.normal, UNIT_MAX as int),
        vec_bounded(ray_in.direction, WORLD_MAX as int),
        spec_dot(ray_in.direction, ray_in.direction) >= 1,
    ensures
        r matches Some(sr) ==> {
            &&& sr.scattered.origin == hit.point
            &&& sr.scattered.time == ray_in.time
            &&& color_unit(sr.attenuation)
        },
        exists|s: Vec3|
            {
                &&& vec_bounded(s, FX_ONE as int)
                &&& spec_dot(s, s) < FX_ONE
                &&& #[trigger] spec_metal_scatter(*m, hit.point, hit.normal, *ray_in, s) == r
            },
{
    let s: Vec3 = Vec3::random_in_unit_sphere(rng);
    let r: Option<ScatterResult> = metal_scatter_with(m, hit.point, hit.normal, ray_in, s);
    proof {
        assert(spec_metal_scatter(*m, hit.point, hit.normal, *ray_in, s) == r);
    }
    r
}

} // verus!
