//! Diffuse scattering: the normal plus a random unit direction.

use crate::hittable::HitResult;
use crate::material::ScatterResult;
use crate::ray::Ray;
use crate::texture::{spec_texture_value, texture_wf, Texture};
use crate::vec3::{color_unit, spec_add, vec_bounded, Vec3, UNIT_MAX};
use vstd::prelude::*;

verus! {

pub struct Lambertian {
    pub albedo: Texture,
}

impl Lambertian {
    pub fn new(albedo: Texture) -> (r: Self)
        ensures
            r.albedo == albedo,
    {
        Lambertian { albedo }
    }

    pub fn albedo(&self) -> (r: &Texture)
        ensures
            r == &self.albedo,
    {
        &self.albedo
    }
}

/// The scatter direction: normal plus sample, with the bare normal
/// standing in when the sum degenerates to zero.
pub open spec fn spec_lambertian_dir(n: Vec3, s: Vec3) -> Vec3 {
    let d = spec_add(n, s);
    if d.x == 0 && d.y == 0 && d.z == 0 {
        n
    } else {
        d
    }
}

/// The deterministic part of diffuse scattering, usable with any sample.
pub fn lambertian_dir(normal: &Vec3, sample: &Vec3) -> (r: Vec3)
    requires
        vec_bounded(*normal, UNIT_MAX as int),
        vec_bounded(*sample, UNIT_MAX as int),
    ensures
        r == spec_lambertian_dir(*normal, *sample),
{
    let sum: Vec3 = normal.add(sample);
    if sum.nearly_zero() {
        *normal
    } else {
        sum
    }
}

pub fn lambertian_scatter(
    l: &Lambertian,
    rng: &mut rand::rngs::ThreadRng,
    hit: &HitResult,
    ray_in: &Ray,
) -> (r: Option<ScatterResult>)
    requires
        texture_wf(l.albedo),
        vec_bounded(hit.normal, UNIT_MAX as int),
        vec_bounded(hit.point, 0x40_0000_0000),
    ensures
        r is Some,
        r matches Some(sr) ==> {
            &&& sr.scattered.origin == hit.point
            &&& sr.scattered.time == ray_in.time
            &&& sr.attenuation == spec_texture_value(
                l.albedo,
                hit.uv.0 as int,
                hit.uv.1 as int,
                hit.point,
            )
            &&& color_unit(sr.attenuation)
            &&& exists|s: Vec3|
                {
                    &&& vec_bounded(s, UNIT_MAX as int)
                    &&& #[trigger] spec_lambertian_dir(hit.normal, s) == sr.scattered.direction
                }
        },
{
    let s: Vec3 = Vec3::random_unit(rng);
    let dir: Vec3 = lambertian_dir(&hit.normal, &s);
    let attenuation = l.albedo.value(hit.uv, &hit.point);
    proof {
        assert(spec_lambertian_dir(hit.normal, s) == dir);
    }
    Some(
        ScatterResult {
            scattered: Ray { origin: hit.point, direction: dir, time: ray_in.time },
            attenuation,
        },
    )
}

} // verus!
