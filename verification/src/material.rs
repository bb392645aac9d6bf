//! Scattering policies: how a surface turns an incoming ray into an
//! outgoing ray and an attenuation, or absorbs it.

pub mod dielectric;
pub mod lambertian;
pub mod metal;

use crate::hittable::HitResult;
use crate::material::dielectric::{spec_dielectric_scatter, Dielectric};
use crate::material::lambertian::{spec_lambertian_dir, Lambertian};
use crate::material::metal::{spec_metal_scatter, Metal};
use crate::ray::Ray;
use crate::texture::{spec_texture_value, texture_wf};
use crate::vec3::{color_unit, spec_dot, vec_bounded, Color, Vec3};
use vstd::prelude::*;

verus! {

pub struct ScatterResult {
    pub scattered: Ray,
    pub attenuation: Color,
}

pub enum Material {
    Lambertian(Lambertian),
    Metal(Metal),
    Dielectric(Dielectric),
}

/// Attenuations in `[0, 1]`, fuzz in `[0, 1]`, refraction index in
/// `[1/4, 4]`.
pub open spec fn material_wf(m: Material) -> bool {
    match m {
        Material::Lambertian(l) => texture_wf(l.albedo),
        Material::Metal(mt) => color_unit(mt.albedo) && 0 <= mt.fuzz <= crate::fx::FX_ONE,
        Material::Dielectric(d) => 16384 <= d.index_of_refraction <= 0x40000,
    }
}

impl Material {
    /// Scatter an incoming ray at a hit.  What is promised holds for
    /// every outcome of the random draws: the drawn samples appear as
    /// existential witnesses.
    pub fn scatter(
        &self,
        rng: &mut rand::rngs::ThreadRng,
        hit: &HitResult,
        ray_in: &Ray,
    ) -> (r: Option<ScatterResult>)
        requires
            material_wf(*self),
            vec_bounded(hit.normal, crate::vec3::UNIT_MAX as int),
            vec_bounded(ray_in.direction, crate::fx::WORLD_MAX as int),
            spec_dot(ray_in.direction, ray_in.direction) >= 1,
            vec_bounded(hit.point, 0x40_0000_0000),
        ensures
            r matches Some(sr) ==> {
                &&& sr.scattered.origin == hit.point
                &&& sr.scattered.time == ray_in.time
                &&& color_unit(sr.attenuation)
            },
            self is Lambertian || self is Dielectric ==> r.is_some(),
            match *self {
                Material::Lambertian(l) => r matches Some(sr) && sr.attenuation
                    == spec_texture_value(l.albedo, hit.uv.0 as int, hit.uv.1 as int, hit.point)
                    && exists|s: Vec3|
                    {
                        &&& vec_bounded(s, crate::vec3::UNIT_MAX as int)
                        &&& #[trigger] spec_lambertian_dir(hit.normal, s)
                            == sr.scattered.direction
                    },
                Material::Metal(mt) => exists|s: Vec3|
                    {
                        &&& vec_bounded(s, crate::fx::FX_ONE as int)
                        &&& spec_dot(s, s) < crate::fx::FX_ONE
                        &&& #[trigger] spec_metal_scatter(mt, hit.point, hit.normal, *ray_in, s)
                            == r
                    },
                Material::Dielectric(d) => exists|draw: int|
                    {
                        &&& 0 <= draw <= crate::fx::FX_ONE
                        &&& Some(#[trigger] spec_dielectric_scatter(
                            d,
                            hit.front_face,
                            hit.point,
                            hit.normal,
                            *ray_in,
                            draw,
                        )) == r
                    },
            },
    {
        match self {
            Material::Lambertian(l) => crate::material::lambertian::lambertian_scatter(
                l,
                rng,
                hit,
                ray_in,
            ),
            Material::Metal(mt) => crate::material::metal::metal_scatter(mt, rng, hit, ray_in),
            Material::Dielectric(d) => crate::material::dielectric::dielectric_scatter(
                d,
                rng,
                hit,
                ray_in,
            ),
        }
    }
}

} // verus!
