//! Two large checkered spheres facing each other.

use crate::fx::FX_ONE;
use crate::hittable::Hittable;
use crate::material::lambertian::Lambertian;
use crate::material::Material;
use crate::scenes::{build_root, preset_camera, push_sphere, scene_config_wf, SceneConfig};
use crate::sphere::Sphere;
use crate::texture::checkered::Checkered;
use crate::texture::solid_color::SolidColor;
use crate::texture::Texture;
use crate::transform::{StaticTransform, Transform};
use crate::vec3::Vec3;
use vstd::prelude::*;

verus! {

fn checker_texture() -> (r: Texture)
    ensures
        crate::texture::texture_wf(r),
{
    let even: Texture = Texture::Solid(
        SolidColor::new(Vec3 { x: 13107, y: 19661, z: 6554 }),
    );
    let odd: Texture = Texture::Solid(
        SolidColor::new(Vec3 { x: 58982, y: 58982, z: 58982 }),
    );
    proof {
        assert(crate::texture::texture_wf(even));
        assert(crate::texture::texture_wf(odd));
    }
    Texture::Checkered(Checkered::new(Box::new(even), Box::new(odd)))
}

pub fn scene(rng: &mut rand::rngs::ThreadRng) -> (r: SceneConfig)
    ensures
        scene_config_wf(r),
{
    let mut world: Vec<Hittable> = Vec::new();

    let lower: Sphere = Sphere::from(
        Transform::Static(StaticTransform::new(Vec3 { x: 0, y: -10 * FX_ONE, z: 0 })),
        10 * FX_ONE,
        Material::Lambertian(Lambertian::new(checker_texture())),
    );
    push_sphere(&mut world, lower);

    let upper: Sphere = Sphere::from(
        Transform::Static(StaticTransform::new(Vec3 { x: 0, y: 10 * FX_ONE, z: 0 })),
        10 * FX_ONE,
        Material::Lambertian(Lambertian::new(checker_texture())),
    );
    push_sphere(&mut world, upper);

    SceneConfig { root: build_root(rng, world), camera: preset_camera(0) }
}

} // verus!
