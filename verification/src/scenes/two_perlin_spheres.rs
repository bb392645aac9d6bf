//! A noise-textured ball resting on a noise-textured ground sphere.

use crate::fx::FX_ONE;
use crate::hittable::Hittable;
use crate::material::lambertian::Lambertian;
use crate::material::Material;
use crate::scenes::{build_root, preset_camera, push_sphere, scene_config_wf, SceneConfig};
use crate::sphere::Sphere;
use crate::texture::noise::Noise;
use crate::texture::Texture;
use crate::transform::{StaticTransform, Transform};
use crate::vec3::Vec3;
use vstd::prelude::*;

verus! {

pub fn scene(rng: &mut rand::rngs::ThreadRng) -> (r: SceneConfig)
    ensures
        scene_config_wf(r),
{
    let mut world: Vec<Hittable> = Vec::new();

    let ground_noise: Noise = Noise::new(rng, 4 * FX_ONE);
    let ground: Sphere = Sphere::from(
        Transform::Static(StaticTransform::new(Vec3 { x: 0, y: -100 * FX_ONE, z: 0 })),
        100 * FX_ONE,
        Material::Lambertian(Lambertian::new(Texture::Noise(ground_noise))),
    );
    push_sphere(&mut world, ground);

    let ball_noise: Noise = Noise::new(rng, 4 * FX_ONE);
    let ball: Sphere = Sphere::from(
        Transform::Static(StaticTransform::new(Vec3 { x: 0, y: 2 * FX_ONE, z: 0 })),
        2 * FX_ONE,
        Material::Lambertian(Lambertian::new(Texture::Noise(ball_noise))),
    );
    push_sphere(&mut world, ball);

    SceneConfig { root: build_root(rng, world), camera: preset_camera(0) }
}

} // verus!
