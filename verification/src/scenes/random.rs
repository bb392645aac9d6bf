//! The classic randomized field of small spheres around three large ones.

use crate::fx::{fx_mul, lemma_fx_mul_bound, lemma_fx_mul_unit, FX_ONE};
use crate::hittable::Hittable;
use crate::material::dielectric::Dielectric;
use crate::material::lambertian::Lambertian;
use crate::material::metal::Metal;
use crate::material::Material;
use crate::rng::{rand_fx, rand_index};
use crate::scenes::{
    build_root, preset_camera, push_sphere, scene_config_wf, SceneConfig, SHUTTER_END,
    SHUTTER_START,
};
use crate::sphere::Sphere;
use crate::texture::checkered::Checkered;
use crate::texture::solid_color::SolidColor;
use crate::texture::Texture;
use crate::transform::{LerpTransform, StaticTransform, Transform};
use crate::vec3::{vec_bounded, Vec3};
use vstd::prelude::*;

verus! {

fn ground_texture() -> (r: Texture)
    ensures
        crate::texture::texture_wf(r),
{
    let even: Texture = Texture::Solid(
        SolidColor::new(Vec3 { x: 13107, y: 19661, z: 6554 }),
    );
    let odd: Texture = Texture::Solid(
        SolidColor::new(Vec3 { x: 58982, y: 58982, z: 58982 }),
    );
    proof {
        assert(crate::texture::texture_wf(even));
        assert(crate::texture::texture_wf(odd));
    }
    Texture::Checkered(Checkered::new(Box::new(even), Box::new(odd)))
}

/// One small sphere of the field, material chosen by a 20-sided draw:
/// one face glass, three faces metal, the rest moving diffuse.
fn small_sphere(rng: &mut rand::rngs::ThreadRng, center: Vec3) -> (r: Sphere)
    requires
        vec_bounded(center, 16 * FX_ONE),
    ensures
        crate::sphere::sphere_wf(r),
        crate::transform::transform_time_ok(r.transform, SHUTTER_START as int),
        crate::transform::transform_time_ok(r.transform, SHUTTER_END as int),
{
    let choose_mat: usize = rand_index(rng, 20);
    if choose_mat == 19 {
        // Glass
        Sphere::from(
            Transform::Static(StaticTransform::new(center)),
            13107,
            Material::Dielectric(Dielectric::new(98304)),
        )
    } else if choose_mat >= 16 {
        // Metal
        let albedo: Vec3 = Vec3::random(rng, 32768, FX_ONE);
        let fuzz: i64 = rand_fx(rng, 0, 32768);
        Sphere::from(
            Transform::Static(StaticTransform::new(center)),
            13107,
            Material::Metal(Metal::new(albedo, fuzz)),
        )
    } else {
        // Moving diffuse, its albedo the componentwise product of two
        // uniform colors
        let c1: Vec3 = Vec3::random(rng, 0, FX_ONE);
        let c2: Vec3 = Vec3::random(rng, 0, FX_ONE);
        proof {
            lemma_fx_mul_unit(c1.x as int, c2.x as int);
            lemma_fx_mul_unit(c1.y as int, c2.y as int);
            lemma_fx_mul_unit(c1.z as int, c2.z as int);
        }
        let albedo: Vec3 = c1.mul(&c2);
        let rise: i64 = rand_fx(rng, 0, 32768);
        let to: Vec3 = Vec3 { x: center.x, y: center.y + rise, z: center.z };
        Sphere::from(
            Transform::Lerp(LerpTransform::new(center, to, SHUTTER_START, SHUTTER_END)),
            13107,
            Material::Lambertian(Lambertian::new(Texture::Solid(SolidColor::new(albedo)))),
        )
    }
}

pub fn scene(rng: &mut rand::rngs::ThreadRng) -> (r: SceneConfig)
    ensures
        scene_config_wf(r),
{
    let mut world: Vec<Hittable> = Vec::new();

    let ground: Sphere = Sphere::from(
        Transform::Static(StaticTransform::new(Vec3 { x: 0, y: -100 * FX_ONE, z: 0 })),
        100 * FX_ONE,
        Material::Lambertian(Lambertian::new(ground_texture())),
    );
    push_sphere(&mut world, ground);

    let mut a: i64 = -11;
    while a < 11
        invariant
            -11 <= a <= 11,
            crate::bvh_node::items_wf(world@),
            crate::bvh_node::items_time_ok(world@, SHUTTER_START as int),
            crate::bvh_node::items_time_ok(world@, SHUTTER_END as int),
            crate::bvh_node::items_boxed(world@, SHUTTER_START as int, SHUTTER_END as int),
            crate::bvh_node::items_linked(world@, SHUTTER_START as int, SHUTTER_END as int),
            world@.len() >= 1,
        decreases 11 - a,
    {
        let mut b: i64 = -11;
        while b < 11
            invariant
                -11 <= a < 11,
                -11 <= b <= 11,
                crate::bvh_node::items_wf(world@),
                crate::bvh_node::items_time_ok(world@, SHUTTER_START as int),
                crate::bvh_node::items_time_ok(world@, SHUTTER_END as int),
                crate::bvh_node::items_boxed(world@, SHUTTER_START as int, SHUTTER_END as int),
                crate::bvh_node::items_linked(world@, SHUTTER_START as int, SHUTTER_END as int),
                world@.len() >= 1,
            decreases 11 - b,
        {
            let rx: i64 = rand_fx(rng, 0, FX_ONE);
            let rz: i64 = rand_fx(rng, 0, FX_ONE);
            proof {
                lemma_fx_mul_bound(58982, rx as int, 58982, FX_ONE as int);
                lemma_fx_mul_bound(58982, rz as int, 58982, FX_ONE as int);
            }
            let jx: i64 = fx_mul(58982, rx);
            let jz: i64 = fx_mul(58982, rz);
            let center: Vec3 = Vec3 { x: a * FX_ONE + jx, y: 13107, z: b * FX_ONE + jz };
            let anchor: Vec3 = Vec3 { x: 4 * FX_ONE, y: 13107, z: 0 };
            let away: Vec3 = center.sub(&anchor);
            if away.length() > 58982 {
                let s: Sphere = small_sphere(rng, center);
                push_sphere(&mut world, s);
            }
            b = b + 1;
        }
        a = a + 1;
    }

    let glass: Sphere = Sphere::from(
        Transform::Static(StaticTransform::new(Vec3 { x: 0, y: FX_ONE, z: 0 })),
        FX_ONE,
        Material::Dielectric(Dielectric::new(98304)),
    );
    push_sphere(&mut world, glass);

    let matte: Sphere = Sphere::from(
        Transform::Static(StaticTransform::new(Vec3 { x: -4 * FX_ONE, y: FX_ONE, z: 0 })),
        FX_ONE,
        Material::Lambertian(
            Lambertian::new(
                Texture::Solid(SolidColor::new(Vec3 { x: 26214, y: 13107, z: 6554 })),
            ),
        ),
    );
    push_sphere(&mut world, matte);

    let mirror: Sphere = Sphere::from(
        Transform::Static(StaticTransform::new(Vec3 { x: 4 * FX_ONE, y: FX_ONE, z: 0 })),
        FX_ONE,
        Material::Metal(Metal::new(Vec3 { x: 45875, y: 39322, z: 32768 }, 0)),
    );
    push_sphere(&mut world, mirror);

    SceneConfig { root: build_root(rng, world), camera: preset_camera(6554) }
}

} // verus!
