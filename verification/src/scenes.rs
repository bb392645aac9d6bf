//! Scene presets: a fully assembled primitive list, built into a BVH,
//! together with camera parameters.
//!
//! Geometry here stays within `GEOM_MAX` (256 world units), so grounds
//! that the presets would otherwise give a very large radius use a
//! radius of 100.

pub mod random;
pub mod two_perlin_spheres;
pub mod two_spheres;

use crate::aabb::aabb_bounded;
use crate::bvh_node::{items_boxed, items_linked, items_time_ok, items_wf, BvhNode};
use crate::camera::{camera_config_wf, CameraConfig};
use crate::fx::{FX_ONE, GEOM_MAX, WORLD_MAX};
use crate::hittable::{
    bvh_linked, hittable_time_ok, hittable_wf, list_time_ok_prefix, list_wf_prefix, spec_box,
    Hittable,
};
use crate::hittable_list::HittableList;
use crate::sphere::{sphere_wf, Sphere};
use crate::transform::transform_time_ok;
use vstd::prelude::*;

verus! {

/// The shutter interval of every preset: `[0, 1]`.
pub const SHUTTER_START: i64 = 0;

pub const SHUTTER_END: i64 = 65536;

pub enum SceneOption {
    Random,
    TwoSpheres,
    TwoPerlinSpheres,
}

pub struct SceneConfig {
    pub root: BvhNode,
    pub camera: CameraConfig,
}

/// What every preset guarantees of its BVH root.
pub open spec fn scene_root_wf(n: BvhNode) -> bool {
    &&& hittable_wf(n.left)
    &&& hittable_wf(n.right)
    &&& hittable_time_ok(n.left, SHUTTER_START as int)
    &&& hittable_time_ok(n.left, SHUTTER_END as int)
    &&& hittable_time_ok(n.right, SHUTTER_START as int)
    &&& hittable_time_ok(n.right, SHUTTER_END as int)
    &&& aabb_bounded(n.bounds, WORLD_MAX as int)
}

pub open spec fn scene_config_wf(c: SceneConfig) -> bool {
    &&& scene_root_wf(c.root)
    &&& camera_config_wf(c.camera)
}

/// The immutable render-phase handle: the built tree as a `Hittable`.
pub fn wrap_root(root: BvhNode) -> (r: Hittable)
    requires
        scene_root_wf(root),
    ensures
        hittable_wf(r),
        hittable_time_ok(r, SHUTTER_START as int),
        hittable_time_ok(r, SHUTTER_END as int),
{
    Hittable::Bvh(Box::new(root))
}

/// The quantified member facts imply the prefix forms the list queries
/// use.
pub proof fn lemma_prefix_from_items(l: HittableList, n: int, t0: int, t1: int)
    requires
        0 <= n <= l.list@.len(),
        items_wf(l.list@),
        items_time_ok(l.list@, t0),
        items_time_ok(l.list@, t1),
    ensures
        list_wf_prefix(l, n),
        list_time_ok_prefix(l, n, t0),
        list_time_ok_prefix(l, n, t1),
    decreases n,
{
    if n > 0 {
        lemma_prefix_from_items(l, n - 1, t0, t1);
    }
}

/// Appends one well-formed sphere to a scene under construction,
/// keeping every member fact.
pub fn push_sphere(world: &mut Vec<Hittable>, s: Sphere)
    requires
        sphere_wf(s),
        transform_time_ok(s.transform, SHUTTER_START as int),
        transform_time_ok(s.transform, SHUTTER_END as int),
        items_wf(old(world)@),
        items_time_ok(old(world)@, SHUTTER_START as int),
        items_time_ok(old(world)@, SHUTTER_END as int),
        items_boxed(old(world)@, SHUTTER_START as int, SHUTTER_END as int),
        items_linked(old(world)@, SHUTTER_START as int, SHUTTER_END as int),
    ensures
        final(world)@.len() == old(world)@.len() + 1,
        items_wf(final(world)@),
        items_time_ok(final(world)@, SHUTTER_START as int),
        items_time_ok(final(world)@, SHUTTER_END as int),
        items_boxed(final(world)@, SHUTTER_START as int, SHUTTER_END as int),
        items_linked(final(world)@, SHUTTER_START as int, SHUTTER_END as int),
{
    let ghost before = world@;
    let item: Hittable = Hittable::Sphere(s);
    world.push(item);
    proof {
        let t0 = SHUTTER_START as int;
        let t1 = SHUTTER_END as int;
        assert forall|k: int| 0 <= k < world@.len() implies hittable_wf(#[trigger] world@[k])
            && hittable_time_ok(world@[k], t0) && hittable_time_ok(world@[k], t1) && spec_box(
            world@[k],
            t0,
            t1,
        ) is Some && bvh_linked(world@[k], t0, t1) by {
            if k < before.len() {
                assert(world@[k] == before[k]);
            } else {
                assert(world@[k] == item);
            }
        }
    }
}

/// Builds the finished list into a BVH over the shutter interval.
pub fn build_root(rng: &mut rand::rngs::ThreadRng, world: Vec<Hittable>) -> (r: BvhNode)
    requires
        1 <= world@.len(),
        items_wf(world@),
        items_time_ok(world@, SHUTTER_START as int),
        items_time_ok(world@, SHUTTER_END as int),
        items_boxed(world@, SHUTTER_START as int, SHUTTER_END as int),
        items_linked(world@, SHUTTER_START as int, SHUTTER_END as int),
    ensures
        scene_root_wf(r),
{
    let list: HittableList = HittableList::from(world);
    proof {
        lemma_prefix_from_items(
            list,
            list.list@.len() as int,
            SHUTTER_START as int,
            SHUTTER_END as int,
        );
    }
    BvhNode::new(rng, list, SHUTTER_START, SHUTTER_END)
}

/// Builds the chosen preset.
pub fn make_scene(rng: &mut rand::rngs::ThreadRng, scene: SceneOption) -> (r: SceneConfig)
    ensures
        scene_config_wf(r),
{
    match scene {
        SceneOption::Random => crate::scenes::random::scene(rng),
        SceneOption::TwoSpheres => crate::scenes::two_spheres::scene(rng),
        SceneOption::TwoPerlinSpheres => crate::scenes::two_perlin_spheres::scene(rng),
    }
}

/// The camera every preset uses.
pub fn preset_camera(aperture: i64) -> (r: CameraConfig)
    requires
        0 <= aperture <= 2 * FX_ONE,
    ensures
        camera_config_wf(r),
        r.aperture == aperture,
{
    CameraConfig {
        look_from: crate::vec3::Vec3 { x: 13 * FX_ONE, y: 2 * FX_ONE, z: 3 * FX_ONE },
        look_at: crate::vec3::Vec3 { x: 0, y: 0, z: 0 },
        view_up: crate::vec3::Vec3 { x: 0, y: FX_ONE, z: 0 },
        vertical_field_of_view_degrees: 20 * FX_ONE,
        aspect_ratio: 98304,
        aperture,
        focus_distance: 10 * FX_ONE,
    }
}

} // verus!
