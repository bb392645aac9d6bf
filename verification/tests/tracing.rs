//! Lists, BVH traversal, the integrator, and whole-scene checks.

use ray_math::bvh_node::BvhNode;
use ray_math::camera::{Camera, CameraConfig};
use ray_math::fx::FX_ONE;
use ray_math::hittable::Hittable;
use ray_math::hittable_list::HittableList;
use ray_math::material::lambertian::Lambertian;
use ray_math::material::Material;
use ray_math::ray::Ray;
use ray_math::render::{ray_color, render_pixel, sky};
use ray_math::scenes::{make_scene, wrap_root, SceneOption};
use ray_math::sphere::Sphere;
use ray_math::texture::solid_color::SolidColor;
use ray_math::texture::Texture;
use ray_math::transform::{StaticTransform, Transform};
use ray_math::vec3::Vec3;

fn grey() -> Material {
    Material::Lambertian(Lambertian::new(Texture::Solid(SolidColor::new(Vec3::new(
        32768, 32768, 32768,
    )))))
}

fn ball(x: i64, y: i64, z: i64, radius: i64) -> Hittable {
    Hittable::Sphere(Sphere::from(
        Transform::Static(StaticTransform::new(Vec3::new(x, y, z))),
        radius,
        grey(),
    ))
}

#[test]
fn empty_list_never_hits() {
    let world = Hittable::List(HittableList::new());
    let r = Ray::new(Vec3::new(0, 0, 0), Vec3::new(0, 0, -FX_ONE), 0);
    assert!(world.hit(&r, 0, 100 * FX_ONE).is_none());
}

#[test]
fn list_scan_keeps_the_closest_hit() {
    let mut list = HittableList::new();
    list.add(ball(0, 0, -9 * FX_ONE, FX_ONE));
    list.add(ball(0, 0, -5 * FX_ONE, FX_ONE));
    assert_eq!(list.len(), 2);
    let world = Hittable::List(list);
    let r = Ray::new(Vec3::new(0, 0, 0), Vec3::new(0, 0, -FX_ONE), 0);
    let hit = world.hit(&r, 0, 100 * FX_ONE).expect("two candidates");
    assert_eq!(hit.t(), 4 * FX_ONE);
}

#[test]
fn bvh_agrees_with_the_linear_scan() {
    // the same five spheres, once behind a BVH and once as a flat list
    let centers = [
        (0i64, 0i64, -5i64),
        (2, 1, -8),
        (-3, 0, -6),
        (1, -1, -12),
        (-1, 2, -4),
    ];
    let mut rng = rand::thread_rng();
    let mut for_tree: Vec<Hittable> = Vec::new();
    let mut flat = HittableList::new();
    for &(x, y, z) in centers.iter() {
        for_tree.push(ball(x * FX_ONE, y * FX_ONE, z * FX_ONE, FX_ONE));
        flat.add(ball(x * FX_ONE, y * FX_ONE, z * FX_ONE, FX_ONE));
    }
    let tree = Hittable::Bvh(Box::new(BvhNode::new(
        &mut rng,
        HittableList::from(for_tree),
        0,
        FX_ONE,
    )));
    let list = Hittable::List(flat);
    let dirs = [
        (0i64, 0i64, -FX_ONE),
        (6554, 0, -FX_ONE),
        (-19661, 3277, -FX_ONE),
        (0, FX_ONE, 0),
        (32768, -6554, -FX_ONE),
    ];
    for &(dx, dy, dz) in dirs.iter() {
        let r = Ray::new(Vec3::new(0, 0, 0), Vec3::new(dx, dy, dz), 0);
        let from_tree = tree.hit(&r, 66, 100 * FX_ONE);
        let from_list = list.hit(&r, 66, 100 * FX_ONE);
        match (from_tree, from_list) {
            (Some(a), Some(b)) => assert_eq!(a.t(), b.t()),
            (None, None) => {}
            _ => panic!("BVH and linear scan disagree on hit existence"),
        }
    }
}

#[test]
fn ray_color_returns_zero_radiance_at_depth_zero() {
    let mut rng = rand::thread_rng();
    let world = ball(0, 0, -5 * FX_ONE, FX_ONE);
    let r = Ray::new(Vec3::new(0, 0, 0), Vec3::new(0, 0, -FX_ONE), 0);
    let c = ray_color(&r, &mut rng, &world, 0);
    assert_eq!((c.x(), c.y(), c.z()), (0, 0, 0));
}

#[test]
fn ray_color_misses_into_the_sky_gradient() {
    let mut rng = rand::thread_rng();
    let world = ball(0, 0, -5 * FX_ONE, FX_ONE);
    // a level ray far from the sphere: unit y = 0, so the blend is 0.5
    let r = Ray::new(Vec3::new(0, 3 * FX_ONE, 0), Vec3::new(FX_ONE, 0, -FX_ONE), 0);
    let c = ray_color(&r, &mut rng, &world, 8);
    assert_eq!((c.x(), c.y(), c.z()), (49152, 55705, FX_ONE));
    // and it equals the sky function itself
    let s = sky(&r);
    assert_eq!((s.x(), s.y(), s.z()), (c.x(), c.y(), c.z()));
    // straight up: full sky blue
    let up = Ray::new(Vec3::new(0, 0, 0), Vec3::new(0, FX_ONE, 0), 0);
    let cu = ray_color(&up, &mut rng, &world, 8);
    assert_eq!((cu.x(), cu.y(), cu.z()), (32768, 45875, FX_ONE));
}

#[test]
fn two_sphere_scene_shows_background_off_axis_and_absorbs_at_budget_one() {
    // the concrete scenario: ground radius 100 at (0,-100.5,-1),
    // foreground radius 0.5 at (0,0,-1), camera at the origin
    let mut rng = rand::thread_rng();
    let mut list = HittableList::new();
    list.add(ball(0, -6586368, -FX_ONE, 100 * FX_ONE)); // y = -100.5
    list.add(ball(0, 0, -FX_ONE, 32768));
    let world = Hittable::List(list);

    let cfg = CameraConfig {
        look_from: Vec3::new(0, 0, 0),
        look_at: Vec3::new(0, 0, -FX_ONE),
        view_up: Vec3::new(0, FX_ONE, 0),
        vertical_field_of_view_degrees: 90 * FX_ONE,
        aspect_ratio: FX_ONE,
        aperture: 0,
        focus_distance: FX_ONE,
    };
    let camera = Camera::new(cfg);

    // the centered ray runs straight down -z and hits the foreground
    // sphere at t = 0.5; with a budget of one bounce the diffuse hit
    // gathers no light
    let center = camera.get_ray(32768, 32768);
    assert_eq!(
        (center.direction().x(), center.direction().y(), center.direction().z()),
        (0, 0, -FX_ONE)
    );
    let hit = world.hit(&center, 66, 100 * FX_ONE).expect("foreground sphere");
    assert_eq!(hit.t(), 32768);
    // the closed-form normal shading 0.5 * (normal + 1) of that hit
    let shade = hit.normal().add(&Vec3::one()).scale(32768);
    assert_eq!((shade.x(), shade.y(), shade.z()), (32768, 32768, FX_ONE));
    let direct = ray_color(&center, &mut rng, &world, 1);
    assert_eq!((direct.x(), direct.y(), direct.z()), (0, 0, 0));

    // a ray out the top-right corner misses both spheres and shows the
    // background gradient exactly
    let corner = camera.get_ray(FX_ONE, FX_ONE);
    assert!(world.hit(&corner, 66, 100 * FX_ONE).is_none());
    let c = ray_color(&corner, &mut rng, &world, 1);
    let s = sky(&corner);
    assert_eq!((c.x(), c.y(), c.z()), (s.x(), s.y(), s.z()));
    // its direction is (1, 1, -1): unit y = 1/sqrt(3), blend t = (1 + 0.57735) / 2
    assert_eq!(corner.direction().x(), FX_ONE);
    assert_eq!(corner.direction().y(), FX_ONE);
    assert_eq!(corner.direction().z(), -FX_ONE);
}

#[test]
fn rendered_pixels_stay_in_display_range() {
    let mut rng = rand::thread_rng();
    let scene = make_scene(&mut rng, SceneOption::TwoSpheres);
    let camera = Camera::new(scene.camera);
    let world = wrap_root(scene.root);
    for (i, j) in [(0usize, 0usize), (3, 2), (7, 5)].iter() {
        let c = render_pixel(&mut rng, &camera, &world, *i, *j, 8, 6, 4, 8, 0, FX_ONE);
        assert!(0 <= c.x() && c.x() <= FX_ONE);
        assert!(0 <= c.y() && c.y() <= FX_ONE);
        assert!(0 <= c.z() && c.z() <= FX_ONE);
        let (r, g, b) = c.rgb8();
        assert!(r <= 255 && g <= 255 && b <= 255);
    }
}

#[test]
fn zero_bounce_budget_renders_black() {
    let mut rng = rand::thread_rng();
    let scene = make_scene(&mut rng, SceneOption::TwoSpheres);
    let camera = Camera::new(scene.camera);
    let world = wrap_root(scene.root);
    let c = render_pixel(&mut rng, &camera, &world, 1, 1, 4, 4, 3, 0, 0, FX_ONE);
    assert_eq!((c.x(), c.y(), c.z()), (0, 0, 0));
}

#[test]
fn all_miss_pixels_are_sky_bright_not_black() {
    // an empty world: every sample is the sky gradient, whose blue
    // channel is always full, so the averaged gamma-corrected pixel can
    // never be zero
    let mut rng = rand::thread_rng();
    let world = Hittable::List(HittableList::new());
    let cfg = CameraConfig {
        look_from: Vec3::new(0, 0, 0),
        look_at: Vec3::new(0, 0, -FX_ONE),
        view_up: Vec3::new(0, FX_ONE, 0),
        vertical_field_of_view_degrees: 90 * FX_ONE,
        aspect_ratio: FX_ONE,
        aperture: 0,
        focus_distance: FX_ONE,
    };
    let camera = Camera::new(cfg);
    for (i, j) in [(0usize, 0usize), (2, 1), (3, 3)].iter() {
        let c = render_pixel(&mut rng, &camera, &world, *i, *j, 4, 4, 4, 6, 0, 0);
        assert_eq!(c.z(), FX_ONE, "full sky blue in the blue channel");
        assert!(c.x() > 0 && c.y() > 0);
    }
}

#[test]
fn every_preset_builds_a_renderable_scene() {
    let mut rng = rand::thread_rng();
    for opt in [
        SceneOption::TwoSpheres,
        SceneOption::TwoPerlinSpheres,
        SceneOption::Random,
    ] {
        let scene = make_scene(&mut rng, opt);
        let camera = Camera::new(scene.camera);
        let world = wrap_root(scene.root);
        let c = render_pixel(&mut rng, &camera, &world, 2, 2, 6, 4, 2, 4, 0, FX_ONE);
        assert!(0 <= c.x() && c.x() <= FX_ONE);
    }
}
