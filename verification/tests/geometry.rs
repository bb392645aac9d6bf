//! Rays, boxes, transforms and the sphere intersection.

use ray_math::aabb::Aabb;
use ray_math::fx::FX_ONE;
use ray_math::material::lambertian::Lambertian;
use ray_math::material::Material;
use ray_math::ray::Ray;
use ray_math::sphere::Sphere;
use ray_math::texture::solid_color::SolidColor;
use ray_math::texture::Texture;
use ray_math::transform::{LerpTransform, StaticTransform, Transform};
use ray_math::vec3::Vec3;

fn plain_material() -> Material {
    Material::Lambertian(Lambertian::new(Texture::Solid(SolidColor::new(Vec3::new(
        32768, 32768, 32768,
    )))))
}

fn unit_sphere_at(x: i64, y: i64, z: i64, radius: i64) -> Sphere {
    Sphere::from(
        Transform::Static(StaticTransform::new(Vec3::new(x, y, z))),
        radius,
        plain_material(),
    )
}

#[test]
fn ray_evaluates_its_parametric_point() {
    let r = Ray::new(Vec3::new(FX_ONE, 0, 0), Vec3::new(0, 2 * FX_ONE, 0), 0);
    let p = r.at(3 * FX_ONE);
    assert_eq!((p.x(), p.y(), p.z()), (FX_ONE, 6 * FX_ONE, 0));
}

#[test]
fn static_transform_ignores_time() {
    let t = Transform::Static(StaticTransform::new(Vec3::new(FX_ONE, 2 * FX_ONE, 0)));
    let p = t.position(12345);
    assert_eq!((p.x(), p.y(), p.z()), (FX_ONE, 2 * FX_ONE, 0));
}

#[test]
fn lerp_transform_interpolates_endpoints_and_midpoint() {
    let t = Transform::Lerp(LerpTransform::new(
        Vec3::new(0, 0, 0),
        Vec3::new(2 * FX_ONE, 0, 0),
        0,
        FX_ONE,
    ));
    assert_eq!(t.position(0).x(), 0);
    assert_eq!(t.position(FX_ONE).x(), 2 * FX_ONE);
    assert_eq!(t.position(32768).x(), FX_ONE);
}

#[test]
fn slab_test_hits_a_box_ahead_of_the_ray() {
    let b = Aabb::new(
        Vec3::new(-FX_ONE, -FX_ONE, -3 * FX_ONE),
        Vec3::new(FX_ONE, FX_ONE, -2 * FX_ONE),
    );
    let toward = Ray::new(Vec3::new(0, 0, 0), Vec3::new(0, 0, -FX_ONE), 0);
    assert!(b.hit(&toward, 0, 100 * FX_ONE));
    // behind the window
    assert!(!b.hit(&toward, 0, FX_ONE));
    // pointing away
    let away = Ray::new(Vec3::new(0, 0, 0), Vec3::new(0, 0, FX_ONE), 0);
    assert!(!away.direction().nearly_zero() && !b.hit(&away, 0, 100 * FX_ONE));
    // an empty window never hits
    assert!(!b.hit(&toward, 3 * FX_ONE, 3 * FX_ONE));
}

#[test]
fn slab_test_handles_axis_parallel_rays() {
    let b = Aabb::new(
        Vec3::new(-FX_ONE, -FX_ONE, -3 * FX_ONE),
        Vec3::new(FX_ONE, FX_ONE, -2 * FX_ONE),
    );
    // parallel to the box's x slab, inside it
    let inside = Ray::new(Vec3::new(0, 0, 0), Vec3::new(0, 0, -FX_ONE), 0);
    assert!(b.hit(&inside, 0, 100 * FX_ONE));
    // parallel but offset outside the x slab
    let outside = Ray::new(Vec3::new(2 * FX_ONE, 0, 0), Vec3::new(0, 0, -FX_ONE), 0);
    assert!(!b.hit(&outside, 0, 100 * FX_ONE));
}

#[test]
fn surround_contains_both_and_is_idempotent() {
    let a = Aabb::new(Vec3::new(0, 0, 0), Vec3::new(FX_ONE, FX_ONE, FX_ONE));
    let b = Aabb::new(
        Vec3::new(-FX_ONE, 32768, 0),
        Vec3::new(32768, 2 * FX_ONE, FX_ONE),
    );
    let u = Aabb::surround(&a, &b);
    assert_eq!((u.min().x(), u.min().y(), u.min().z()), (-FX_ONE, 0, 0));
    assert_eq!(
        (u.max().x(), u.max().y(), u.max().z()),
        (FX_ONE, 2 * FX_ONE, FX_ONE)
    );
    let same = Aabb::surround(&a, &a);
    assert_eq!(same.min(), a.min());
    assert_eq!(same.max(), a.max());
}

#[test]
fn sphere_root_selection_takes_the_near_root() {
    // ray along -z from the origin toward a unit sphere at (0,0,-5):
    // hits at exactly t = 4
    let s = unit_sphere_at(0, 0, -5 * FX_ONE, FX_ONE);
    let r = Ray::new(Vec3::new(0, 0, 0), Vec3::new(0, 0, -FX_ONE), 0);
    let hit = s.hit(&r, 0, 100 * FX_ONE).expect("analytic hit");
    assert_eq!(hit.t(), 4 * FX_ONE);
    assert_eq!(
        (hit.point().x(), hit.point().y(), hit.point().z()),
        (0, 0, -4 * FX_ONE)
    );
    // outward normal back toward the ray
    assert_eq!(
        (hit.normal().x(), hit.normal().y(), hit.normal().z()),
        (0, 0, FX_ONE)
    );
    assert!(hit.front_face());
}

#[test]
fn sphere_root_selection_falls_back_to_the_far_root() {
    // from the center of the sphere the near root is behind the window
    let s = unit_sphere_at(0, 0, -5 * FX_ONE, FX_ONE);
    let r = Ray::new(Vec3::new(0, 0, -5 * FX_ONE), Vec3::new(0, 0, -FX_ONE), 0);
    let hit = s.hit(&r, 0, 100 * FX_ONE).expect("far root in range");
    assert_eq!(hit.t(), FX_ONE);
    // the ray leaves through the inside: the stored normal is flipped
    assert!(!hit.front_face());
}

#[test]
fn sphere_misses_when_both_roots_are_outside_the_window() {
    let s = unit_sphere_at(0, 0, -5 * FX_ONE, FX_ONE);
    let r = Ray::new(Vec3::new(0, 0, -5 * FX_ONE), Vec3::new(0, 0, -FX_ONE), 0);
    assert!(s.hit(&r, 0, 32768).is_none());
}

#[test]
fn sphere_misses_on_negative_discriminant() {
    let s = unit_sphere_at(0, 0, -5 * FX_ONE, FX_ONE);
    let r = Ray::new(Vec3::new(0, 0, 0), Vec3::new(0, 0, FX_ONE), 0);
    assert!(s.hit(&r, 0, 100 * FX_ONE).is_none());
}

#[test]
fn normals_always_face_the_incoming_ray() {
    let s = unit_sphere_at(0, 0, -5 * FX_ONE, FX_ONE);
    let dirs = [
        Vec3::new(0, 0, -FX_ONE),
        Vec3::new(6554, 0, -FX_ONE),
        Vec3::new(-6554, 3277, -FX_ONE),
    ];
    for d in dirs.iter() {
        if let Some(hit) = s.hit(&Ray::new(Vec3::new(0, 0, 0), *d, 0), 0, 100 * FX_ONE) {
            assert!(d.dot(&hit.normal()) <= 0);
        }
    }
    // also from inside, where the geometric normal must be flipped
    let inner = Ray::new(Vec3::new(0, 0, -5 * FX_ONE), Vec3::new(0, FX_ONE, 0), 0);
    let hit = s.hit(&inner, 0, 100 * FX_ONE).expect("leaves the sphere");
    assert!(inner.direction().dot(&hit.normal()) <= 0);
}

#[test]
fn sphere_surface_coordinates_hit_the_axis_anchors() {
    // <1 0 0> -> (0.50, 0.50)    <-1  0  0> -> (0.00, 0.50)
    // <0 1 0> -> (0.50, 1.00)    < 0 -1  0> -> (0.50, 0.00)
    // <0 0 1> -> (0.25, 0.50)    < 0  0 -1> -> (0.75, 0.50)
    let half = 32768;
    assert_eq!(Sphere::get_uv(&Vec3::new(FX_ONE, 0, 0)), (half, half));
    assert_eq!(Sphere::get_uv(&Vec3::new(-FX_ONE, 0, 0)), (0, half));
    assert_eq!(Sphere::get_uv(&Vec3::new(0, FX_ONE, 0)), (half, FX_ONE));
    assert_eq!(Sphere::get_uv(&Vec3::new(0, -FX_ONE, 0)), (half, 0));
    assert_eq!(Sphere::get_uv(&Vec3::new(0, 0, FX_ONE)), (16384, half));
    assert_eq!(Sphere::get_uv(&Vec3::new(0, 0, -FX_ONE)), (49152, half));
}

#[test]
fn moving_sphere_box_covers_both_endpoints() {
    let s = Sphere::from(
        Transform::Lerp(LerpTransform::new(
            Vec3::new(0, 0, 0),
            Vec3::new(2 * FX_ONE, 0, 0),
            0,
            FX_ONE,
        )),
        FX_ONE,
        plain_material(),
    );
    let b = s.bounding_box(0, FX_ONE);
    assert_eq!((b.min().x(), b.max().x()), (-FX_ONE, 3 * FX_ONE));
    assert_eq!((b.min().y(), b.max().y()), (-FX_ONE, FX_ONE));
}
