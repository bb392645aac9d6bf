//! Textures, Perlin noise tables, and material scattering.

use ray_math::fx::FX_ONE;
use ray_math::material::dielectric::{dielectric_scatter_with, Dielectric};
use ray_math::material::lambertian::lambertian_dir;
use ray_math::material::metal::{metal_scatter_with, Metal};
use ray_math::ray::Ray;
use ray_math::texture::checkered::Checkered;
use ray_math::texture::noise::{Noise, Perlin};
use ray_math::texture::solid_color::SolidColor;
use ray_math::texture::Texture;
use ray_math::vec3::Vec3;

fn checker() -> Texture {
    let even = Texture::Solid(SolidColor::new(Vec3::new(FX_ONE, 0, 0)));
    let odd = Texture::Solid(SolidColor::new(Vec3::new(0, FX_ONE, 0)));
    Texture::Checkered(Checkered::new(Box::new(even), Box::new(odd)))
}

#[test]
fn solid_texture_is_constant() {
    let t = Texture::Solid(SolidColor::new(Vec3::new(13107, 19661, 6554)));
    let c = t.value((0, 0), &Vec3::new(5 * FX_ONE, -3 * FX_ONE, FX_ONE));
    assert_eq!((c.x(), c.y(), c.z()), (13107, 19661, 6554));
}

#[test]
fn checker_alternates_between_cells() {
    let t = checker();
    // scale is 10; the first sine half-period along +x ends at pi/10
    // so x = 0.1 is even territory and x = 0.4 is odd territory
    let even_point = Vec3::new(6554, 3277, 3277);
    let odd_point = Vec3::new(26214, 3277, 3277);
    let ce = t.value((0, 0), &even_point);
    let co = t.value((0, 0), &odd_point);
    assert_eq!((ce.x(), ce.y(), ce.z()), (FX_ONE, 0, 0));
    assert_eq!((co.x(), co.y(), co.z()), (0, FX_ONE, 0));
}

#[test]
fn perlin_tables_are_permutations() {
    let mut rng = rand::thread_rng();
    for _ in 0..4 {
        let p = Perlin::perlin_generate_perm(&mut rng);
        assert_eq!(p.len(), 256);
        let mut seen = [false; 256];
        for v in p.iter() {
            assert!(!seen[*v as usize], "duplicate table entry");
            seen[*v as usize] = true;
        }
        assert!(seen.iter().all(|s| *s), "missing table entry");
    }
}

#[test]
fn noise_texture_stays_in_the_unit_range() {
    let mut rng = rand::thread_rng();
    let n = Texture::Noise(Noise::new(&mut rng, 4 * FX_ONE));
    for k in 0..40i64 {
        let p = Vec3::new(k * 13107 - 3 * FX_ONE, k * 6554, -k * 9830);
        let c = n.value((0, 0), &p);
        assert!(0 <= c.x() && c.x() <= FX_ONE);
        assert_eq!(c.x(), c.y());
        assert_eq!(c.y(), c.z());
    }
}

#[test]
fn lambertian_direction_falls_back_on_degenerate_sums() {
    let normal = Vec3::new(0, FX_ONE, 0);
    // a sample exactly opposite the normal cancels: the bare normal stands in
    let cancel = Vec3::new(0, -FX_ONE, 0);
    let d = lambertian_dir(&normal, &cancel);
    assert_eq!((d.x(), d.y(), d.z()), (0, FX_ONE, 0));
    // otherwise the sum is used
    let s = Vec3::new(32768, 0, 0);
    let d2 = lambertian_dir(&normal, &s);
    assert_eq!((d2.x(), d2.y(), d2.z()), (32768, FX_ONE, 0));
}

#[test]
fn metal_reflects_and_absorbs_grazing_fuzz() {
    let m = Metal::new(Vec3::new(45875, 39322, 32768), 0);
    let normal = Vec3::new(0, FX_ONE, 0);
    let point = Vec3::new(0, 0, 0);
    let ray_in = Ray::new(Vec3::new(-FX_ONE, FX_ONE, 0), Vec3::new(FX_ONE, -FX_ONE, 0), 7);
    // zero fuzz: the mirror direction comes back, with the albedo and
    // the incoming ray's time
    let sr = metal_scatter_with(&m, point, normal, &ray_in, Vec3::new(0, 0, 0))
        .expect("reflection leaves the surface");
    assert!(sr.scattered.direction().y() > 0);
    assert_eq!(sr.scattered.time(), 7);
    assert_eq!(sr.attenuation.x(), 45875);
    // a fuzz sample can push the direction into the surface: absorbed
    let fuzzy = Metal::new(Vec3::new(45875, 39322, 32768), FX_ONE);
    let burrow = Vec3::new(0, -FX_ONE + 1, 0);
    assert!(metal_scatter_with(&fuzzy, point, normal, &ray_in, burrow).is_none());
}

#[test]
fn dielectric_refracts_head_on_and_reflects_past_the_critical_angle() {
    let glass = Dielectric::new(98304);  // index 1.5
    let normal = Vec3::new(0, FX_ONE, 0);
    let point = Vec3::new(0, 0, 0);
    // straight down onto the surface from outside: no total internal
    // reflection, and a draw of 1.0 never picks the reflectance branch,
    // so the ray refracts straight through
    let down = Ray::new(Vec3::new(0, FX_ONE, 0), Vec3::new(0, -FX_ONE, 0), 3);
    let sr = dielectric_scatter_with(&glass, true, point, normal, &down, FX_ONE);
    assert!(sr.scattered.direction().y() < 0);
    assert_eq!(sr.scattered.time(), 3);
    assert_eq!(
        (sr.attenuation.x(), sr.attenuation.y(), sr.attenuation.z()),
        (FX_ONE, FX_ONE, FX_ONE)
    );
    // leaving the glass at a shallow angle: past the critical angle the
    // ray must reflect back below the surface
    let shallow = Ray::new(
        Vec3::new(0, -FX_ONE, 0),
        Vec3::new(FX_ONE, 13107, 0),
        0,
    );
    let up_normal = Vec3::new(0, -FX_ONE, 0);
    let sr2 = dielectric_scatter_with(&glass, false, point, up_normal, &shallow, FX_ONE);
    assert!(sr2.scattered.direction().y() < 0);
}

#[test]
fn dielectric_draw_zero_always_reflects() {
    // Schlick reflectance is positive, so a draw of zero loses to it
    let glass = Dielectric::new(98304);
    let normal = Vec3::new(0, FX_ONE, 0);
    let down = Ray::new(Vec3::new(0, FX_ONE, 0), Vec3::new(0, -FX_ONE, 0), 0);
    let sr = dielectric_scatter_with(&glass, true, Vec3::new(0, 0, 0), normal, &down, 0);
    assert!(sr.scattered.direction().y() > 0);
}
