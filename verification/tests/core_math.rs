//! Fixed-point scalar and vector arithmetic.

use ray_math::fx::{
    emod2, emod256, fx_clamp, fx_div, fx_floor, fx_floor_div, fx_fract, fx_max, fx_min, fx_mul,
    fx_sqrt, FX_ONE,
};
use ray_math::vec3::Vec3;

#[test]
fn mul_rounds_toward_zero_on_both_signs() {
    assert_eq!(fx_mul(3 * FX_ONE, 2 * FX_ONE), 6 * FX_ONE);
    assert_eq!(fx_mul(-3 * FX_ONE, 2 * FX_ONE), -6 * FX_ONE);
    // 1.5 * 0.5 = 0.75 exactly
    assert_eq!(fx_mul(98304, 32768), 49152);
    // (1/65536) * (1/65536) truncates to zero from either side
    assert_eq!(fx_mul(1, 1), 0);
    assert_eq!(fx_mul(-1, 1), 0);
}

#[test]
fn div_rounds_toward_zero_on_both_signs() {
    assert_eq!(fx_div(6 * FX_ONE, 2 * FX_ONE), 3 * FX_ONE);
    assert_eq!(fx_div(-6 * FX_ONE, 2 * FX_ONE), -3 * FX_ONE);
    assert_eq!(fx_div(FX_ONE, 3 * FX_ONE), 21845);
    assert_eq!(fx_div(-FX_ONE, 3 * FX_ONE), -21845);
}

#[test]
fn sqrt_is_exact_on_squares() {
    assert_eq!(fx_sqrt(FX_ONE), FX_ONE);
    assert_eq!(fx_sqrt(4 * FX_ONE), 2 * FX_ONE);
    assert_eq!(fx_sqrt(0), 0);
    // sqrt(2) = 92681.9... truncated
    assert_eq!(fx_sqrt(2 * FX_ONE), 92681);
}

#[test]
fn floor_and_fract_on_negatives() {
    assert_eq!(fx_floor(3 * FX_ONE + 5), 3);
    assert_eq!(fx_floor(-3 * FX_ONE - 5), -4);
    assert_eq!(fx_fract(3 * FX_ONE + 5), 5);
    assert_eq!(fx_fract(-3 * FX_ONE - 5), FX_ONE - 5);
    assert_eq!(fx_floor_div(7, 2), 3);
    assert_eq!(fx_floor_div(-7, 2), -4);
}

#[test]
fn euclidean_remainders() {
    assert_eq!(emod256(300), 44);
    assert_eq!(emod256(-1), 255);
    assert_eq!(emod256(-256), 0);
    assert_eq!(emod2(-3), 1);
    assert_eq!(emod2(-4), 0);
}

#[test]
fn clamp_min_max() {
    assert_eq!(fx_clamp(5, 0, 3), 3);
    assert_eq!(fx_clamp(-5, 0, 3), 0);
    assert_eq!(fx_clamp(2, 0, 3), 2);
    assert_eq!(fx_min(2, 3), 2);
    assert_eq!(fx_max(2, 3), 3);
}

#[test]
fn vector_arithmetic() {
    let a = Vec3::new(FX_ONE, 2 * FX_ONE, 3 * FX_ONE);
    let b = Vec3::new(4 * FX_ONE, 5 * FX_ONE, 6 * FX_ONE);
    let s = a.add(&b);
    assert_eq!((s.x(), s.y(), s.z()), (5 * FX_ONE, 7 * FX_ONE, 9 * FX_ONE));
    let d = b.sub(&a);
    assert_eq!((d.x(), d.y(), d.z()), (3 * FX_ONE, 3 * FX_ONE, 3 * FX_ONE));
    // 1*4 + 2*5 + 3*6 = 32
    assert_eq!(a.dot(&b), 32 * FX_ONE);
    let c = a.cross(&b);
    assert_eq!((c.x(), c.y(), c.z()), (-3 * FX_ONE, 6 * FX_ONE, -3 * FX_ONE));
    let n = a.neg();
    assert_eq!(n.x(), -FX_ONE);
    let m = a.mul(&b);
    assert_eq!((m.x(), m.y(), m.z()), (4 * FX_ONE, 10 * FX_ONE, 18 * FX_ONE));
    assert_eq!(a.length_squared(), 14 * FX_ONE);
}

#[test]
fn normalization_gives_unit_axes() {
    let v = Vec3::new(0, 5 * FX_ONE, 0);
    let u = v.normalized();
    assert_eq!((u.x(), u.y(), u.z()), (0, FX_ONE, 0));
    let w = Vec3::new(3 * FX_ONE, 4 * FX_ONE, 0);
    assert_eq!(w.length(), 5 * FX_ONE);
}

#[test]
fn reflect_mirrors_about_the_normal() {
    // (1, -1, 0) off the y-up plane goes to (1, 1, 0)
    let v = Vec3::new(FX_ONE, -FX_ONE, 0);
    let n = Vec3::new(0, FX_ONE, 0);
    let r = Vec3::reflect(&v, &n);
    assert_eq!((r.x(), r.y(), r.z()), (FX_ONE, FX_ONE, 0));
}

#[test]
fn lerp_blends_endpoints() {
    let a = Vec3::new(0, 0, 0);
    let b = Vec3::new(FX_ONE, FX_ONE, FX_ONE);
    let mid = Vec3::lerp(a, b, 32768);
    assert_eq!((mid.x(), mid.y(), mid.z()), (32768, 32768, 32768));
    let at_b = Vec3::lerp(a, b, FX_ONE);
    assert_eq!(at_b.x(), FX_ONE);
}

#[test]
fn nearly_zero_is_exact_zero_in_fixed_point() {
    assert!(Vec3::new(0, 0, 0).nearly_zero());
    assert!(!Vec3::new(1, 0, 0).nearly_zero());
}

#[test]
fn display_channels_clamp_to_byte_range() {
    // floor(255.999 * clamp(v, 0, 0.999))
    assert_eq!(Vec3::channel_8bit(0), 0);
    assert_eq!(Vec3::channel_8bit(-FX_ONE), 0);
    assert_eq!(Vec3::channel_8bit(FX_ONE), 255);
    assert_eq!(Vec3::channel_8bit(10 * FX_ONE), 255);
    assert_eq!(Vec3::channel_8bit(32768), 127);
    let (r, g, b) = Vec3::new(0, 32768, 2 * FX_ONE).rgb8();
    assert_eq!((r, g, b), (0, 127, 255));
}

#[test]
fn random_vectors_respect_their_ranges() {
    let mut rng = rand::thread_rng();
    for _ in 0..50 {
        let v = Vec3::random(&mut rng, -FX_ONE, FX_ONE);
        assert!(-FX_ONE <= v.x() && v.x() <= FX_ONE);
        assert!(-FX_ONE <= v.y() && v.y() <= FX_ONE);
        assert!(-FX_ONE <= v.z() && v.z() <= FX_ONE);
        let p = Vec3::random_in_unit_sphere(&mut rng);
        assert!(p.length_squared() < FX_ONE);
        let d = Vec3::random_in_unit_disk(&mut rng);
        assert_eq!(d.z(), 0);
        assert!(d.length_squared() < FX_ONE);
        let u = Vec3::random_unit(&mut rng);
        // normalization keeps every component under its proven bound and
        // the direction nonzero
        let lsq = u.length_squared();
        assert!(lsq > 0 && lsq <= 27 * FX_ONE);
    }
}

#[test]
fn hemisphere_samples_face_the_normal() {
    let mut rng = rand::thread_rng();
    let n = Vec3::new(0, FX_ONE, 0);
    for _ in 0..50 {
        let p = Vec3::random_in_hemisphere(&mut rng, &n);
        assert!(p.dot(&n) >= 0);
    }
}
