//! The camera: an orthonormal basis from look-from/look-at/up, a viewport
//! scaled by the field of view and focus distance, and per-sample rays
//! with lens and shutter jitter.
//!
//! The tangent of the half field of view is computed as a ratio of the
//! classical rational sine approximation `sin x = 4x(180 - x) /
//! (40500 - x(180 - x))` (degrees), which is exact at 0, 30, 90 and 180
//! degrees; at a 90 degree field of view the tangent is exactly one.

use crate::fx::{
    fx_div, fx_div_spec, fx_mul, fx_mul_spec, iabs, lemma_fx_mul_bound, lemma_tdiv_le_of,
    lemma_tdiv_mono, lemma_tdiv_nonneg, tdiv, FX_ONE, GEOM_MAX, WORLD_MAX,
};
use crate::ray::Ray;
use crate::rng::rand_fx;
use crate::vec3::{
    spec_add, spec_cross, spec_dot, spec_normalized, spec_scale, spec_sub, v3, vec_bounded,
    Point3, Vec3, UNIT_MAX,
};
use vstd::arithmetic::div_mod::{lemma_div_by_multiple, lemma_div_is_ordered, lemma_div_is_ordered_by_denominator};
use vstd::prelude::*;

verus! {

pub struct CameraConfig {
    pub look_from: Point3,
    pub look_at: Point3,
    pub view_up: Vec3,
    pub vertical_field_of_view_degrees: i64,
    pub aspect_ratio: i64,
    pub aperture: i64,
    pub focus_distance: i64,
}

pub struct Camera {
    pub origin: Point3,
    pub lower_left_corner: Point3,
    pub horizontal: Vec3,
    pub vertical: Vec3,
    pub u: Vec3,
    pub v: Vec3,
    pub lens_radius: i64,
}

/// The plain bounds a configuration must satisfy so that every derived
/// camera vector stays inside the numeric world.
///
/// A stated limitation: the caps below (field of view at 90 degrees,
/// aspect at 4, focus at 10.5, positions at 128 units) are one chosen
/// point of the overflow budget, not forced individually.  The budget
/// is their product: every generated ray direction must stay under the
/// world bound the sphere quadratic needs, and with the slack of the
/// proven normalization bounds a wider field of view would have to buy
/// its room from the aspect, focus or position caps.
pub open spec fn camera_config_wf(cfg: CameraConfig) -> bool {
    &&& vec_bounded(cfg.look_from, 0x80_0000)
    &&& vec_bounded(cfg.look_at, 0x80_0000)
    &&& vec_bounded(cfg.view_up, 0x40000)
    &&& FX_ONE <= cfg.vertical_field_of_view_degrees <= 90 * FX_ONE
    &&& 16384 <= cfg.aspect_ratio <= 4 * FX_ONE
    &&& 0 <= cfg.aperture <= 2 * FX_ONE
    &&& FX_ONE <= cfg.focus_distance <= 0xA_8000
}

/// The field bounds `Camera::new` establishes and ray generation needs.
pub open spec fn camera_bounded(c: Camera) -> bool {
    &&& vec_bounded(c.origin, 0x80_0000)
    &&& vec_bounded(c.lower_left_corner, 0x140_0000)
    &&& vec_bounded(c.horizontal, 0x100_0000)
    &&& vec_bounded(c.vertical, 0x40_0000)
    &&& vec_bounded(c.u, UNIT_MAX as int)
    &&& vec_bounded(c.v, UNIT_MAX as int)
    &&& 0 <= c.lens_radius <= FX_ONE
}

/// The rational sine, in fixed-point degrees.
pub open spec fn spec_sin_deg(x: int) -> int {
    let p = fx_mul_spec(x, 180 * (FX_ONE as int) - x);
    fx_div_spec(4 * p, 40500 * (FX_ONE as int) - p)
}

/// `tan(v/2) = sin(v/2) / sin(90 - v/2)`.
pub open spec fn spec_tan_half(vfov: int) -> int {
    let x = vfov / 2;
    fx_div_spec(spec_sin_deg(x), spec_sin_deg(90 * (FX_ONE as int) - x))
}

/// A unit direction when the difference has measurable length, else a
/// fixed axis (the degenerate-configuration policy).
pub open spec fn spec_unit_or(d: Vec3, fallback: Vec3) -> Vec3 {
    if spec_dot(d, d) >= 1 {
        spec_normalized(d)
    } else {
        fallback
    }
}

/// Exactly the camera `Camera::new` derives from a configuration.
pub open spec fn spec_camera(cfg: CameraConfig) -> Camera {
    let h = spec_tan_half(cfg.vertical_field_of_view_degrees as int);
    let viewport_height = 2 * h;
    let viewport_width = fx_mul_spec(cfg.aspect_ratio as int, viewport_height);
    let w = spec_unit_or(spec_sub(cfg.look_from, cfg.look_at), v3(0, 0, FX_ONE as int));
    let u = spec_unit_or(spec_cross(cfg.view_up, w), v3(FX_ONE as int, 0, 0));
    let v = spec_unit_or(spec_cross(w, u), v3(0, FX_ONE as int, 0));
    let horizontal = spec_scale(u, fx_mul_spec(cfg.focus_distance as int, viewport_width));
    let vertical = spec_scale(v, fx_mul_spec(cfg.focus_distance as int, viewport_height));
    let fw = spec_scale(w, cfg.focus_distance as int);
    Camera {
        origin: cfg.look_from,
        lower_left_corner: spec_sub(
            spec_sub(spec_sub(cfg.look_from, spec_scale(horizontal, 32768)), spec_scale(vertical, 32768)),
            fw,
        ),
        horizontal,
        vertical,
        u,
        v,
        lens_radius: fx_mul_spec(cfg.aperture as int, 32768) as i64,
    }
}

/// The sine approximation is in `[0, 1]` and monotone on `[0, 90]`.
proof fn lemma_sin_deg_range(x: int)
    requires
        0 <= x <= 90 * FX_ONE,
    ensures
        0 <= spec_sin_deg(x) <= FX_ONE,
        fx_mul_spec(x, 180 * (FX_ONE as int) - x) <= 8100 * (FX_ONE as int),
        fx_mul_spec(x, 180 * (FX_ONE as int) - x) >= 0,
{
    let f = FX_ONE as int;
    let num = x * (180 * f - x);
    assert(0 <= num <= (8100 * f) * f) by (nonlinear_arith)
        requires
            0 <= x <= 90 * f,
            f == 65536,
            num == x * (180 * f - x),
    ;
    lemma_tdiv_le_of(num, f, 8100 * f);
    let p = fx_mul_spec(x, 180 * f - x);
    assert(p == tdiv(num, f));
    assert(0 <= 4 * p * f <= f * (40500 * f - p)) by (nonlinear_arith)
        requires
            0 <= p <= 8100 * f,
            f == 65536,
    ;
    lemma_tdiv_le_of(4 * p * f, 40500 * f - p, f);
}

/// On `[45, 90]` degrees the sine stays above 0.4.
proof fn lemma_sin_deg_lower(x: int)
    requires
        45 * FX_ONE <= x <= 90 * FX_ONE,
    ensures
        spec_sin_deg(x) >= 26214,
{
    let f = FX_ONE as int;
    let num = x * (180 * f - x);
    assert((4050 * f) * f <= num <= (8100 * f) * f) by (nonlinear_arith)
        requires
            45 * f <= x <= 90 * f,
            f == 65536,
            num == x * (180 * f - x),
    ;
    let p = fx_mul_spec(x, 180 * f - x);
    lemma_tdiv_nonneg(num, f);
    lemma_div_is_ordered((4050 * f) * f, num, f);
    lemma_div_by_multiple(4050 * f, f);
    lemma_tdiv_le_of(num, f, 8100 * f);
    assert(p >= 4050 * f);
    // sin = 4 p f / (40500 f - p) >= 4 * 4050 f * f / 40500 f > 0.4 f
    let den = 40500 * f - p;
    assert(0 < den <= 36450 * f);
    lemma_tdiv_nonneg(4 * p * f, den);
    assert((16200 * f) * f <= 4 * p * f) by (nonlinear_arith)
        requires
            p >= 4050 * f,
            f == 65536,
    ;
    lemma_div_is_ordered((16200 * f) * f, 4 * p * f, den);
    lemma_div_is_ordered_by_denominator((16200 * f) * f, den, 36450 * f);
    assert(((16200 * f) * f) / (36450 * f) >= 26214) by (nonlinear_arith)
        requires
            f == 65536,
    ;
}

/// The sine numerator grows with the angle on `[0, 90]`.
proof fn lemma_sin_deg_mono(x1: int, x2: int)
    requires
        0 <= x1 <= x2 <= 90 * FX_ONE,
    ensures
        spec_sin_deg(x1) <= spec_sin_deg(x2),
{
    let f = FX_ONE as int;
    assert(x1 * (180 * f - x1) <= x2 * (180 * f - x2)) by (nonlinear_arith)
        requires
            0 <= x1 <= x2 <= 90 * f,
            f == 65536,
    ;
    lemma_tdiv_mono(x1 * (180 * f - x1), x2 * (180 * f - x2), f);
    let p1 = fx_mul_spec(x1, 180 * f - x1);
    let p2 = fx_mul_spec(x2, 180 * f - x2);
    lemma_sin_deg_range(x1);
    lemma_sin_deg_range(x2);
    lemma_tdiv_nonneg(4 * p1 * f, 40500 * f - p1);
    lemma_tdiv_nonneg(4 * p2 * f, 40500 * f - p2);
    lemma_div_is_ordered(4 * p1 * f, 4 * p2 * f, 40500 * f - p1);
    lemma_div_is_ordered_by_denominator(4 * p2 * f, 40500 * f - p2, 40500 * f - p1);
}

/// The executable sine.
fn sin_deg(x: i64) -> (r: i64)
    requires
        0 <= x <= 90 * FX_ONE,
    ensures
        r as int == spec_sin_deg(x as int),
        0 <= r <= FX_ONE,
{
    proof {
        lemma_sin_deg_range(x as int);
        lemma_fx_mul_bound(x as int, 180 * (FX_ONE as int) - x, 90 * (FX_ONE as int), 180 * (FX_ONE as int));
    }
    let p: i64 = fx_mul(x, 180 * FX_ONE - x);
    proof {
        let f = FX_ONE as int;
        lemma_tdiv_nonneg((4 * p as int) * f, 40500 * f - p as int);
        crate::fx::lemma_tdiv_abs_le((4 * p as int) * f, 40500 * f - p as int, 32400 * f * f);
        assert(iabs((4 * p as int) * f) <= 32400 * f * f) by (nonlinear_arith)
            requires
                0 <= p <= 8100 * f,
                f == 65536,
        ;
    }
    fx_div(4 * p, 40500 * FX_ONE - p)
}

/// The executable tangent of half the field of view; exactly one at a
/// 90 degree field of view.
fn tan_half(vfov: i64) -> (r: i64)
    requires
        FX_ONE <= vfov <= 90 * FX_ONE,
    ensures
        r as int == spec_tan_half(vfov as int),
        0 <= r <= FX_ONE,
        vfov == 90 * FX_ONE ==> r == FX_ONE,
{
    let x: i64 = ((vfov as u64) / 2) as i64;
    proof {
        assert(x as int == (vfov as int) / 2);
    }
    let sx: i64 = sin_deg(x);
    let sc: i64 = sin_deg(90 * FX_ONE - x);
    proof {
        lemma_sin_deg_lower(90 * (FX_ONE as int) - x as int);
        lemma_sin_deg_mono(x as int, 90 * (FX_ONE as int) - x as int);
        let f = FX_ONE as int;
        // sx <= sc, so the ratio stays at or below one
        lemma_tdiv_le_of((sx as int) * f, sc as int, f);
        assert((sx as int) * f <= f * (sc as int)) by (nonlinear_arith)
            requires
                sx <= sc,
                f == 65536,
        ;
        if vfov == 90 * FX_ONE {
            assert(x == 45 * FX_ONE);
            lemma_div_by_multiple(f, sc as int);
            assert(f * (sc as int) == (sc as int) * f) by (nonlinear_arith);
        }
    }
    fx_div(sx, sc)
}

impl Camera {
    /// Derives the basis and viewport from the configuration; a
    /// degenerate direction or up vector falls back to a fixed axis.
    #[verifier::rlimit(100)]
    pub fn new(cfg: CameraConfig) -> (r: Camera)
        requires
            camera_config_wf(cfg),
        ensures
            r == spec_camera(cfg),
            camera_bounded(r),
            r.origin == cfg.look_from,
            cfg.vertical_field_of_view_degrees == 90 * FX_ONE ==> spec_tan_half(
                cfg.vertical_field_of_view_degrees as int,
            ) == FX_ONE,
    {
        let h: i64 = tan_half(cfg.vertical_field_of_view_degrees);
        let viewport_height: i64 = 2 * h;
        proof {
            lemma_fx_mul_bound(cfg.aspect_ratio as int, viewport_height as int, 4 * (FX_ONE as int), 2 * (FX_ONE as int));
        }
        let viewport_width: i64 = fx_mul(cfg.aspect_ratio, viewport_height);

        let diff: Vec3 = cfg.look_from.sub(&cfg.look_at);
        let dsq: i64 = diff.length_squared();
        let w: Vec3 = if dsq >= 1 {
            diff.normalized()
        } else {
            Vec3 { x: 0, y: 0, z: FX_ONE }
        };
        let cu: Vec3 = cfg.view_up.cross(&w);
        proof {
            lemma_fx_mul_bound(cfg.view_up.x as int, w.y as int, 0x40000, UNIT_MAX as int);
            lemma_fx_mul_bound(cfg.view_up.x as int, w.z as int, 0x40000, UNIT_MAX as int);
            lemma_fx_mul_bound(cfg.view_up.y as int, w.x as int, 0x40000, UNIT_MAX as int);
            lemma_fx_mul_bound(cfg.view_up.y as int, w.z as int, 0x40000, UNIT_MAX as int);
            lemma_fx_mul_bound(cfg.view_up.z as int, w.x as int, 0x40000, UNIT_MAX as int);
            lemma_fx_mul_bound(cfg.view_up.z as int, w.y as int, 0x40000, UNIT_MAX as int);
        }
        let cusq: i64 = cu.length_squared();
        let u: Vec3 = if cusq >= 1 {
            cu.normalized()
        } else {
            Vec3 { x: FX_ONE, y: 0, z: 0 }
        };
        let cv: Vec3 = w.cross(&u);
        proof {
            lemma_fx_mul_bound(w.x as int, u.y as int, UNIT_MAX as int, UNIT_MAX as int);
            lemma_fx_mul_bound(w.x as int, u.z as int, UNIT_MAX as int, UNIT_MAX as int);
            lemma_fx_mul_bound(w.y as int, u.x as int, UNIT_MAX as int, UNIT_MAX as int);
            lemma_fx_mul_bound(w.y as int, u.z as int, UNIT_MAX as int, UNIT_MAX as int);
            lemma_fx_mul_bound(w.z as int, u.x as int, UNIT_MAX as int, UNIT_MAX as int);
            lemma_fx_mul_bound(w.z as int, u.y as int, UNIT_MAX as int, UNIT_MAX as int);
        }
        let cvsq: i64 = cv.length_squared();
        let v: Vec3 = if cvsq >= 1 {
            cv.normalized()
        } else {
            Vec3 { x: 0, y: FX_ONE, z: 0 }
        };

        proof {
            lemma_fx_mul_bound(cfg.focus_distance as int, viewport_width as int, 0xA_8000, 8 * (FX_ONE as int));
            lemma_fx_mul_bound(cfg.focus_distance as int, viewport_height as int, 0xA_8000, 2 * (FX_ONE as int));
        }
        let sh: i64 = fx_mul(cfg.focus_distance, viewport_width);
        let sv: i64 = fx_mul(cfg.focus_distance, viewport_height);
        proof {
            lemma_fx_mul_bound(u.x as int, sh as int, UNIT_MAX as int, 84 * (FX_ONE as int));
            lemma_fx_mul_bound(u.y as int, sh as int, UNIT_MAX as int, 84 * (FX_ONE as int));
            lemma_fx_mul_bound(u.z as int, sh as int, UNIT_MAX as int, 84 * (FX_ONE as int));
            lemma_fx_mul_bound(v.x as int, sv as int, UNIT_MAX as int, 21 * (FX_ONE as int));
            lemma_fx_mul_bound(v.y as int, sv as int, UNIT_MAX as int, 21 * (FX_ONE as int));
            lemma_fx_mul_bound(v.z as int, sv as int, UNIT_MAX as int, 21 * (FX_ONE as int));
            lemma_fx_mul_bound(w.x as int, cfg.focus_distance as int, UNIT_MAX as int, 0xA_8000);
            lemma_fx_mul_bound(w.y as int, cfg.focus_distance as int, UNIT_MAX as int, 0xA_8000);
            lemma_fx_mul_bound(w.z as int, cfg.focus_distance as int, UNIT_MAX as int, 0xA_8000);
        }
        let horizontal: Vec3 = u.scale(sh);
        let vertical: Vec3 = v.scale(sv);
        let fw: Vec3 = w.scale(cfg.focus_distance);
        proof {
            lemma_fx_mul_bound(horizontal.x as int, 32768, 252 * (FX_ONE as int), 32768);
            lemma_fx_mul_bound(horizontal.y as int, 32768, 252 * (FX_ONE as int), 32768);
            lemma_fx_mul_bound(horizontal.z as int, 32768, 252 * (FX_ONE as int), 32768);
            lemma_fx_mul_bound(vertical.x as int, 32768, 63 * (FX_ONE as int), 32768);
            lemma_fx_mul_bound(vertical.y as int, 32768, 63 * (FX_ONE as int), 32768);
            lemma_fx_mul_bound(vertical.z as int, 32768, 63 * (FX_ONE as int), 32768);
        }
        let half_h: Vec3 = horizontal.scale(32768);
        let half_v: Vec3 = vertical.scale(32768);
        let lower_left_corner: Point3 = cfg.look_from.sub(&half_h).sub(&half_v).sub(&fw);
        proof {
            lemma_fx_mul_bound(cfg.aperture as int, 32768, 2 * (FX_ONE as int), 32768);
        }
        let lens_radius: i64 = fx_mul(cfg.aperture, 32768);
        proof {
            crate::fx::lemma_tdiv_nonneg((cfg.aperture as int) * 32768, FX_ONE as int);
        }
        Camera {
            origin: cfg.look_from,
            lower_left_corner,
            horizontal,
            vertical,
            u,
            v,
            lens_radius,
        }
    }

    /// The ray through normalized screen coordinates `(s, t)` from the
    /// exact camera origin, at shutter time zero.
    pub fn get_ray(&self, s: i64, t: i64) -> (r: Ray)
        requires
            camera_bounded(*self),
            0 <= s <= 0x18000,
            0 <= t <= 0x18000,
        ensures
            r.origin == self.origin,
            r.time == 0,
            r.direction == spec_sub(
                spec_add(
                    spec_add(self.lower_left_corner, spec_scale(self.horizontal, s as int)),
                    spec_scale(self.vertical, t as int),
                ),
                self.origin,
            ),
            vec_bounded(r.origin, WORLD_MAX as int),
            vec_bounded(r.direction, WORLD_MAX as int),
    {
        proof {
            lemma_ray_pieces(*self, s as int, t as int);
        }
        let hs: Vec3 = self.horizontal.scale(s);
        let vt: Vec3 = self.vertical.scale(t);
        let direction: Vec3 = self.lower_left_corner.add(&hs).add(&vt).sub(&self.origin);
        Ray { origin: self.origin, direction, time: 0 }
    }

    /// The ray through `(s, t)`, its origin jittered inside the lens
    /// disk and its time drawn uniformly from the shutter interval.
    #[verifier::rlimit(60)]
    pub fn get_ray_defocused(
        &self,
        rng: &mut rand::rngs::ThreadRng,
        time_start: i64,
        time_end: i64,
        s: i64,
        t: i64,
    ) -> (r: Ray)
        requires
            camera_bounded(*self),
            0 <= s <= 0x18000,
            0 <= t <= 0x18000,
            time_start <= time_end,
            iabs(time_start as int) <= GEOM_MAX as int,
            iabs(time_end as int) <= GEOM_MAX as int,
        ensures
            time_start <= r.time <= time_end,
            vec_bounded(r.origin, WORLD_MAX as int),
            vec_bounded(r.direction, WORLD_MAX as int),
            possible_camera_ray(
                *self,
                s as int,
                t as int,
                time_start as int,
                time_end as int,
                r,
            ),
    {
        let rd: Vec3 = Vec3::random_in_unit_disk(rng);
        proof {
            lemma_fx_mul_bound(self.lens_radius as int, rd.x as int, FX_ONE as int, FX_ONE as int);
            lemma_fx_mul_bound(self.lens_radius as int, rd.y as int, FX_ONE as int, FX_ONE as int);
        }
        let rx: i64 = fx_mul(self.lens_radius, rd.x);
        let ry: i64 = fx_mul(self.lens_radius, rd.y);
        proof {
            lemma_fx_mul_bound(self.u.x as int, rx as int, UNIT_MAX as int, FX_ONE as int);
            lemma_fx_mul_bound(self.u.y as int, rx as int, UNIT_MAX as int, FX_ONE as int);
            lemma_fx_mul_bound(self.u.z as int, rx as int, UNIT_MAX as int, FX_ONE as int);
            lemma_fx_mul_bound(self.v.x as int, ry as int, UNIT_MAX as int, FX_ONE as int);
            lemma_fx_mul_bound(self.v.y as int, ry as int, UNIT_MAX as int, FX_ONE as int);
            lemma_fx_mul_bound(self.v.z as int, ry as int, UNIT_MAX as int, FX_ONE as int);
        }
        let offset: Vec3 = self.u.scale(rx).add(&self.v.scale(ry));
        let origin: Point3 = self.origin.add(&offset);
        proof {
            lemma_ray_pieces(*self, s as int, t as int);
        }
        let hs: Vec3 = self.horizontal.scale(s);
        let vt: Vec3 = self.vertical.scale(t);
        let direction: Vec3 = self.lower_left_corner.add(&hs).add(&vt).sub(&self.origin).sub(
            &offset,
        );
        let time: i64 = rand_fx(rng, time_start, time_end);
        proof {
            assert(spec_lens_offset(*self, rd) == offset);
            assert(spec_sub(origin, self.origin) == offset);
        }
        Ray { origin, direction, time }
    }
}

/// The lens-disk offset `u * (lr * rd.x) + v * (lr * rd.y)`.
pub open spec fn spec_lens_offset(c: Camera, rd: Vec3) -> Vec3 {
    spec_add(
        spec_scale(c.u, fx_mul_spec(c.lens_radius as int, rd.x as int)),
        spec_scale(c.v, fx_mul_spec(c.lens_radius as int, rd.y as int)),
    )
}

/// A ray `get_ray_defocused` can produce for screen coordinates
/// `(s, t)`: the viewport direction displaced by some lens-disk offset,
/// with a shutter time inside the interval.
pub open spec fn possible_camera_ray(
    cam: Camera,
    s: int,
    t: int,
    time_start: int,
    time_end: int,
    ray: Ray,
) -> bool {
    exists|rd: Vec3|
        {
            &&& vec_bounded(rd, FX_ONE as int)
            &&& rd.z == 0
            &&& #[trigger] spec_lens_offset(cam, rd) == spec_sub(ray.origin, cam.origin)
            &&& ray.direction == spec_sub(
                spec_sub(
                    spec_add(
                        spec_add(cam.lower_left_corner, spec_scale(cam.horizontal, s)),
                        spec_scale(cam.vertical, t),
                    ),
                    cam.origin,
                ),
                spec_lens_offset(cam, rd),
            )
            &&& time_start <= ray.time <= time_end
        }
}

/// Bounds for the viewport terms of a generated ray.
proof fn lemma_ray_pieces(c: Camera, s: int, t: int)
    requires
        camera_bounded(c),
        0 <= s <= 0x18000,
        0 <= t <= 0x18000,
    ensures
        iabs(fx_mul_spec(c.horizontal.x as int, s)) <= 384 * (FX_ONE as int),
        iabs(fx_mul_spec(c.horizontal.y as int, s)) <= 384 * (FX_ONE as int),
        iabs(fx_mul_spec(c.horizontal.z as int, s)) <= 384 * (FX_ONE as int),
        iabs(fx_mul_spec(c.vertical.x as int, t)) <= 96 * (FX_ONE as int),
        iabs(fx_mul_spec(c.vertical.y as int, t)) <= 96 * (FX_ONE as int),
        iabs(fx_mul_spec(c.vertical.z as int, t)) <= 96 * (FX_ONE as int),
{
    lemma_fx_mul_bound(c.horizontal.x as int, s, 0x100_0000, 0x18000);
    lemma_fx_mul_bound(c.horizontal.y as int, s, 0x100_0000, 0x18000);
    lemma_fx_mul_bound(c.horizontal.z as int, s, 0x100_0000, 0x18000);
    lemma_fx_mul_bound(c.vertical.x as int, t, 0x40_0000, 0x18000);
    lemma_fx_mul_bound(c.vertical.y as int, t, 0x40_0000, 0x18000);
    lemma_fx_mul_bound(c.vertical.z as int, t, 0x40_0000, 0x18000);
}

} // verus!
