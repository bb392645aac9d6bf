//! The radiance integrator and the per-pixel sampling driver.

use crate::camera::{camera_bounded, possible_camera_ray, Camera};
use crate::fx::{
    fx_clamp, fx_div, fx_div_spec, fx_mul, fx_mul_spec, fx_sqrt, fx_sqrt_spec, iabs,
    lemma_fx_mul_bound, lemma_fx_mul_unit, lemma_tdiv_le_of, lemma_tdiv_nonneg, FX_ONE, GEOM_MAX,
    T_LIM, WORLD_MAX,
};
use crate::hittable::{
    good_hit_data, hit_data_of, hittable_time_ok, hittable_wf, lemma_good_hit_data,
    lemma_good_hit_props, lemma_time_ok_between, ray_ok, spec_hit_t, HitData, Hittable,
};
use crate::material::dielectric::spec_dielectric_scatter;
use crate::material::lambertian::spec_lambertian_dir;
use crate::material::metal::spec_metal_scatter;
use crate::material::{Material, ScatterResult};
use crate::ray::Ray;
use crate::rng::rand_fx;
use crate::vec3::{
    color_unit, spec_dot, spec_mul, spec_normalized, v3, vec_bounded, Color, Vec3, UNIT_MAX,
};
use vstd::arithmetic::div_mod::lemma_div_by_multiple;
use vstd::prelude::*;

verus! {

/// The lower bound of every radiance intersection query: a small offset
/// that prevents a bounced ray from immediately re-hitting its origin.
pub const T_NEAR: i64 = 66;

/// The background: white blended toward sky blue by the (clamped)
/// upward component of the unit ray direction.
pub open spec fn spec_sky(ray: Ray) -> Color {
    let unit = spec_normalized(ray.direction);
    let raw = fx_mul_spec((unit.y as int) + FX_ONE as int, 32768);
    let t = if raw < 0 {
        0
    } else if raw > FX_ONE as int {
        FX_ONE as int
    } else {
        raw
    };
    v3(
        fx_mul_spec(FX_ONE as int, (FX_ONE as int) - t) + fx_mul_spec(32768, t),
        fx_mul_spec(FX_ONE as int, (FX_ONE as int) - t) + fx_mul_spec(45875, t),
        fx_mul_spec(FX_ONE as int, (FX_ONE as int) - t) + fx_mul_spec(FX_ONE as int, t),
    )
}

/// Multiplying by one is exact.
proof fn lemma_fx_one_exact(a: int)
    ensures
        fx_mul_spec(FX_ONE as int, a) == a,
{
    let f = FX_ONE as int;
    if a >= 0 {
        lemma_tdiv_nonneg(f * a, f);
        lemma_div_by_multiple(a, f);
        assert(f * a == a * f) by (nonlinear_arith);
    } else {
        crate::vec3::lemma_tdiv_neg(f * (-a), f);
        assert(f * a == -(f * (-a))) by (nonlinear_arith);
        lemma_tdiv_nonneg(f * (-a), f);
        lemma_div_by_multiple(-a, f);
        assert(f * (-a) == (-a) * f) by (nonlinear_arith);
    }
}

/// One blended sky channel stays in the unit range.
proof fn lemma_sky_channel(c: int, t: int)
    requires
        0 <= c <= FX_ONE,
        0 <= t <= FX_ONE,
    ensures
        0 <= fx_mul_spec(FX_ONE as int, (FX_ONE as int) - t) + fx_mul_spec(c, t) <= FX_ONE,
{
    lemma_fx_one_exact((FX_ONE as int) - t);
    lemma_fx_mul_unit(c, t);
    assert(c * t <= (FX_ONE as int) * t) by (nonlinear_arith)
        requires
            0 <= t,
            c <= FX_ONE,
    ;
    vstd::arithmetic::div_mod::lemma_div_is_ordered(c * t, (FX_ONE as int) * t, FX_ONE as int);
    lemma_div_by_multiple(t, FX_ONE as int);
    assert((FX_ONE as int) * t == t * (FX_ONE as int)) by (nonlinear_arith);
}

/// The background gradient, executable.
pub fn sky(ray: &Ray) -> (r: Color)
    requires
        vec_bounded(ray.direction, WORLD_MAX as int),
        spec_dot(ray.direction, ray.direction) >= 1,
    ensures
        r == spec_sky(*ray),
        color_unit(r),
{
    let unit: Vec3 = ray.direction().normalized();
    proof {
        lemma_fx_mul_bound((unit.y as int) + FX_ONE as int, 32768, 4 * (FX_ONE as int), 32768);
    }
    let raw: i64 = fx_mul(unit.y + FX_ONE, 32768);
    let t: i64 = fx_clamp(raw, 0, FX_ONE);
    let white: Color = Vec3::one();
    let blue: Color = Vec3 { x: 32768, y: 45875, z: FX_ONE };
    let r: Color = Vec3::lerp(white, blue, t);
    proof {
        lemma_sky_channel(32768, t as int);
        lemma_sky_channel(45875, t as int);
        lemma_sky_channel(FX_ONE as int, t as int);
    }
    r
}

/// A ray usable for further intersection queries: inside the numeric
/// world and with a direction of measurable length (the fixed-point
/// analogue of a finite, nonzero float ray).
pub open spec fn ray_usable_spec(ray: Ray) -> bool {
    &&& vec_bounded(ray.origin, WORLD_MAX as int)
    &&& vec_bounded(ray.direction, WORLD_MAX as int)
    &&& spec_dot(ray.direction, ray.direction) >= 1
}

/// Decides `ray_usable_spec`.
pub fn ray_usable(ray: &Ray) -> (r: bool)
    ensures
        r == ray_usable_spec(*ray),
{
    let o = ray.origin;
    let d = ray.direction;
    let ob: bool = -WORLD_MAX <= o.x && o.x <= WORLD_MAX && -WORLD_MAX <= o.y && o.y <= WORLD_MAX
        && -WORLD_MAX <= o.z && o.z <= WORLD_MAX;
    let db: bool = -WORLD_MAX <= d.x && d.x <= WORLD_MAX && -WORLD_MAX <= d.y && d.y <= WORLD_MAX
        && -WORLD_MAX <= d.z && d.z <= WORLD_MAX;
    if ob && db {
        d.length_squared() >= 1
    } else {
        false
    }
}

/// What a material's scattering can produce at a hit, for some value of
/// its random draws: the mirror, over the reference-free record, of the
/// per-variant promises of `Material::scatter`.
pub open spec fn possible_scatter(m: Material, hd: HitData, ray: Ray, sr: ScatterResult) -> bool {
    match m {
        Material::Lambertian(l) => {
            &&& sr.scattered.origin == hd.point
            &&& sr.scattered.time == ray.time
            &&& sr.attenuation == crate::texture::spec_texture_value(
                l.albedo,
                hd.uv.0 as int,
                hd.uv.1 as int,
                hd.point,
            )
            &&& exists|s: Vec3|
                {
                    &&& vec_bounded(s, UNIT_MAX as int)
                    &&& #[trigger] spec_lambertian_dir(hd.normal, s) == sr.scattered.direction
                }
        },
        Material::Metal(mt) => exists|s: Vec3|
            {
                &&& vec_bounded(s, FX_ONE as int)
                &&& spec_dot(s, s) < FX_ONE
                &&& #[trigger] spec_metal_scatter(mt, hd.point, hd.normal, ray, s) == Some(sr)
            },
        Material::Dielectric(d) => exists|draw: int|
            {
                &&& 0 <= draw <= FX_ONE
                &&& #[trigger] spec_dielectric_scatter(d, hd.front_face, hd.point, hd.normal, ray, draw)
                    == sr
            },
    }
}

/// The radiance values `ray_color` can return: zero with the budget
/// exhausted; the sky gradient on a miss; and on a hit, zero (an
/// absorbed scatter, or one escaping the numeric world) or the
/// attenuation of a possible scatter of the hit record times a possible
/// radiance of the scattered ray one bounce deeper.
pub open spec fn possible_radiance(world: Hittable, ray: Ray, depth: int, c: Color) -> bool
    decreases depth,
{
    if depth <= 0 {
        c == (Vec3 { x: 0i64, y: 0i64, z: 0i64 })
    } else if spec_hit_t(world, ray, T_NEAR as int, T_LIM as int) is None {
        c == spec_sky(ray)
    } else {
        ||| c == (Vec3 { x: 0i64, y: 0i64, z: 0i64 })
        ||| exists|hd: HitData, sr: ScatterResult, rec: Color|
            #![trigger possible_scatter(hd.material, hd, ray, sr), spec_mul(sr.attenuation, rec)]
            {
                &&& good_hit_data(world, ray, hd)
                &&& hd.t as int == spec_hit_t(world, ray, T_NEAR as int, T_LIM as int)->Some_0
                &&& possible_scatter(hd.material, hd, ray, sr)
                &&& possible_radiance(world, sr.scattered, depth - 1, rec)
                &&& c == spec_mul(sr.attenuation, rec)
            }
    }
}

/// The recursive radiance estimate.
///
/// With the path budget exhausted no more light is gathered; a miss
/// returns the sky gradient; a hit recurses through the material's
/// scattering, weighting by its attenuation; an absorbed ray — or a
/// scattered ray that escapes the numeric world, the fixed-point
/// analogue of a non-finite ray — contributes nothing.
pub fn ray_color(ray: &Ray, rng: &mut rand::rngs::ThreadRng, world: &Hittable, depth: usize) -> (r:
    Color)
    requires
        hittable_wf(*world),
        ray_ok(*world, *ray),
    ensures
        color_unit(r),
        possible_radiance(*world, *ray, depth as int, r),
        depth == 0 ==> r == (Vec3 { x: 0i64, y: 0i64, z: 0i64 }),
        depth >= 1 && spec_hit_t(*world, *ray, T_NEAR as int, T_LIM as int) is None ==> r
            == spec_sky(*ray),
    decreases depth,
{
    if depth == 0 {
        return Vec3::zero();
    }
    match world.hit(ray, T_NEAR, T_LIM) {
        Some(hit) => {
            proof {
                lemma_good_hit_props(*world, *ray, hit);
            }
            match hit.material().scatter(rng, &hit, ray) {
                Some(scatter_result) => {
                    if ray_usable(&scatter_result.scattered) {
                        let color: Color = ray_color(
                            &scatter_result.scattered,
                            rng,
                            world,
                            depth - 1,
                        );
                        proof {
                            lemma_fx_mul_unit(
                                scatter_result.attenuation.x as int,
                                color.x as int,
                            );
                            lemma_fx_mul_unit(
                                scatter_result.attenuation.y as int,
                                color.y as int,
                            );
                            lemma_fx_mul_unit(
                                scatter_result.attenuation.z as int,
                                color.z as int,
                            );
                        }
                        let out: Color = scatter_result.attenuation.mul(&color);
                        proof {
                            lemma_good_hit_data(*world, *ray, hit);
                            let hd = hit_data_of(hit);
                            let gm = *hit.material;
                            match gm {
                                Material::Lambertian(_) => {
                                    assert(possible_scatter(hd.material, hd, *ray, scatter_result));
                                },
                                Material::Metal(mt) => {
                                    let s = choose|s: Vec3|
                                        {
                                            &&& vec_bounded(s, FX_ONE as int)
                                            &&& spec_dot(s, s) < FX_ONE
                                            &&& #[trigger] spec_metal_scatter(
                                                mt,
                                                hit.point,
                                                hit.normal,
                                                *ray,
                                                s,
                                            ) == Some(scatter_result)
                                        };
                                    assert(spec_metal_scatter(mt, hd.point, hd.normal, *ray, s)
                                        == Some(scatter_result));
                                    assert(possible_scatter(hd.material, hd, *ray, scatter_result));
                                },
                                Material::Dielectric(d) => {
                                    let draw = choose|draw: int|
                                        {
                                            &&& 0 <= draw <= FX_ONE
                                            &&& Some(
                                                #[trigger] spec_dielectric_scatter(
                                                    d,
                                                    hit.front_face,
                                                    hit.point,
                                                    hit.normal,
                                                    *ray,
                                                    draw,
                                                ),
                                            ) == Some(scatter_result)
                                        };
                                    assert(spec_dielectric_scatter(
                                        d,
                                        hd.front_face,
                                        hd.point,
                                        hd.normal,
                                        *ray,
                                        draw,
                                    ) == scatter_result);
                                    assert(possible_scatter(hd.material, hd, *ray, scatter_result));
                                },
                            }
                            assert(possible_radiance(
                                *world,
                                scatter_result.scattered,
                                depth as int - 1,
                                color,
                            ));
                            assert(out == spec_mul(scatter_result.attenuation, color));
                            assert(possible_radiance(*world, *ray, depth as int, out));
                        }
                        out
                    } else {
                        Vec3::zero()
                    }
                },
                None => Vec3::zero(),
            }
        },
        None => sky(ray),
    }
}

/// Per-channel sums of a sequence of sample colors.
pub open spec fn sum_x(cs: Seq<Color>) -> int
    decreases cs.len(),
{
    if cs.len() == 0 {
        0
    } else {
        sum_x(cs.drop_last()) + cs.last().x
    }
}

pub open spec fn sum_y(cs: Seq<Color>) -> int
    decreases cs.len(),
{
    if cs.len() == 0 {
        0
    } else {
        sum_y(cs.drop_last()) + cs.last().y
    }
}

pub open spec fn sum_z(cs: Seq<Color>) -> int
    decreases cs.len(),
{
    if cs.len() == 0 {
        0
    } else {
        sum_z(cs.drop_last()) + cs.last().z
    }
}

/// What one sample of a pixel can contribute: for some sub-pixel jitter
/// pair, a ray the camera can generate at the jittered screen
/// coordinates, and the sample is a possible radiance of that ray — or
/// zero when the generated ray falls outside the numeric world.
pub open spec fn possible_sample(
    cam: Camera,
    world: Hittable,
    i: int,
    j: int,
    width: int,
    height: int,
    max_depth: int,
    time_start: int,
    time_end: int,
    c: Color,
) -> bool {
    exists|du: int, dv: int, ray: Ray|
        {
            &&& 0 <= du <= FX_ONE
            &&& 0 <= dv <= FX_ONE
            &&& #[trigger] possible_camera_ray(
                cam,
                fx_div_spec(i * (FX_ONE as int) + du, (width - 1) * (FX_ONE as int)),
                fx_div_spec(j * (FX_ONE as int) + dv, (height - 1) * (FX_ONE as int)),
                time_start,
                time_end,
                ray,
            )
            &&& if ray_usable_spec(ray) {
                possible_radiance(world, ray, max_depth, c)
            } else {
                c == (Vec3 { x: 0i64, y: 0i64, z: 0i64 })
            }
        }
}

/// One pixel of the image: `samples` jittered camera rays, averaged and
/// gamma-2 corrected.
///
/// Whatever the random draws did, the result is exactly the gamma-2
/// square root of the channelwise average of `samples` possible sample
/// radiances, so every channel lands in `[0, 1]`; with no bounce budget
/// at all the pixel is black.
#[verifier::rlimit(60)]
pub fn render_pixel(
    rng: &mut rand::rngs::ThreadRng,
    camera: &Camera,
    world: &Hittable,
    i: usize,
    j: usize,
    width: usize,
    height: usize,
    samples: usize,
    max_depth: usize,
    time_start: i64,
    time_end: i64,
) -> (r: Color)
    requires
        camera_bounded(*camera),
        hittable_wf(*world),
        hittable_time_ok(*world, time_start as int),
        hittable_time_ok(*world, time_end as int),
        time_start <= time_end,
        iabs(time_start as int) <= GEOM_MAX as int,
        iabs(time_end as int) <= GEOM_MAX as int,
        3 <= width <= 16384,
        3 <= height <= 16384,
        i < width,
        j < height,
        1 <= samples <= 100000,
    ensures
        color_unit(r),
        max_depth == 0 ==> r == (Vec3 { x: 0i64, y: 0i64, z: 0i64 }),
        exists|cs: Seq<Color>|
            #![trigger sum_x(cs)]
            {
                &&& cs.len() == samples
                &&& (forall|m: int|
                    0 <= m < samples ==> color_unit(#[trigger] cs[m]) && possible_sample(
                        *camera,
                        *world,
                        i as int,
                        j as int,
                        width as int,
                        height as int,
                        max_depth as int,
                        time_start as int,
                        time_end as int,
                        cs[m],
                    ))
                &&& r.x == fx_sqrt_spec(fx_div_spec(sum_x(cs), samples * (FX_ONE as int)))
                &&& r.y == fx_sqrt_spec(fx_div_spec(sum_y(cs), samples * (FX_ONE as int)))
                &&& r.z == fx_sqrt_spec(fx_div_spec(sum_z(cs), samples * (FX_ONE as int)))
            },
{
    let ghost mut cs: Seq<Color> = Seq::<Color>::empty();
    let mut acc: Color = Vec3::zero();
    let mut k: usize = 0;
    while k < samples
        invariant
            k <= samples,
            samples <= 100000,
            0 <= acc.x <= k * (FX_ONE as int),
            0 <= acc.y <= k * (FX_ONE as int),
            0 <= acc.z <= k * (FX_ONE as int),
            cs.len() == k,
            acc.x == sum_x(cs),
            acc.y == sum_y(cs),
            acc.z == sum_z(cs),
            max_depth == 0 ==> acc == (Vec3 { x: 0i64, y: 0i64, z: 0i64 }),
            forall|m: int|
                0 <= m < k ==> color_unit(#[trigger] cs[m]) && possible_sample(
                    *camera,
                    *world,
                    i as int,
                    j as int,
                    width as int,
                    height as int,
                    max_depth as int,
                    time_start as int,
                    time_end as int,
                    cs[m],
                ),
            camera_bounded(*camera),
            hittable_wf(*world),
            hittable_time_ok(*world, time_start as int),
            hittable_time_ok(*world, time_end as int),
            time_start <= time_end,
            iabs(time_start as int) <= GEOM_MAX as int,
            iabs(time_end as int) <= GEOM_MAX as int,
            3 <= width <= 16384,
            3 <= height <= 16384,
            i < width,
            j < height,
        decreases samples - k,
    {
        let du: i64 = rand_fx(rng, 0, FX_ONE);
        let dv: i64 = rand_fx(rng, 0, FX_ONE);
        let un: i64 = (i as i64) * FX_ONE + du;
        let ud: i64 = ((width - 1) as i64) * FX_ONE;
        proof {
            lemma_tdiv_le_of((un as int) * (FX_ONE as int), ud as int, 0x18000);
            assert((un as int) * (FX_ONE as int) <= 0x18000 * (ud as int)) by (nonlinear_arith)
                requires
                    un <= (i + 1) * (FX_ONE as int),
                    i + 1 <= width,
                    3 <= width <= 16384,
                    ud == (width - 1) * (FX_ONE as int),
            ;
            assert((un as int) * (FX_ONE as int) >= 0) by (nonlinear_arith)
                requires
                    un >= 0,
            ;
        }
        let u: i64 = fx_div(un, ud);
        let vn: i64 = (j as i64) * FX_ONE + dv;
        let vd: i64 = ((height - 1) as i64) * FX_ONE;
        proof {
            lemma_tdiv_le_of((vn as int) * (FX_ONE as int), vd as int, 0x18000);
            assert((vn as int) * (FX_ONE as int) <= 0x18000 * (vd as int)) by (nonlinear_arith)
                requires
                    vn <= (j + 1) * (FX_ONE as int),
                    j + 1 <= height,
                    3 <= height <= 16384,
                    vd == (height - 1) * (FX_ONE as int),
            ;
            assert((vn as int) * (FX_ONE as int) >= 0) by (nonlinear_arith)
                requires
                    vn >= 0,
            ;
        }
        let v: i64 = fx_div(vn, vd);
        let ray: Ray = camera.get_ray_defocused(rng, time_start, time_end, u, v);
        let sample: Color = if ray_usable(&ray) {
            proof {
                lemma_time_ok_between(
                    *world,
                    time_start as int,
                    time_end as int,
                    ray.time as int,
                );
            }
            ray_color(&ray, rng, world, max_depth)
        } else {
            Vec3::zero()
        };
        acc = acc.add(&sample);
        proof {
            let ghost old_cs = cs;
            cs = cs.push(sample);
            assert(cs.drop_last() =~= old_cs);
            assert(cs.last() == sample);
            assert(possible_sample(
                *camera,
                *world,
                i as int,
                j as int,
                width as int,
                height as int,
                max_depth as int,
                time_start as int,
                time_end as int,
                sample,
            )) by {
                assert(un as int == (i as int) * (FX_ONE as int) + du as int);
                assert(ud as int == ((width - 1) as int) * (FX_ONE as int));
                assert(vn as int == (j as int) * (FX_ONE as int) + dv as int);
                assert(vd as int == ((height - 1) as int) * (FX_ONE as int));
                assert(u as int == fx_div_spec(
                    (i as int) * (FX_ONE as int) + du as int,
                    ((width - 1) as int) * (FX_ONE as int),
                ));
                assert(v as int == fx_div_spec(
                    (j as int) * (FX_ONE as int) + dv as int,
                    ((height - 1) as int) * (FX_ONE as int),
                ));
                assert(possible_camera_ray(
                    *camera,
                    fx_div_spec(
                        (i as int) * (FX_ONE as int) + du as int,
                        ((width - 1) as int) * (FX_ONE as int),
                    ),
                    fx_div_spec(
                        (j as int) * (FX_ONE as int) + dv as int,
                        ((height - 1) as int) * (FX_ONE as int),
                    ),
                    time_start as int,
                    time_end as int,
                    ray,
                ));
            }
            assert forall|m: int| 0 <= m < cs.len() implies color_unit(#[trigger] cs[m])
                && possible_sample(
                *camera,
                *world,
                i as int,
                j as int,
                width as int,
                height as int,
                max_depth as int,
                time_start as int,
                time_end as int,
                cs[m],
            ) by {
                if m < old_cs.len() {
                    assert(cs[m] == old_cs[m]);
                } else {
                    assert(cs[m] == sample);
                }
            }
        }
        k = k + 1;
    }
    let samples_fx: i64 = (samples as i64) * FX_ONE;
    proof {
        lemma_avg_channel(acc.x as int, samples as int);
        lemma_avg_channel(acc.y as int, samples as int);
        lemma_avg_channel(acc.z as int, samples as int);
    }
    let ax: i64 = fx_div(acc.x, samples_fx);
    let ay: i64 = fx_div(acc.y, samples_fx);
    let az: i64 = fx_div(acc.z, samples_fx);
    let gx: i64 = fx_sqrt(ax);
    let gy: i64 = fx_sqrt(ay);
    let gz: i64 = fx_sqrt(az);
    proof {
        lemma_gamma_channel(ax as int, gx as int);
        lemma_gamma_channel(ay as int, gy as int);
        lemma_gamma_channel(az as int, gz as int);
        assert(gx as int == fx_sqrt_spec(fx_div_spec(sum_x(cs), samples * (FX_ONE as int))));
        assert(gy as int == fx_sqrt_spec(fx_div_spec(sum_y(cs), samples * (FX_ONE as int))));
        assert(gz as int == fx_sqrt_spec(fx_div_spec(sum_z(cs), samples * (FX_ONE as int))));
        if max_depth == 0 {
            assert(fx_div_spec(0, samples * (FX_ONE as int)) == 0) by {
                lemma_tdiv_nonneg(0, samples * (FX_ONE as int));
                vstd::arithmetic::div_mod::lemma_div_of0(samples * (FX_ONE as int));
            }
            assert(gx == 0) by (nonlinear_arith)
                requires
                    gx >= 0,
                    (gx as int) * (gx as int) <= 0,
            ;
            assert(gy == 0) by (nonlinear_arith)
                requires
                    gy >= 0,
                    (gy as int) * (gy as int) <= 0,
            ;
            assert(gz == 0) by (nonlinear_arith)
                requires
                    gz >= 0,
                    (gz as int) * (gz as int) <= 0,
            ;
        }
    }
    Vec3 { x: gx, y: gy, z: gz }
}

/// Averaging a sum of unit samples stays in the unit range.
proof fn lemma_avg_channel(a: int, samples: int)
    requires
        1 <= samples <= 100000,
        0 <= a <= samples * (FX_ONE as int),
    ensures
        0 <= crate::fx::fx_div_spec(a, samples * (FX_ONE as int)) <= FX_ONE,
{
    let f = FX_ONE as int;
    lemma_tdiv_le_of(a * f, samples * f, f);
    assert(a * f <= f * (samples * f)) by (nonlinear_arith)
        requires
            0 <= a <= samples * f,
            samples >= 1,
            f == 65536,
    ;
    assert(a * f >= 0) by (nonlinear_arith)
        requires
            a >= 0,
            f == 65536,
    ;
}

/// The gamma-2 correction of a unit value stays in the unit range.
proof fn lemma_gamma_channel(a: int, g: int)
    requires
        0 <= a <= FX_ONE,
        crate::fx::is_isqrt(a * (FX_ONE as int), g),
    ensures
        0 <= g <= FX_ONE,
{
    assert(g <= FX_ONE) by (nonlinear_arith)
        requires
            g >= 0,
            g * g <= a * (FX_ONE as int),
            a <= FX_ONE,
    ;
}

/// The raster position of a pixel index in the canonical output order:
/// top scanline first, left to right within a scanline.
pub fn pixel_coords(idx: usize, width: usize, height: usize) -> (r: (usize, usize))
    requires
        1 <= width,
        1 <= height,
        idx < width * height,
    ensures
        r.0 == idx % width,
        r.1 == height - 1 - idx / width,
        r.0 < width,
        r.1 < height,
{
    proof {
        assert(idx / width < height) by (nonlinear_arith)
            requires
                width >= 1,
                idx < width * height,
                idx >= 0,
        ;
        assert(idx % width < width) by (nonlinear_arith)
            requires
                width >= 1,
                idx >= 0,
        ;
    }
    (idx % width, height - 1 - idx / width)
}

} // verus!
