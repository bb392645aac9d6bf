//! The one primitive: a sphere whose center follows a transform.

use crate::aabb::{aabb_bounded, spec_surround, Aabb};
use crate::fx::{
    fx_clamp, fx_div, fx_div_spec, fx_mul, fx_mul_spec, fx_sqrt, fx_sqrt_spec, iabs,
    lemma_fx_mul_bound, lemma_isqrt_spec, lemma_tdiv_abs_le, tdiv, FX_ONE, GEOM_MAX, T_LIM,
    WORLD_MAX,
};
use crate::hittable::HitResult;
use crate::material::{material_wf, Material};
use crate::ray::{spec_ray_at, Ray};
use crate::transform::{spec_position, transform_time_ok, transform_wf, Transform};
use crate::vec3::{
    lemma_dot_bound, lemma_dot_self_nonneg, lemma_square_term_nonneg, spec_dot, spec_normalized,
    spec_sub, vec_bounded, Point3, Vec3, DOT_MAX, UNIT_MAX,
};
use vstd::prelude::*;

verus! {

pub struct Sphere {
    pub transform: Transform,
    pub radius: i64,
    pub material: Material,
}

/// A sphere the library can intersect: geometry in bounds, a positive
/// radius (at least 16 raw units, which machine precision forces), and a
/// physically sensible material.
pub open spec fn sphere_wf(s: Sphere) -> bool {
    &&& transform_wf(s.transform)
    &&& 16 <= s.radius <= GEOM_MAX
    &&& material_wf(s.material)
}

pub open spec fn spec_center(s: Sphere, time: int) -> Point3 {
    spec_position(s.transform, time)
}

pub open spec fn spec_oc(s: Sphere, ray: Ray) -> Vec3 {
    spec_sub(ray.origin, spec_center(s, ray.time as int))
}

pub open spec fn spec_qa(ray: Ray) -> int {
    spec_dot(ray.direction, ray.direction)
}

pub open spec fn spec_half_b(s: Sphere, ray: Ray) -> int {
    spec_dot(spec_oc(s, ray), ray.direction)
}

pub open spec fn spec_qc(s: Sphere, ray: Ray) -> int {
    spec_dot(spec_oc(s, ray), spec_oc(s, ray)) - fx_mul_spec(s.radius as int, s.radius as int)
}

pub open spec fn spec_disc(s: Sphere, ray: Ray) -> int {
    fx_mul_spec(spec_half_b(s, ray), spec_half_b(s, ray)) - fx_mul_spec(
        spec_qa(ray),
        spec_qc(s, ray),
    )
}

pub open spec fn spec_root1(s: Sphere, ray: Ray) -> int {
    fx_div_spec(-spec_half_b(s, ray) - fx_sqrt_spec(spec_disc(s, ray)), spec_qa(ray))
}

pub open spec fn spec_root2(s: Sphere, ray: Ray) -> int {
    fx_div_spec(-spec_half_b(s, ray) + fx_sqrt_spec(spec_disc(s, ray)), spec_qa(ray))
}

/// Root selection: a negative discriminant is a miss; otherwise the
/// nearer root is taken when it lies in the window, else the farther
/// root when it does, else the query is a miss.
pub open spec fn spec_sphere_hit_t(s: Sphere, ray: Ray, t0: int, t1: int) -> Option<int> {
    if spec_disc(s, ray) < 0 {
        None
    } else {
        let r1 = spec_root1(s, ray);
        if t0 <= r1 <= t1 {
            Some(r1)
        } else {
            let r2 = spec_root2(s, ray);
            if t0 <= r2 <= t1 {
                Some(r2)
            } else {
                None
            }
        }
    }
}

/// The outward normal policy: the hit point minus the center, normalized;
/// when truncation leaves that difference without measurable length the
/// x axis stands in (a numerical edge case resolved locally).
pub open spec fn spec_outward(point: Point3, center: Point3) -> Vec3 {
    let diff = spec_sub(point, center);
    if spec_dot(diff, diff) >= 1 {
        spec_normalized(diff)
    } else {
        Vec3 { x: FX_ONE, y: 0, z: 0 }
    }
}

/// The piecewise-linear longitude of a unit-ish direction: one quarter
/// turn per quadrant of the xz plane, linear in `-z / (|x| + |z|)`; exact
/// at the six axis directions (a diamond-angle parameterization standing
/// in for `atan2`).
pub open spec fn spec_sphere_u(p: Vec3) -> int {
    let zn = -(p.z as int);
    let d = iabs(p.x as int) + iabs(zn);
    if d < 1 {
        32768
    } else if p.x >= 0 && zn >= 0 {
        32768 + tdiv(fx_div_spec(zn, d), 4)
    } else if p.x < 0 && zn >= 0 {
        let u = 49152 + tdiv(fx_div_spec(-(p.x as int), d), 4);
        if u >= 65536 {
            0
        } else {
            u
        }
    } else if p.x < 0 {
        tdiv(65536 - fx_div_spec(-(p.x as int), d), 4)
    } else {
        16384 + tdiv(fx_div_spec(p.x as int, d), 4)
    }
}

/// The linear latitude `(y + 1) / 2`, clamped to `[0, 1]`; exact at the
/// poles and the equator.
pub open spec fn spec_sphere_v(p: Vec3) -> int {
    let v = fx_mul_spec((p.y as int) + FX_ONE as int, 32768);
    if v < 0 {
        0
    } else if v > FX_ONE as int {
        FX_ONE as int
    } else {
        v
    }
}

/// The record a sphere produces for a hit at `hr.t`.
pub open spec fn sphere_hit_matches(s: Sphere, ray: Ray, hr: HitResult) -> bool {
    sphere_hit_data_matches(s, ray, crate::hittable::hit_data_of(hr))
}

/// The same pedigree over the reference-free record.
pub open spec fn sphere_hit_data_matches(s: Sphere, ray: Ray, hd: crate::hittable::HitData) -> bool {
    let center = spec_center(s, ray.time as int);
    let outward = spec_outward(hd.point, center);
    &&& hd.point == spec_ray_at(ray, hd.t as int)
    &&& hd.front_face == (spec_dot(ray.direction, outward) < 0)
    &&& hd.normal == (if hd.front_face {
        outward
    } else {
        crate::vec3::spec_neg(outward)
    })
    &&& hd.uv.0 == spec_sphere_u(outward)
    &&& hd.uv.1 == spec_sphere_v(outward)
    &&& hd.material == s.material
}

/// The box of a linearly moving sphere: the union of the boxes at the two
/// ends of the time range, each the center offset by the radius.
pub open spec fn spec_sphere_box(s: Sphere, t0: int, t1: int) -> Aabb {
    let off = Vec3 { x: s.radius, y: s.radius, z: s.radius };
    let c0 = spec_center(s, t0);
    let c1 = spec_center(s, t1);
    spec_surround(
        Aabb { min: spec_sub(c0, off), max: crate::vec3::spec_add(c0, off) },
        Aabb { min: spec_sub(c1, off), max: crate::vec3::spec_add(c1, off) },
    )
}

pub proof fn lemma_sphere_box_bounded(s: Sphere, t0: int, t1: int)
    requires
        sphere_wf(s),
        transform_time_ok(s.transform, t0),
        transform_time_ok(s.transform, t1),
    ensures
        aabb_bounded(spec_sphere_box(s, t0, t1), WORLD_MAX as int),
{
    crate::transform::lemma_position_bounded(s.transform, t0);
    crate::transform::lemma_position_bounded(s.transform, t1);
}

impl Sphere {
    pub fn from(transform: Transform, radius: i64, material: Material) -> (r: Self)
        ensures
            r.transform == transform && r.radius == radius && r.material == material,
    {
        Sphere { transform, radius, material }
    }

    pub fn transform(&self) -> (r: &Transform)
        ensures
            r == &self.transform,
    {
        &self.transform
    }

    pub fn radius(&self) -> (r: i64)
        ensures
            r == self.radius,
    {
        self.radius
    }

    /// Surface coordinates of a point of the unit sphere.
    pub fn get_uv(point: &Vec3) -> (r: (i64, i64))
        requires
            vec_bounded(*point, UNIT_MAX as int),
        ensures
            r.0 == spec_sphere_u(*point),
            r.1 == spec_sphere_v(*point),
            0 <= r.0 <= FX_ONE,
            0 <= r.1 <= FX_ONE,
    {
        let v_raw: i64 = fx_mul(point.y + FX_ONE, 32768);
        proof {
            lemma_fx_mul_bound((point.y + FX_ONE) as int, 32768, 4 * FX_ONE as int, 32768);
        }
        let v: i64 = fx_clamp(v_raw, 0, FX_ONE);
        let zn: i64 = -point.z;
        let ax: i64 = if point.x >= 0 {
            point.x
        } else {
            -point.x
        };
        let az: i64 = if zn >= 0 {
            zn
        } else {
            -zn
        };
        let d: i64 = ax + az;
        let u: i64 = if d < 1 {
            32768
        } else {
            let num: i64 = if point.x >= 0 && zn >= 0 {
                zn
            } else if point.x < 0 {
                -point.x
            } else {
                point.x
            };
            proof {
                lemma_frac_in_unit(num as int, d as int);
            }
            let f: i64 = fx_div(num, d);
            let quarter: i64 = fx_mul(f, 16384);
            proof {
                lemma_quarter(f as int);
            }
            if point.x >= 0 && zn >= 0 {
                32768 + quarter
            } else if point.x < 0 && zn >= 0 {
                let cand: i64 = 49152 + quarter;
                if cand >= 65536 {
                    0
                } else {
                    cand
                }
            } else if point.x < 0 {
                let back: i64 = fx_mul(65536 - f, 16384);
                proof {
                    lemma_quarter((65536 - f) as int);
                }
                back
            } else {
                16384 + quarter
            }
        };
        (u, v)
    }

    /// Intersection by the quadratic `t^2 a + 2 t half_b + c = 0`.
    pub fn hit<'a>(&'a self, ray: &Ray, t_min: i64, t_max: i64) -> (r: Option<HitResult<'a>>)
        requires
            sphere_wf(*self),
            vec_bounded(ray.origin, WORLD_MAX as int),
            vec_bounded(ray.direction, WORLD_MAX as int),
            spec_qa(*ray) >= 1,
            iabs(ray.time as int) <= GEOM_MAX as int,
            transform_time_ok(self.transform, ray.time as int),
            iabs(t_min as int) <= T_LIM as int,
            iabs(t_max as int) <= T_LIM as int,
        ensures
            r.is_some() == spec_sphere_hit_t(*self, *ray, t_min as int, t_max as int).is_some(),
            r matches Some(hr) ==> {
                &&& Some(hr.t as int) == spec_sphere_hit_t(*self, *ray, t_min as int, t_max as int)
                &&& t_min <= hr.t <= t_max
                &&& sphere_hit_matches(*self, *ray, hr)
                &&& spec_dot(ray.direction, hr.normal) <= 0
                &&& vec_bounded(hr.normal, UNIT_MAX as int)
            },
    {
        let center: Point3 = self.transform.position(ray.time());
        let oc: Vec3 = ray.origin().sub(&center);
        proof {
            assert(vec_bounded(oc, 7 * GEOM_MAX));
            lemma_dot_bound(ray.direction, ray.direction, WORLD_MAX as int, WORLD_MAX as int);
            lemma_dot_bound(oc, ray.direction, 7 * GEOM_MAX, WORLD_MAX as int);
            lemma_dot_bound(oc, oc, 7 * GEOM_MAX, 7 * GEOM_MAX);
            lemma_fx_mul_bound(self.radius as int, self.radius as int, GEOM_MAX as int, GEOM_MAX as int);
            lemma_dot_self_nonneg(oc);
        }
        let a: i64 = ray.direction().length_squared();
        let half_b: i64 = oc.dot(&ray.direction());
        let c: i64 = oc.length_squared() - fx_mul(self.radius, self.radius);
        proof {
            lemma_fx_mul_bound(half_b as int, half_b as int, 0x54_0000_0000, 0x54_0000_0000);
            lemma_fx_mul_bound(a as int, c as int, 0x30_0000_0000, 0x95_0000_0000);
        }
        let discriminant: i64 = fx_mul(half_b, half_b) - fx_mul(a, c);
        if discriminant < 0 {
            return None;
        }
        let sqrtd: i64 = fx_sqrt(discriminant);
        proof {
            lemma_isqrt_spec((discriminant as int) * (FX_ONE as int));
            assert(sqrtd <= 0x80_0000_0000) by (nonlinear_arith)
                requires
                    sqrtd >= 0,
                    (sqrtd as int) * (sqrtd as int) <= (discriminant as int) * (FX_ONE as int),
                    discriminant <= 0x4000_0000_0000_0000,
            ;
            lemma_tdiv_abs_le(
                ((-half_b - sqrtd) as int) * (FX_ONE as int),
                a as int,
                0xD8_0000_0000 * (FX_ONE as int),
            );
            assert(iabs(((-half_b - sqrtd) as int) * (FX_ONE as int)) <= 0xD8_0000_0000 * (
            FX_ONE as int)) by (nonlinear_arith)
                requires
                    iabs((-half_b - sqrtd) as int) <= 0xD8_0000_0000,
            ;
        }
        let mut root: i64 = fx_div(-half_b - sqrtd, a);
        if root < t_min || t_max < root {
            proof {
                lemma_tdiv_abs_le(
                    ((-half_b + sqrtd) as int) * (FX_ONE as int),
                    a as int,
                    0xD8_0000_0000 * (FX_ONE as int),
                );
                assert(iabs(((-half_b + sqrtd) as int) * (FX_ONE as int)) <= 0xD8_0000_0000 * (
                FX_ONE as int)) by (nonlinear_arith)
                    requires
                        iabs((-half_b + sqrtd) as int) <= 0xD8_0000_0000,
                ;
            }
            root = fx_div(-half_b + sqrtd, a);
            if root < t_min || t_max < root {
                return None;
            }
        }
        let point: Point3 = ray.at(root);
        proof {
            lemma_fx_mul_bound(ray.direction.x as int, root as int, WORLD_MAX as int, T_LIM as int);
            lemma_fx_mul_bound(ray.direction.y as int, root as int, WORLD_MAX as int, T_LIM as int);
            lemma_fx_mul_bound(ray.direction.z as int, root as int, WORLD_MAX as int, T_LIM as int);
        }
        let diff: Vec3 = point.sub(&center);
        let lsq: i64 = diff.length_squared();
        let outward_normal: Vec3 = if lsq >= 1 {
            diff.normalized()
        } else {
            Vec3 { x: FX_ONE, y: 0, z: 0 }
        };
        let uv: (i64, i64) = Self::get_uv(&outward_normal);
        Some(HitResult::new(ray, point, outward_normal, root, uv, &self.material))
    }

    /// The box of the swept sphere over a time range.
    pub fn bounding_box(&self, time_start: i64, time_end: i64) -> (r: Aabb)
        requires
            sphere_wf(*self),
            transform_time_ok(self.transform, time_start as int),
            transform_time_ok(self.transform, time_end as int),
            iabs(time_start as int) <= GEOM_MAX as int,
            iabs(time_end as int) <= GEOM_MAX as int,
        ensures
            r == spec_sphere_box(*self, time_start as int, time_end as int),
            aabb_bounded(r, WORLD_MAX as int),
    {
        let offset: Vec3 = Vec3 { x: self.radius, y: self.radius, z: self.radius };
        let center0: Point3 = self.transform.position(time_start);
        let box0: Aabb = Aabb::new(center0.sub(&offset), center0.add(&offset));
        let center1: Point3 = self.transform.position(time_end);
        let box1: Aabb = Aabb::new(center1.sub(&offset), center1.add(&offset));
        Aabb::surround(&box0, &box1)
    }
}

/// A fraction of a magnitude over a larger magnitude stays in `[0, 1]`.
proof fn lemma_frac_in_unit(num: int, d: int)
    requires
        0 <= num <= d,
        d >= 1,
    ensures
        0 <= fx_div_spec(num, d) <= FX_ONE,
{
    crate::fx::lemma_tdiv_nonneg(num * (FX_ONE as int), d);
    assert(num * (FX_ONE as int) <= d * (FX_ONE as int)) by (nonlinear_arith)
        requires
            num <= d,
    ;
    vstd::arithmetic::div_mod::lemma_div_is_ordered(
        num * (FX_ONE as int),
        d * (FX_ONE as int),
        d,
    );
    vstd::arithmetic::div_mod::lemma_div_by_multiple(FX_ONE as int, d);
    assert(d * (FX_ONE as int) == (FX_ONE as int) * d) by (nonlinear_arith);
}

/// A quarter of a unit fraction stays in `[0, 1/4]`.
proof fn lemma_quarter(f: int)
    requires
        0 <= f <= FX_ONE,
    ensures
        fx_mul_spec(f, 16384) == tdiv(f, 4),
        0 <= tdiv(f, 4) <= 16384,
{
    assert(f * 16384 == (f / 4) * 65536 + (f % 4) * 16384) by (nonlinear_arith);
    assert(fx_mul_spec(f, 16384) == tdiv(f * 16384, 65536));
    crate::fx::lemma_tdiv_nonneg(f * 16384, 65536);
    crate::fx::lemma_tdiv_nonneg(f, 4);
    assert((f * 16384) / 65536 == f / 4) by (nonlinear_arith)
        requires
            f >= 0,
    ;
    vstd::arithmetic::div_mod::lemma_div_is_ordered(f, FX_ONE as int, 4);
}

} // verus!
