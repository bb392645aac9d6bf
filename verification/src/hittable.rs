//! What a ray can intersect: a sphere, an unordered list, or a BVH node,
//! as a closed set of variants, plus the record a hit produces.

use crate::aabb::{aabb_bounded, aabb_hit_spec, spec_surround, Aabb};
use crate::bvh_node::BvhNode;
use crate::fx::{iabs, GEOM_MAX, T_LIM, WORLD_MAX};
use crate::hittable_list::HittableList;
use crate::material::{material_wf, Material};
use crate::ray::Ray;
use crate::sphere::{
    spec_sphere_box, spec_sphere_hit_t, sphere_hit_matches, sphere_wf, Sphere,
};
use crate::transform::transform_time_ok;
use crate::vec3::{lemma_dot_neg, spec_dot, spec_neg, vec_bounded, Point3, Vec3, DOT_MAX, UNIT_MAX};
use vstd::prelude::*;

verus! {

/// The record of a ray/surface intersection.
pub struct HitResult<'a> {
    pub point: Point3,
    pub normal: Vec3,
    pub t: i64,
    pub uv: (i64, i64),
    pub front_face: bool,
    pub material: &'a Material,
}

impl<'a> HitResult<'a> {
    /// Orients the stored normal against the incoming ray: the geometric
    /// normal is kept when the ray arrives from outside, flipped otherwise,
    /// so `direction . normal <= 0` always holds.
    pub fn new(
        ray: &Ray,
        point: Point3,
        outward_normal: Vec3,
        t: i64,
        uv: (i64, i64),
        material: &'a Material,
    ) -> (r: Self)
        requires
            vec_bounded(outward_normal, UNIT_MAX as int),
            vec_bounded(ray.direction, DOT_MAX as int),
        ensures
            r.front_face == (spec_dot(ray.direction, outward_normal) < 0),
            r.normal == (if r.front_face {
                outward_normal
            } else {
                spec_neg(outward_normal)
            }),
            spec_dot(ray.direction, r.normal) <= 0,
            vec_bounded(r.normal, UNIT_MAX as int),
            r.point == point && r.t == t && r.uv == uv && r.material == material,
    {
        let front_face: bool = ray.direction().dot(&outward_normal) < 0;
        let normal: Vec3 = if front_face {
            outward_normal
        } else {
            proof {
                lemma_dot_neg(outward_normal, ray.direction);
            }
            outward_normal.neg()
        };
        proof {
            if !front_face {
                assert(spec_dot(ray.direction, spec_neg(outward_normal)) == spec_dot(
                    spec_neg(outward_normal),
                    ray.direction,
                ));
            }
        }
        HitResult { point, normal, t, uv, front_face, material }
    }

    pub fn point(&self) -> (r: Point3)
        ensures
            r == self.point,
    {
        self.point
    }

    pub fn normal(&self) -> (r: Vec3)
        ensures
            r == self.normal,
    {
        self.normal
    }

    pub fn t(&self) -> (r: i64)
        ensures
            r == self.t,
    {
        self.t
    }

    pub fn uv(&self) -> (r: (i64, i64))
        ensures
            r == self.uv,
    {
        self.uv
    }

    pub fn front_face(&self) -> (r: bool)
        ensures
            r == self.front_face,
    {
        self.front_face
    }

    pub fn material(&self) -> (r: &'a Material)
        ensures
            r == self.material,
    {
        self.material
    }
}

pub enum Hittable {
    Sphere(Sphere),
    List(HittableList),
    Bvh(Box<BvhNode>),
}

/// Geometry within bounds and materials physically sensible, throughout
/// the tree.
pub open spec fn hittable_wf(h: Hittable) -> bool
    decreases h, 0int, 0int,
{
    match h {
        Hittable::Sphere(s) => sphere_wf(s),
        Hittable::List(l) => list_wf_prefix(l, l.list@.len() as int),
        Hittable::Bvh(b) => {
            &&& hittable_wf(b.left)
            &&& hittable_wf(b.right)
            &&& aabb_bounded(b.bounds, WORLD_MAX as int)
        },
    }
}

pub open spec fn list_wf_prefix(l: HittableList, n: int) -> bool
    decreases l, n, 1int,
{
    if n <= 0 || n > l.list@.len() {
        true
    } else {
        list_wf_prefix(l, n - 1) && hittable_wf(l.list@[n - 1])
    }
}

/// The sample time lies inside every moving transform's declared range.
pub open spec fn hittable_time_ok(h: Hittable, time: int) -> bool
    decreases h, 0int, 0int,
{
    match h {
        Hittable::Sphere(s) => transform_time_ok(s.transform, time),
        Hittable::List(l) => list_time_ok_prefix(l, l.list@.len() as int, time),
        Hittable::Bvh(b) => hittable_time_ok(b.left, time) && hittable_time_ok(b.right, time),
    }
}

pub open spec fn list_time_ok_prefix(l: HittableList, n: int, time: int) -> bool
    decreases l, n, 1int,
{
    if n <= 0 || n > l.list@.len() {
        true
    } else {
        list_time_ok_prefix(l, n - 1, time) && hittable_time_ok(l.list@[n - 1], time)
    }
}

/// The bounding box over a time range, when every member has one.
pub open spec fn spec_box(h: Hittable, t0: int, t1: int) -> Option<Aabb>
    decreases h, 0int, 0int,
{
    match h {
        Hittable::Sphere(s) => Some(spec_sphere_box(s, t0, t1)),
        Hittable::List(l) => spec_list_box_prefix(l, l.list@.len() as int, t0, t1),
        Hittable::Bvh(b) => Some(b.bounds),
    }
}

pub open spec fn spec_list_box_prefix(l: HittableList, n: int, t0: int, t1: int) -> Option<Aabb>
    decreases l, n, 1int,
{
    if n <= 0 || n > l.list@.len() {
        None
    } else if n == 1 {
        spec_box(l.list@[0], t0, t1)
    } else {
        match (spec_list_box_prefix(l, n - 1, t0, t1), spec_box(l.list@[n - 1], t0, t1)) {
            (Some(a), Some(b)) => Some(spec_surround(a, b)),
            _ => None,
        }
    }
}

/// The parameter of the closest accepted intersection, mirroring the
/// traversal: a sphere selects its nearer in-range root; a list scans
/// left to right, shrinking the upper bound to the best parameter found;
/// a BVH node prunes on its box, then searches left, then right within
/// the left hit's parameter.
pub open spec fn spec_hit_t(h: Hittable, ray: Ray, t0: int, t1: int) -> Option<int>
    decreases h, 0int, 0int,
{
    match h {
        Hittable::Sphere(s) => spec_sphere_hit_t(s, ray, t0, t1),
        Hittable::List(l) => spec_list_hit_prefix(l, l.list@.len() as int, ray, t0, t1),
        Hittable::Bvh(b) => {
            if !aabb_hit_spec(b.bounds, ray, t0, t1) {
                None
            } else {
                match spec_hit_t(b.left, ray, t0, t1) {
                    Some(lt) => match spec_hit_t(b.right, ray, t0, lt) {
                        Some(rt) => Some(rt),
                        None => Some(lt),
                    },
                    None => spec_hit_t(b.right, ray, t0, t1),
                }
            }
        },
    }
}

pub open spec fn spec_list_hit_prefix(l: HittableList, n: int, ray: Ray, t0: int, t1: int) -> Option<
    int,
>
    decreases l, n, 1int,
{
    if n <= 0 || n > l.list@.len() {
        None
    } else {
        let prefix = spec_list_hit_prefix(l, n - 1, ray, t0, t1);
        let cur = match prefix {
            Some(t) => t,
            None => t1,
        };
        match spec_hit_t(l.list@[n - 1], ray, t0, cur) {
            Some(t) => Some(t),
            None => prefix,
        }
    }
}

/// Every BVH node's cached box is the exact union of its children's
/// boxes over the construction time range (the left child always has
/// one; a missing right box leaves the left box standing).
pub open spec fn bvh_linked(h: Hittable, t0: int, t1: int) -> bool
    decreases h, 0int, 0int,
{
    match h {
        Hittable::Sphere(_) => true,
        Hittable::List(l) => list_linked_prefix(l, l.list@.len() as int, t0, t1),
        Hittable::Bvh(b) => {
            &&& spec_box(b.left, t0, t1) is Some
            &&& b.bounds == spec_node_bounds(b.left, b.right, t0, t1)
            &&& bvh_linked(b.left, t0, t1)
            &&& bvh_linked(b.right, t0, t1)
        },
    }
}

pub open spec fn list_linked_prefix(l: HittableList, n: int, t0: int, t1: int) -> bool
    decreases l, n, 1int,
{
    if n <= 0 || n > l.list@.len() {
        true
    } else {
        list_linked_prefix(l, n - 1, t0, t1) && bvh_linked(l.list@[n - 1], t0, t1)
    }
}

/// The box a node caches for its two children.
pub open spec fn spec_node_bounds(left: Hittable, right: Hittable, t0: int, t1: int) -> Aabb {
    let lb = spec_box(left, t0, t1)->Some_0;
    match spec_box(right, t0, t1) {
        Some(rb) => spec_surround(lb, rb),
        None => lb,
    }
}

/// The record came from one of the spheres of the tree.
pub open spec fn good_hit(h: Hittable, ray: Ray, hr: HitResult) -> bool
    decreases h, 0int, 0int,
{
    match h {
        Hittable::Sphere(s) => sphere_hit_matches(s, ray, hr),
        Hittable::List(l) => exists|i: int|
            0 <= i < l.list@.len() && good_hit(#[trigger] l.list@[i], ray, hr),
        Hittable::Bvh(b) => good_hit(b.left, ray, hr) || good_hit(b.right, ray, hr),
    }
}

/// The fields of a hit record with the material by value: the form
/// specifications quantify over, free of the borrow a `HitResult`
/// carries.
pub struct HitData {
    pub point: Point3,
    pub normal: Vec3,
    pub t: i64,
    pub uv: (i64, i64),
    pub front_face: bool,
    pub material: Material,
}

pub open spec fn hit_data_of(hr: HitResult) -> HitData {
    HitData {
        point: hr.point,
        normal: hr.normal,
        t: hr.t,
        uv: hr.uv,
        front_face: hr.front_face,
        material: *hr.material,
    }
}

/// `good_hit`, stated over the reference-free record.
pub open spec fn good_hit_data(h: Hittable, ray: Ray, hd: HitData) -> bool
    decreases h, 0int, 0int,
{
    match h {
        Hittable::Sphere(s) => crate::sphere::sphere_hit_data_matches(s, ray, hd),
        Hittable::List(l) => exists|i: int|
            0 <= i < l.list@.len() && good_hit_data(#[trigger] l.list@[i], ray, hd),
        Hittable::Bvh(b) => good_hit_data(b.left, ray, hd) || good_hit_data(b.right, ray, hd),
    }
}

/// A record traced to a sphere keeps that pedigree once the borrow is
/// replaced by the material value.
pub proof fn lemma_good_hit_data(h: Hittable, ray: Ray, hr: HitResult)
    requires
        good_hit(h, ray, hr),
    ensures
        good_hit_data(h, ray, hit_data_of(hr)),
    decreases h, 0int, 0int,
{
    match h {
        Hittable::Sphere(_) => {
        },
        Hittable::List(l) => {
            let i = choose|i: int|
                0 <= i < l.list@.len() && good_hit(#[trigger] l.list@[i], ray, hr);
            lemma_good_hit_data(l.list@[i], ray, hr);
        },
        Hittable::Bvh(b) => {
            if good_hit(b.left, ray, hr) {
                lemma_good_hit_data(b.left, ray, hr);
            } else {
                lemma_good_hit_data(b.right, ray, hr);
            }
        },
    }
}

/// Everything a ray handed to an intersection query must satisfy.
pub open spec fn ray_ok(h: Hittable, ray: Ray) -> bool {
    &&& vec_bounded(ray.origin, WORLD_MAX as int)
    &&& vec_bounded(ray.direction, WORLD_MAX as int)
    &&& spec_dot(ray.direction, ray.direction) >= 1
    &&& iabs(ray.time as int) <= GEOM_MAX as int
    &&& hittable_time_ok(h, ray.time as int)
}

/// A sample time between two admissible times is admissible: every
/// transform's range is an interval.
pub proof fn lemma_time_ok_between(h: Hittable, t0: int, t1: int, t: int)
    requires
        hittable_time_ok(h, t0),
        hittable_time_ok(h, t1),
        t0 <= t <= t1,
    ensures
        hittable_time_ok(h, t),
    decreases h, 0int, 0int,
{
    match h {
        Hittable::Sphere(_) => {
        },
        Hittable::List(l) => {
            lemma_list_time_ok_between(l, l.list@.len() as int, t0, t1, t);
        },
        Hittable::Bvh(b) => {
            lemma_time_ok_between(b.left, t0, t1, t);
            lemma_time_ok_between(b.right, t0, t1, t);
        },
    }
}

pub proof fn lemma_list_time_ok_between(l: HittableList, n: int, t0: int, t1: int, t: int)
    requires
        list_time_ok_prefix(l, n, t0),
        list_time_ok_prefix(l, n, t1),
        t0 <= t <= t1,
    ensures
        list_time_ok_prefix(l, n, t),
    decreases l, n, 1int,
{
    if n <= 0 || n > l.list@.len() {
    } else {
        lemma_list_time_ok_between(l, n - 1, t0, t1, t);
        lemma_time_ok_between(l.list@[n - 1], t0, t1, t);
    }
}

/// An accepted parameter lies inside the queried window.
pub proof fn lemma_hit_t_in_range(h: Hittable, ray: Ray, t0: int, t1: int)
    ensures
        spec_hit_t(h, ray, t0, t1) matches Some(t) ==> t0 <= t <= t1,
    decreases h, 0int, 0int,
{
    match h {
        Hittable::Sphere(_) => {
        },
        Hittable::List(l) => {
            lemma_list_hit_prefix_in_range(l, l.list@.len() as int, ray, t0, t1);
        },
        Hittable::Bvh(b) => {
            lemma_hit_t_in_range(b.left, ray, t0, t1);
            lemma_hit_t_in_range(b.right, ray, t0, t1);
            match spec_hit_t(b.left, ray, t0, t1) {
                Some(lt) => {
                    lemma_hit_t_in_range(b.right, ray, t0, lt);
                },
                None => {
                },
            }
        },
    }
}

pub proof fn lemma_list_hit_prefix_in_range(l: HittableList, n: int, ray: Ray, t0: int, t1: int)
    ensures
        spec_list_hit_prefix(l, n, ray, t0, t1) matches Some(t) ==> t0 <= t <= t1,
    decreases l, n, 1int,
{
    if n <= 0 || n > l.list@.len() {
    } else {
        lemma_list_hit_prefix_in_range(l, n - 1, ray, t0, t1);
        let prefix = spec_list_hit_prefix(l, n - 1, ray, t0, t1);
        let cur = match prefix {
            Some(t) => t,
            None => t1,
        };
        lemma_hit_t_in_range(l.list@[n - 1], ray, t0, cur);
    }
}

impl Hittable {
    /// The closest intersection of the ray with this surface in the
    /// given parameter window.
    ///
    /// For a BVH the result is exactly what a brute-force linear scan of
    /// its leaves returns — proved in `crate::laws` for every ray whose
    /// leaf hits pass the strict slab test of their own boxes
    /// (`leaves_conservative` there); a ray exactly grazing a leaf box's
    /// face can be pruned, the fixed-point counterpart of the
    /// pathological tangent rays a float box test also mishandles.
    pub fn hit<'a>(&'a self, ray: &Ray, t_min: i64, t_max: i64) -> (r: Option<HitResult<'a>>)
        requires
            hittable_wf(*self),
            ray_ok(*self, *ray),
            iabs(t_min as int) <= T_LIM as int,
            iabs(t_max as int) <= T_LIM as int,
        ensures
            r.is_some() == spec_hit_t(*self, *ray, t_min as int, t_max as int).is_some(),
            r matches Some(hr) ==> {
                &&& Some(hr.t as int) == spec_hit_t(*self, *ray, t_min as int, t_max as int)
                &&& t_min <= hr.t <= t_max
                &&& good_hit(*self, *ray, hr)
                &&& spec_dot(ray.direction, hr.normal) <= 0
                &&& vec_bounded(hr.normal, UNIT_MAX as int)
            },
        decreases *self,
    {
        match self {
            Hittable::Sphere(s) => s.hit(ray, t_min, t_max),
            Hittable::List(l) => crate::hittable_list::list_hit(l, ray, t_min, t_max),
            Hittable::Bvh(b) => crate::bvh_node::node_hit(b, ray, t_min, t_max),
        }
    }

    /// The bounding box over a time range, if every member has one.
    pub fn bounding_box(&self, time_start: i64, time_end: i64) -> (r: Option<Aabb>)
        requires
            hittable_wf(*self),
            hittable_time_ok(*self, time_start as int),
            hittable_time_ok(*self, time_end as int),
            iabs(time_start as int) <= GEOM_MAX as int,
            iabs(time_end as int) <= GEOM_MAX as int,
        ensures
            r == spec_box(*self, time_start as int, time_end as int),
            r matches Some(b) ==> aabb_bounded(b, WORLD_MAX as int),
        decreases *self,
    {
        match self {
            Hittable::Sphere(s) => Some(s.bounding_box(time_start, time_end)),
            Hittable::List(l) => crate::hittable_list::list_bounding_box(l, time_start, time_end),
            Hittable::Bvh(b) => Some(b.bounds),
        }
    }
}

/// A record produced by a well-formed tree carries a well-formed
/// material and a hit point within the numeric world.
pub proof fn lemma_good_hit_props(h: Hittable, ray: Ray, hr: HitResult)
    requires
        hittable_wf(h),
        good_hit(h, ray, hr),
        vec_bounded(ray.origin, WORLD_MAX as int),
        vec_bounded(ray.direction, WORLD_MAX as int),
        iabs(hr.t as int) <= T_LIM as int,
    ensures
        material_wf(*hr.material),
        vec_bounded(hr.point, 0x40_0000_0000),
    decreases h, 0int, 0int,
{
    match h {
        Hittable::Sphere(s) => {
            crate::fx::lemma_fx_mul_bound(
                ray.direction.x as int,
                hr.t as int,
                WORLD_MAX as int,
                T_LIM as int,
            );
            crate::fx::lemma_fx_mul_bound(
                ray.direction.y as int,
                hr.t as int,
                WORLD_MAX as int,
                T_LIM as int,
            );
            crate::fx::lemma_fx_mul_bound(
                ray.direction.z as int,
                hr.t as int,
                WORLD_MAX as int,
                T_LIM as int,
            );
        },
        Hittable::List(l) => {
            let i = choose|i: int|
                0 <= i < l.list@.len() && good_hit(#[trigger] l.list@[i], ray, hr);
            crate::hittable_list::lemma_list_wf_at(l, l.list@.len() as int, i);
            lemma_good_hit_props(l.list@[i], ray, hr);
        },
        Hittable::Bvh(b) => {
            if good_hit(b.left, ray, hr) {
                lemma_good_hit_props(b.left, ray, hr);
            } else {
                lemma_good_hit_props(b.right, ray, hr);
            }
        },
    }
}

/// A box reported by the tree stays within the world bound.
pub proof fn lemma_spec_box_bounded(h: Hittable, t0: int, t1: int)
    requires
        hittable_wf(h),
        hittable_time_ok(h, t0),
        hittable_time_ok(h, t1),
    ensures
        spec_box(h, t0, t1) matches Some(b) ==> aabb_bounded(b, WORLD_MAX as int),
    decreases h, 0int, 0int,
{
    match h {
        Hittable::Sphere(s) => {
            crate::sphere::lemma_sphere_box_bounded(s, t0, t1);
        },
        Hittable::List(l) => {
            lemma_list_box_prefix_bounded(l, l.list@.len() as int, t0, t1);
        },
        Hittable::Bvh(b) => {
        },
    }
}

pub proof fn lemma_list_box_prefix_bounded(l: HittableList, n: int, t0: int, t1: int)
    requires
        list_wf_prefix(l, n),
        list_time_ok_prefix(l, n, t0),
        list_time_ok_prefix(l, n, t1),
    ensures
        spec_list_box_prefix(l, n, t0, t1) matches Some(b) ==> aabb_bounded(
            b,
            WORLD_MAX as int,
        ),
    decreases l, n, 1int,
{
    if n <= 0 || n > l.list@.len() {
    } else if n == 1 {
        lemma_spec_box_bounded(l.list@[0], t0, t1);
    } else {
        lemma_list_box_prefix_bounded(l, n - 1, t0, t1);
        lemma_spec_box_bounded(l.list@[n - 1], t0, t1);
    }
}

} // verus!
