//! An unordered collection of surfaces, scanned linearly for the
//! closest hit.

use crate::aabb::{aabb_bounded, Aabb};
use crate::fx::{iabs, GEOM_MAX, T_LIM, WORLD_MAX};
use crate::hittable::{
    hittable_time_ok, hittable_wf, good_hit, list_time_ok_prefix, list_wf_prefix,
    spec_box, spec_hit_t, spec_list_box_prefix, spec_list_hit_prefix, HitResult, Hittable,
};
use crate::ray::Ray;
use crate::vec3::{spec_dot, vec_bounded, UNIT_MAX};
use vstd::prelude::*;

verus! {

pub struct HittableList {
    pub list: Vec<Hittable>,
}

impl HittableList {
    pub fn new() -> (r: Self)
        ensures
            r.list@.len() == 0,
    {
        HittableList { list: Vec::new() }
    }

    pub fn from(list: Vec<Hittable>) -> (r: Self)
        ensures
            r.list == list,
    {
        HittableList { list }
    }

    pub fn clear(&mut self)
        ensures
            final(self).list@.len() == 0,
    {
        self.list.clear()
    }

    pub fn add(&mut self, hittable: Hittable)
        ensures
            final(self).list@ == old(self).list@.push(hittable),
    {
        self.list.push(hittable)
    }

    pub fn list(&self) -> (r: &Vec<Hittable>)
        ensures
            r == &self.list,
    {
        &self.list
    }

    pub fn len(&self) -> (r: usize)
        ensures
            r == self.list@.len(),
    {
        self.list.len()
    }
}

/// Well-formedness of a prefix extends to each member.
pub proof fn lemma_list_wf_at(l: HittableList, n: int, i: int)
    requires
        list_wf_prefix(l, n),
        0 <= i < n,
        n <= l.list@.len(),
    ensures
        hittable_wf(l.list@[i]),
    decreases n,
{
    if i < n - 1 {
        lemma_list_wf_at(l, n - 1, i);
    }
}

pub proof fn lemma_list_time_ok_at(l: HittableList, n: int, time: int, i: int)
    requires
        list_time_ok_prefix(l, n, time),
        0 <= i < n,
        n <= l.list@.len(),
    ensures
        hittable_time_ok(l.list@[i], time),
    decreases n,
{
    if i < n - 1 {
        lemma_list_time_ok_at(l, n - 1, time, i);
    }
}

/// Once some member lacks a box, every longer prefix lacks one.
proof fn lemma_list_box_absorb(l: HittableList, k: int, n: int, t0: int, t1: int)
    requires
        1 <= k <= n,
        n <= l.list@.len(),
        spec_list_box_prefix(l, k, t0, t1) is None,
    ensures
        spec_list_box_prefix(l, n, t0, t1) is None,
    decreases n,
{
    if n > k {
        lemma_list_box_absorb(l, k, n - 1, t0, t1);
    }
}

/// The linear closest-hit scan: each accepted hit shrinks the upper
/// bound of the window, so the last accepted hit is the closest.
pub fn list_hit<'a>(l: &'a HittableList, ray: &Ray, t_min: i64, t_max: i64) -> (r: Option<
    HitResult<'a>,
>)
    requires
        list_wf_prefix(*l, l.list@.len() as int),
        vec_bounded(ray.origin, WORLD_MAX as int),
        vec_bounded(ray.direction, WORLD_MAX as int),
        spec_dot(ray.direction, ray.direction) >= 1,
        iabs(ray.time as int) <= GEOM_MAX as int,
        list_time_ok_prefix(*l, l.list@.len() as int, ray.time as int),
        iabs(t_min as int) <= T_LIM as int,
        iabs(t_max as int) <= T_LIM as int,
    ensures
        r.is_some() == spec_list_hit_prefix(*l, l.list@.len() as int, *ray, t_min as int, t_max as int).is_some(),
        r matches Some(hr) ==> {
            &&& Some(hr.t as int) == spec_list_hit_prefix(*l, l.list@.len() as int, *ray, t_min as int, t_max as int)
            &&& t_min <= hr.t <= t_max
            &&& exists|i: int| 0 <= i < l.list@.len() && good_hit(#[trigger] l.list@[i], *ray, hr)
            &&& spec_dot(ray.direction, hr.normal) <= 0
            &&& vec_bounded(hr.normal, UNIT_MAX as int)
        },
    decreases *l, 1int,
{
    let ghost n = l.list@.len() as int;
    let mut best: Option<HitResult<'a>> = None;
    let mut closest: i64 = t_max;
    let mut idx: usize = 0;
    while idx < l.list.len()
        invariant
            0 <= idx <= l.list@.len(),
            n == l.list@.len() as int,
            list_wf_prefix(*l, n),
            list_time_ok_prefix(*l, n, ray.time as int),
            vec_bounded(ray.origin, WORLD_MAX as int),
            vec_bounded(ray.direction, WORLD_MAX as int),
            spec_dot(ray.direction, ray.direction) >= 1,
            iabs(ray.time as int) <= GEOM_MAX as int,
            iabs(t_min as int) <= T_LIM as int,
            iabs(t_max as int) <= T_LIM as int,
            best.is_some() == spec_list_hit_prefix(*l, idx as int, *ray, t_min as int, t_max as int).is_some(),
            best is None ==> closest == t_max,
            best matches Some(hr) ==> {
                &&& Some(hr.t as int) == spec_list_hit_prefix(*l, idx as int, *ray, t_min as int, t_max as int)
                &&& closest == hr.t
                &&& t_min <= hr.t <= t_max
                &&& exists|i: int| 0 <= i < idx && good_hit(#[trigger] l.list@[i], *ray, hr)
                &&& spec_dot(ray.direction, hr.normal) <= 0
                &&& vec_bounded(hr.normal, UNIT_MAX as int)
            },
        decreases l.list@.len() - idx,
    {
        proof {
            lemma_list_wf_at(*l, n, idx as int);
            lemma_list_time_ok_at(*l, n, ray.time as int, idx as int);
        }
        let item: &Hittable = &l.list[idx];
        match item.hit(ray, t_min, closest) {
            Some(res) => {
                closest = res.t();
                proof {
                    assert(good_hit(l.list@[idx as int], *ray, res));
                }
                best = Some(res);
            },
            None => {
            },
        }
        idx = idx + 1;
    }
    best
}

/// The union of the members' boxes, absent when any member lacks one or
/// the list is empty.
pub fn list_bounding_box(l: &HittableList, time_start: i64, time_end: i64) -> (r: Option<Aabb>)
    requires
        list_wf_prefix(*l, l.list@.len() as int),
        list_time_ok_prefix(*l, l.list@.len() as int, time_start as int),
        list_time_ok_prefix(*l, l.list@.len() as int, time_end as int),
        iabs(time_start as int) <= GEOM_MAX as int,
        iabs(time_end as int) <= GEOM_MAX as int,
    ensures
        r == spec_list_box_prefix(*l, l.list@.len() as int, time_start as int, time_end as int),
        r matches Some(b) ==> aabb_bounded(b, WORLD_MAX as int),
    decreases *l, 1int,
{
    let ghost n = l.list@.len() as int;
    let ghost t0 = time_start as int;
    let ghost t1 = time_end as int;
    if l.list.len() == 0 {
        return None;
    }
    let mut result: Option<Aabb> = None;
    let mut idx: usize = 0;
    while idx < l.list.len()
        invariant
            0 <= idx <= l.list@.len(),
            n == l.list@.len() as int,
            n >= 1,
            t0 == time_start as int,
            t1 == time_end as int,
            list_wf_prefix(*l, n),
            list_time_ok_prefix(*l, n, t0),
            list_time_ok_prefix(*l, n, t1),
            iabs(time_start as int) <= GEOM_MAX as int,
            iabs(time_end as int) <= GEOM_MAX as int,
            result == spec_list_box_prefix(*l, idx as int, t0, t1),
            idx >= 1 ==> result.is_some(),
            result matches Some(b) ==> aabb_bounded(b, WORLD_MAX as int),
        decreases l.list@.len() - idx,
    {
        proof {
            lemma_list_wf_at(*l, n, idx as int);
            lemma_list_time_ok_at(*l, n, t0, idx as int);
            lemma_list_time_ok_at(*l, n, t1, idx as int);
        }
        let item: &Hittable = &l.list[idx];
        match item.bounding_box(time_start, time_end) {
            Some(aabb) => {
                result = match result {
                    Some(res) => Some(Aabb::surround(&res, &aabb)),
                    None => Some(aabb),
                };
            },
            None => {
                proof {
                    if idx as int + 1 < n {
                        lemma_list_box_absorb(*l, idx as int + 1, n, t0, t1);
                    }
                }
                return None;
            },
        }
        idx = idx + 1;
    }
    result
}

} // verus!
