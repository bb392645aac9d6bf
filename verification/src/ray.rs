//! A parameterized line: origin, direction and a sample time for motion blur.

use crate::fx::{iabs, WORLD_MAX};
use crate::vec3::{spec_add, spec_scale, vec_bounded, Point3, Vec3, DOT_MAX};
use vstd::prelude::*;

verus! {

#[derive(Clone, Copy, Debug, PartialEq, Eq, Structural)]
pub struct Ray {
    pub origin: Point3,
    pub direction: Vec3,
    pub time: i64,
}

/// Origin, direction and time all within the world bound.
pub open spec fn ray_bounded(r: Ray) -> bool {
    &&& vec_bounded(r.origin, WORLD_MAX as int)
    &&& vec_bounded(r.direction, WORLD_MAX as int)
    &&& iabs(r.time as int) <= WORLD_MAX as int
}

/// The point `origin + t * direction`.
pub open spec fn spec_ray_at(r: Ray, t: int) -> Point3 {
    spec_add(r.origin, spec_scale(r.direction, t))
}

impl Ray {
    pub fn new(origin: Point3, direction: Vec3, time: i64) -> (r: Self)
        ensures
            r == (Ray { origin, direction, time }),
    {
        Ray { origin, direction, time }
    }

    pub fn origin(&self) -> (r: Point3)
        ensures
            r == self.origin,
    {
        self.origin
    }

    pub fn direction(&self) -> (r: Vec3)
        ensures
            r == self.direction,
    {
        self.direction
    }

    pub fn time(&self) -> (r: i64)
        ensures
            r == self.time,
    {
        self.time
    }

    pub fn at(&self, t: i64) -> (r: Point3)
        requires
            vec_bounded(self.origin, 0x3fff_ffff_ffff_ffff),
            vec_bounded(self.direction, DOT_MAX as int),
            iabs(t as int) <= DOT_MAX as int,
        ensures
            r == spec_ray_at(*self, t as int),
    {
        let s: Vec3 = self.direction.scale(t);
        proof {
            crate::fx::lemma_fx_mul_bound(self.direction.x as int, t as int, DOT_MAX as int, DOT_MAX as int);
            crate::fx::lemma_fx_mul_bound(self.direction.y as int, t as int, DOT_MAX as int, DOT_MAX as int);
            crate::fx::lemma_fx_mul_bound(self.direction.z as int, t as int, DOT_MAX as int, DOT_MAX as int);
        }
        self.origin.add(&s)
    }
}

} // verus!
