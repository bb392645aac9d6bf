//! A color as a pure function of a surface coordinate and a point.

pub mod checkered;
pub mod noise;
pub mod solid_color;

use crate::texture::checkered::{spec_checker_odd, Checkered};
use crate::texture::noise::{spec_noise_value, Noise};
use crate::texture::solid_color::SolidColor;
use crate::vec3::{color_unit, vec_bounded, Color, Point3};
use vstd::prelude::*;

verus! {

pub enum Texture {
    Solid(SolidColor),
    Checkered(Checkered),
    Noise(Noise),
}

/// Colors in `[0, 1]` and scales within bounds, throughout.
pub open spec fn texture_wf(t: Texture) -> bool
    decreases t,
{
    match t {
        Texture::Solid(s) => color_unit(s.color),
        Texture::Checkered(c) => {
            &&& 1 <= c.scale <= 0x40_0000
            &&& texture_wf(*c.even)
            &&& texture_wf(*c.odd)
        },
        Texture::Noise(n) => {
            &&& 1 <= n.scale <= 0x40_0000
            &&& crate::texture::noise::perlin_wf(n.perlin)
        },
    }
}

pub open spec fn spec_texture_value(t: Texture, u: int, v: int, p: Point3) -> Color
    decreases t,
{
    match t {
        Texture::Solid(s) => s.color,
        Texture::Checkered(c) => if spec_checker_odd(c.scale as int, p) {
            spec_texture_value(*c.odd, u, v, p)
        } else {
            spec_texture_value(*c.even, u, v, p)
        },
        Texture::Noise(n) => spec_noise_value(n, p),
    }
}

impl Texture {
    /// The color of the texture at a surface coordinate and point.
    pub fn value(&self, uv: (i64, i64), point: &Point3) -> (r: Color)
        requires
            texture_wf(*self),
            vec_bounded(*point, 0x40_0000_0000),
        ensures
            r == spec_texture_value(*self, uv.0 as int, uv.1 as int, *point),
            color_unit(r),
        decreases *self,
    {
        match self {
            Texture::Solid(s) => s.color,
            Texture::Checkered(c) => {
                if crate::texture::checkered::checker_odd(c.scale, point) {
                    c.odd.value(uv, point)
                } else {
                    c.even.value(uv, point)
                }
            },
            Texture::Noise(n) => crate::texture::noise::noise_value(n, point),
        }
    }
}

} // verus!
