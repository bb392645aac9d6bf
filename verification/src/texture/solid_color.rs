//! The constant texture.

use crate::vec3::Color;
use vstd::prelude::*;

verus! {

pub struct SolidColor {
    pub color: Color,
}

impl SolidColor {
    pub fn new(color: Color) -> (r: Self)
        ensures
            r.color == color,
    {
        SolidColor { color }
    }

    pub fn color(&self) -> (r: Color)
        ensures
            r == self.color,
    {
        self.color
    }
}

} // verus!
