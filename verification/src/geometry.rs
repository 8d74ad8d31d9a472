//! Points, sizes and rectangles.
//!
//! Canvas space is the unbounded plane that tiles are placed on. Logical space is the screen as the
//! camera shows it, in pixels before the output scale; physical space is the output's own pixels.

use crate::float::Float;
use vstd::prelude::*;

verus! {

/// A position in canvas or logical space.
#[derive(Clone, Copy, Debug)]
pub struct Point {
    pub x: Float,
    pub y: Float,
}

/// An extent in canvas or logical space.
#[derive(Clone, Copy, Debug)]
pub struct Size {
    pub w: Float,
    pub h: Float,
}

/// An area of canvas or logical space.
#[derive(Clone, Copy, Debug)]
pub struct Rectangle {
    pub loc: Point,
    pub size: Size,
}

/// A position in physical pixels.
#[derive(Clone, Copy, Debug, PartialEq, Eq, Structural)]
pub struct PhysicalPoint {
    pub x: i32,
    pub y: i32,
}

/// A size in whole logical pixels, as windows know their own.
#[derive(Clone, Copy, Debug, PartialEq, Eq, Structural)]
pub struct WindowSize {
    pub w: i32,
    pub h: i32,
}

/// `v` on the nearest physical pixel, back in logical pixels.
pub open spec fn snapped(v: Float, scale: Float) -> Float {
    v.spec_mul(scale).spec_round().spec_div(scale)
}

impl Point {
    pub open spec fn spec_add(self, other: Point) -> Point {
        Point { x: self.x.spec_add(other.x), y: self.y.spec_add(other.y) }
    }

    pub open spec fn spec_sub(self, other: Point) -> Point {
        Point { x: self.x.spec_sub(other.x), y: self.y.spec_sub(other.y) }
    }

    /// Whether the difference of the two is one that the format holds.
    pub open spec fn subtracts_exactly(self, other: Point) -> bool {
        self.x.subtracts_exactly(other.x) && self.y.subtracts_exactly(other.y)
    }

    pub open spec fn spec_upscale(self, scale: Float) -> Point {
        Point { x: self.x.spec_mul(scale), y: self.y.spec_mul(scale) }
    }

    pub open spec fn spec_downscale(self, scale: Float) -> Point {
        Point { x: self.x.spec_div(scale), y: self.y.spec_div(scale) }
    }

    pub open spec fn spec_snap(self, scale: Float) -> Point {
        Point { x: snapped(self.x, scale), y: snapped(self.y, scale) }
    }

    pub open spec fn spec_to_physical(self, scale: Float) -> PhysicalPoint {
        PhysicalPoint {
            x: self.x.spec_mul(scale).spec_round().spec_to_i32() as i32,
            y: self.y.spec_mul(scale).spec_round().spec_to_i32() as i32,
        }
    }

    pub fn add(self, other: Point) -> (r: Point)
        ensures
            r == self.spec_add(other),
    {
        Point { x: self.x.add(other.x), y: self.y.add(other.y) }
    }

    pub fn sub(self, other: Point) -> (r: Point)
        ensures
            r == self.spec_sub(other),
    {
        Point { x: self.x.sub(other.x), y: self.y.sub(other.y) }
    }

    pub fn upscale(self, scale: Float) -> (r: Point)
        ensures
            r == self.spec_upscale(scale),
    {
        Point { x: self.x.mul(scale), y: self.y.mul(scale) }
    }

    pub fn downscale(self, scale: Float) -> (r: Point)
        ensures
            r == self.spec_downscale(scale),
    {
        Point { x: self.x.div(scale), y: self.y.div(scale) }
    }

    /// The point on the nearest physical pixel, in logical pixels.
    pub fn snap(self, scale: Float) -> (r: Point)
        ensures
            r == self.spec_snap(scale),
    {
        Point {
            x: self.x.mul(scale).round().div(scale),
            y: self.y.mul(scale).round().div(scale),
        }
    }

    /// The nearest physical pixel.
    pub fn to_physical(self, scale: Float) -> (r: PhysicalPoint)
        ensures
            r == self.spec_to_physical(scale),
    {
        PhysicalPoint {
            x: self.x.mul(scale).round().to_i32(),
            y: self.y.mul(scale).round().to_i32(),
        }
    }
}

} // verus!
