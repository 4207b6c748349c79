//! Integer vectors used for grid coordinates, slice offsets and sizes.

use vstd::prelude::*;

verus! {

/// Two-component signed integer vector (world-grid coordinates).
#[derive(Clone, Copy, Debug, PartialEq, Eq, Structural, Hash)]
pub struct IVec2 {
    pub x: i32,
    pub y: i32,
}

impl IVec2 {
    pub fn new(x: i32, y: i32) -> (r: Self)
        ensures
            r.x == x,
            r.y == y,
    {
        IVec2 { x, y }
    }

    /// The origin `(0, 0)`.
    pub fn zero() -> (r: Self)
        ensures
            r.x == 0,
            r.y == 0,
    {
        IVec2 { x: 0, y: 0 }
    }
}

/// Two-component unsigned integer vector (sizes and atlas offsets).
#[derive(Clone, Copy, Debug, PartialEq, Eq, Structural, Hash)]
pub struct UVec2 {
    pub x: u32,
    pub y: u32,
}

impl UVec2 {
    pub fn new(x: u32, y: u32) -> (r: Self)
        ensures
            r.x == x,
            r.y == y,
    {
        UVec2 { x, y }
    }

    /// The vector `(0, 0)`.
    pub fn zero() -> (r: Self)
        ensures
            r.x == 0,
            r.y == 0,
    {
        UVec2 { x: 0, y: 0 }
    }

    /// The vector `(v, v)`.
    pub fn splat(v: u32) -> (r: Self)
        ensures
            r.x == v,
            r.y == v,
    {
        UVec2 { x: v, y: v }
    }

    /// Component-wise `self <= other` on both axes: a box of this size fits
    /// into a box of size `other`.
    pub open spec fn fits_in(self, other: UVec2) -> bool {
        self.x <= other.x && self.y <= other.y
    }

    pub fn fits(&self, other: &UVec2) -> (r: bool)
        ensures
            r == self.fits_in(*other),
    {
        self.x <= other.x && self.y <= other.y
    }
}

} // verus!
