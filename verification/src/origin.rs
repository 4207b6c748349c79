//! Floating origin: integer bookkeeping of the world offset accumulated
//! when the camera is re-centred by whole chunks.

use vstd::prelude::*;
use crate::math::IVec2;

verus! {

/// Size of one chunk in world units (the fixed snap distance).
pub const SNAP: i32 = 256;

/// Global world offset in world units, already multiplied by the cell size.
#[derive(Clone, Copy, Debug, PartialEq, Eq, Structural)]
pub struct WorldOffset(pub IVec2);

impl WorldOffset {
    /// No offset.
    pub fn new() -> (r: Self)
        ensures
            r.0 == (IVec2 { x: 0, y: 0 }),
    {
        WorldOffset(IVec2::zero())
    }

    /// Records a re-centring by `(dx, dy)` chunks of `snap` world units.
    pub fn accumulate(&mut self, dx: i32, dy: i32, snap: i32)
        requires
            i32::MIN <= dx * snap <= i32::MAX,
            i32::MIN <= dy * snap <= i32::MAX,
            i32::MIN <= old(self).0.x + dx * snap <= i32::MAX,
            i32::MIN <= old(self).0.y + dy * snap <= i32::MAX,
        ensures
            final(self).0.x == old(self).0.x + dx * snap,
            final(self).0.y == old(self).0.y + dy * snap,
    {
        let sx = dx * snap;
        let sy = dy * snap;
        self.0 = IVec2::new(self.0.x + sx, self.0.y + sy);
    }
}

/// `p` is a power of two.
pub open spec fn is_pow2(p: int) -> bool
    decreases p,
{
    if p <= 0 {
        false
    } else if p == 1 {
        true
    } else {
        p % 2 == 0 && is_pow2(p / 2)
    }
}

/// Snap distance for a half-viewport of `half` world units: the next power
/// of two at or above it, so snaps never happen on screen.
pub fn dynamic_snap(half: u32) -> (r: u32)
    requires
        half <= 0x8000_0000,
    ensures
        is_pow2(r as int),
        r >= half,
        r == 1 || r / 2 < half,
{
    let mut p: u32 = 1;
    while p < half
        invariant
            is_pow2(p as int),
            p == 1 || p / 2 < half,
            p >= 1,
            half <= 0x8000_0000,
        decreases 0x1_0000_0000 - p as int,
    {
        assert(is_pow2((p * 2) as int)) by {
            assert((p * 2) as int / 2 == p as int);
        }
        p = p * 2;
    }
    p
}

} // verus!
