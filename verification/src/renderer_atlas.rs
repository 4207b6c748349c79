//! Renderer-side atlas allocator: the same first-fit guillotine packing as
//! [`crate::gpu_atlas`], restricted to layer 0 so that newly spawned
//! automata are visible immediately.

use vstd::prelude::*;
use crate::math::UVec2;
use crate::gpu_atlas::{
    Space, MAX_W, MAX_H, space_fits, space_in_range, is_first_fit, has_fit, first_fit,
    after_allocation, lemma_first_fit_unique, fresh_atlas, alloc_next, alloc_result,
};

verus! {

/// Free-list entry: `(offset, size)` on layer 0.
#[derive(Clone, Copy, Debug, PartialEq, Eq, Structural)]
pub struct Rect {
    pub off: UVec2,
    pub size: UVec2,
}

/// The layer-0 free rectangle a `Rect` stands for.
pub open spec fn rect_space(r: Rect) -> Space {
    (0u32, r.off, r.size)
}

/// Packs 2-D slices into the `MAX_W × MAX_H` atlas on layer 0.
pub struct AtlasAllocator {
    free: Vec<Rect>,
}

impl AtlasAllocator {
    /// The free list as layer-0 spaces, in order.
    pub closed spec fn spaces(&self) -> Seq<Space> {
        self.free@.map_values(|r: Rect| rect_space(r))
    }

    /// Every free rectangle can be split without overflow.
    pub closed spec fn wf(&self) -> bool {
        forall|i: int| 0 <= i < self.spaces().len() ==> space_in_range(#[trigger] self.spaces()[i])
    }

    /// One free rectangle covering the whole atlas.
    pub fn new() -> (r: Self)
        ensures
            r.wf(),
            r.spaces() == fresh_atlas(),
    {
        let mut free: Vec<Rect> = Vec::new();
        free.push(Rect { off: UVec2::zero(), size: UVec2::new(MAX_W, MAX_H) });
        let r = AtlasAllocator { free };
        assert(r.spaces() =~= seq![(0u32, UVec2 { x: 0, y: 0 }, UVec2 { x: MAX_W, y: MAX_H })]);
        r
    }

    /// First-fit guillotine split; returns `(0, offset)`, or `None` when no
    /// free rectangle is large enough.
    pub fn allocate(&mut self, size: UVec2) -> (r: Option<(u32, UVec2)>)
        requires
            old(self).wf(),
        ensures
            final(self).wf(),
            r is None <==> !has_fit(old(self).spaces(), size),
            r is None ==> final(self).spaces() == old(self).spaces(),
            r matches Some(res) ==> {
                let i = first_fit(old(self).spaces(), size);
                &&& is_first_fit(old(self).spaces(), size, i)
                &&& res.0 == 0
                &&& res.1 == old(self).spaces()[i].1
                &&& final(self).spaces() == after_allocation(old(self).spaces(), i, size)
            },
            final(self).spaces() == alloc_next(old(self).spaces(), size),
            r == alloc_result(old(self).spaces(), size),
    {
        let ghost s = self.spaces();
        let n = self.free.len();
        let mut idx: usize = 0;
        while idx < n
            invariant
                n == self.free@.len(),
                s == self.spaces(),
                idx <= n,
                forall|j: int| 0 <= j < idx ==> !space_fits(#[trigger] s[j], size),
            ensures
                idx <= n,
                forall|j: int| 0 <= j < idx ==> !space_fits(#[trigger] s[j], size),
                idx < n ==> space_fits(s[idx as int], size),
            decreases n - idx,
        {
            if size.fits(&self.free[idx].size) {
                break;
            }
            idx += 1;
        }
        if idx == n {
            return None;
        }
        proof {
            lemma_first_fit_unique(s, size, idx as int);
        }
        let rect = self.free.remove(idx);
        if rect.size.x > size.x {
            self.free.push(
                Rect {
                    off: UVec2::new(rect.off.x + size.x, rect.off.y),
                    size: UVec2::new(rect.size.x - size.x, size.y),
                },
            );
        }
        if rect.size.y > size.y {
            self.free.push(
                Rect {
                    off: UVec2::new(rect.off.x, rect.off.y + size.y),
                    size: UVec2::new(rect.size.x, rect.size.y - size.y),
                },
            );
        }
        assert(self.spaces() =~= after_allocation(s, idx as int, size));
        assert forall|k: int| 0 <= k < self.spaces().len() implies space_in_range(
            #[trigger] self.spaces()[k],
        ) by {
            if k < s.len() - 1 {
                if k < idx {
                    assert(self.spaces()[k] == s[k]);
                } else {
                    assert(self.spaces()[k] == s[k + 1]);
                }
            }
        }
        Some((0, rect.off))
    }

    /// Returns a slice to the free list (no merging); the layer is ignored.
    pub fn free(&mut self, layer: u32, off: UVec2, size: UVec2)
        requires
            old(self).wf(),
            space_in_range((0u32, off, size)),
        ensures
            final(self).wf(),
            final(self).spaces() == old(self).spaces().push((0u32, off, size)),
    {
        self.free.push(Rect { off, size });
        assert(self.spaces() =~= old(self).spaces().push((0u32, off, size)));
    }
}

} // verus!
