//! Guillotine allocator packing 2-D automaton slices into the layered
//! GPU state-texture atlas (`MAX_W × MAX_H × MAX_LAYERS`).

use vstd::prelude::*;
use crate::math::UVec2;
use crate::rect::{in_box, lemma_guillotine_split};

verus! {

/// Atlas width in texels.
pub const MAX_W: u32 = 1024;
/// Atlas height in texels.
pub const MAX_H: u32 = 1024;
/// Number of atlas layers.
pub const MAX_LAYERS: u32 = 256;

/// A free rectangle of the atlas: `(layer, offset, size)`.
pub type Space = (u32, UVec2, UVec2);

/// Texel `(x, y)` of layer `l` lies in the free rectangle `sp`.
pub open spec fn space_covers(sp: Space, l: int, x: int, y: int) -> bool {
    sp.0 == l && in_box(sp.1.x as int, sp.1.y as int, sp.2.x as int, sp.2.y as int, x, y)
}

/// A request of `size` fits into the free rectangle `sp`.
pub open spec fn space_fits(sp: Space, size: UVec2) -> bool {
    size.fits_in(sp.2)
}

/// The far corner of `sp` is representable, so splitting it cannot overflow.
pub open spec fn space_in_range(sp: Space) -> bool {
    sp.1.x + sp.2.x <= u32::MAX && sp.1.y + sp.2.y <= u32::MAX
}

/// Index `i` is the first free rectangle of `s` that fits `size`.
pub open spec fn is_first_fit(s: Seq<Space>, size: UVec2, i: int) -> bool {
    &&& 0 <= i < s.len()
    &&& space_fits(s[i], size)
    &&& forall|j: int| 0 <= j < i ==> !space_fits(#[trigger] s[j], size)
}

/// Some free rectangle of `s` fits `size`.
pub open spec fn has_fit(s: Seq<Space>, size: UVec2) -> bool {
    exists|i: int| 0 <= i < s.len() && space_fits(#[trigger] s[i], size)
}

/// The first-fit index (meaningful when `has_fit(s, size)`).
pub open spec fn first_fit(s: Seq<Space>, size: UVec2) -> int {
    choose|i: int| is_first_fit(s, size, i)
}

/// Strip left to the right of a `size` box carved from `sp` (empty when the
/// box spans the full width).
pub open spec fn right_rest(sp: Space, size: UVec2) -> Seq<Space> {
    if sp.2.x > size.x {
        seq![
            (
                sp.0,
                UVec2 { x: (sp.1.x + size.x) as u32, y: sp.1.y },
                UVec2 { x: (sp.2.x - size.x) as u32, y: size.y },
            ),
        ]
    } else {
        seq![]
    }
}

/// Strip left below a `size` box carved from `sp` (empty when the box spans
/// the full height).
pub open spec fn below_rest(sp: Space, size: UVec2) -> Seq<Space> {
    if sp.2.y > size.y {
        seq![
            (
                sp.0,
                UVec2 { x: sp.1.x, y: (sp.1.y + size.y) as u32 },
                UVec2 { x: sp.2.x, y: (sp.2.y - size.y) as u32 },
            ),
        ]
    } else {
        seq![]
    }
}

/// Free list after carving `size` from the corner of entry `i`: the entry is
/// removed and its right and lower remainders are appended, in that order.
pub open spec fn after_allocation(s: Seq<Space>, i: int, size: UVec2) -> Seq<Space> {
    s.remove(i) + right_rest(s[i], size) + below_rest(s[i], size)
}

/// The rectangle handed out when `size` is carved from `sp`.
pub open spec fn carved(sp: Space, size: UVec2) -> Space {
    (sp.0, sp.1, size)
}

/// Texel `(l, x, y)` is free according to the list `s`.
pub open spec fn covered(s: Seq<Space>, l: int, x: int, y: int) -> bool {
    exists|k: int| 0 <= k < s.len() && #[trigger] space_covers(s[k], l, x, y)
}

/// No texel is listed as free twice.
pub open spec fn pairwise_disjoint(s: Seq<Space>) -> bool {
    forall|i: int, j: int, l: int, x: int, y: int|
        0 <= i < s.len() && 0 <= j < s.len() && i != j && #[trigger] space_covers(s[i], l, x, y)
            ==> !#[trigger] space_covers(s[j], l, x, y)
}

/// The free list of a fresh atlas: all of layer 0.
pub open spec fn fresh_atlas() -> Seq<Space> {
    seq![(0u32, UVec2 { x: 0, y: 0 }, UVec2 { x: MAX_W, y: MAX_H })]
}

/// Free list after one first-fit allocation of `size` (unchanged when
/// nothing fits).
pub open spec fn alloc_next(s: Seq<Space>, size: UVec2) -> Seq<Space> {
    if has_fit(s, size) {
        after_allocation(s, first_fit(s, size), size)
    } else {
        s
    }
}

/// What one first-fit allocation of `size` returns: layer and offset of the
/// first fitting rectangle, or `None`.
pub open spec fn alloc_result(s: Seq<Space>, size: UVec2) -> Option<(u32, UVec2)> {
    if has_fit(s, size) {
        Some((s[first_fit(s, size)].0, s[first_fit(s, size)].1))
    } else {
        None
    }
}

/// Free list after allocating each of `sizes` in turn, starting from `s`.
pub open spec fn free_after_allocations(s: Seq<Space>, sizes: Seq<UVec2>) -> Seq<Space>
    decreases sizes.len(),
{
    if sizes.len() == 0 {
        s
    } else {
        alloc_next(free_after_allocations(s, sizes.drop_last()), sizes.last())
    }
}

/// Results of allocating each of `sizes` in turn, starting from `s`.
pub open spec fn allocation_results(s: Seq<Space>, sizes: Seq<UVec2>) -> Seq<Option<(u32, UVec2)>>
    decreases sizes.len(),
{
    if sizes.len() == 0 {
        seq![]
    } else {
        allocation_results(s, sizes.drop_last()).push(
            alloc_result(free_after_allocations(s, sizes.drop_last()), sizes.last()),
        )
    }
}

/// Texel `(l, x, y)` belongs to the slice handed out as `res` for a request
/// of `size`.
pub open spec fn hands_out(res: Option<(u32, UVec2)>, size: UVec2, l: int, x: int, y: int) -> bool {
    res matches Some(p) && space_covers((p.0, p.1, size), l, x, y)
}

/// Texel `(l, x, y)` lies on layer 0 of the atlas.
pub open spec fn in_atlas(l: int, x: int, y: int) -> bool {
    l == 0 && 0 <= x < MAX_W && 0 <= y < MAX_H
}

/// Guillotine allocator over the layered atlas.  Not thread-safe; it lives
/// in the main world only.
pub struct AtlasAllocator {
    free_spaces: Vec<Space>,
}

impl AtlasAllocator {
    /// The free list, in order.
    pub closed spec fn spaces(&self) -> Seq<Space> {
        self.free_spaces@
    }

    /// Every free rectangle can be split without overflow.
    pub closed spec fn wf(&self) -> bool {
        forall|i: int| 0 <= i < self.free_spaces@.len() ==> space_in_range(#[trigger] self.free_spaces@[i])
    }

    /// A fresh atlas: one free rectangle covering all of layer 0.
    pub fn new() -> (r: Self)
        ensures
            r.wf(),
            r.spaces() == fresh_atlas(),
    {
        let mut free_spaces: Vec<Space> = Vec::new();
        free_spaces.push((0, UVec2::zero(), UVec2::new(MAX_W, MAX_H)));
        AtlasAllocator { free_spaces }
    }

    /// Forgets every allocation (done on entering the main menu): the atlas
    /// is fresh again.
    pub fn reset(&mut self)
        ensures
            final(self).wf(),
            final(self).spaces() == fresh_atlas(),
    {
        *self = AtlasAllocator::new();
    }

    /// First-fit allocation of a `size` slice.  Returns the layer and offset
    /// of the slice, or `None` when no free rectangle is large enough.
    pub fn allocate(&mut self, size: UVec2) -> (r: Option<(u32, UVec2)>)
        requires
            old(self).wf(),
        ensures
            final(self).wf(),
            r is None <==> !has_fit(old(self).spaces(), size),
            r is None ==> final(self).spaces() == old(self).spaces(),
            r matches Some(res) ==> {
                let i = first_fit(old(self).spaces(), size);
                &&& is_first_fit(old(self).spaces(), size, i)
                &&& res.0 == old(self).spaces()[i].0
                &&& res.1 == old(self).spaces()[i].1
                &&& final(self).spaces() == after_allocation(old(self).spaces(), i, size)
            },
            final(self).spaces() == alloc_next(old(self).spaces(), size),
            r == alloc_result(old(self).spaces(), size),
    {
        let found = find_first_fit(&self.free_spaces, size);
        let idx = match found {
            None => return None,
            Some(i) => i,
        };
        proof {
            lemma_first_fit_unique(self.free_spaces@, size, idx as int);
        }
        let ghost s = self.free_spaces@;
        let (layer, off, free) = self.free_spaces.remove(idx);
        // split right
        if free.x > size.x {
            self.free_spaces.push(
                (layer, UVec2::new(off.x + size.x, off.y), UVec2::new(free.x - size.x, size.y)),
            );
        }
        // split below
        if free.y > size.y {
            self.free_spaces.push(
                (layer, UVec2::new(off.x, off.y + size.y), UVec2::new(free.x, free.y - size.y)),
            );
        }
        assert(self.free_spaces@ =~= after_allocation(s, idx as int, size));
        assert forall|k: int| 0 <= k < self.free_spaces@.len() implies space_in_range(
            #[trigger] self.free_spaces@[k],
        ) by {
            if k < s.len() - 1 {
                if k < idx {
                    assert(self.free_spaces@[k] == s[k]);
                } else {
                    assert(self.free_spaces@[k] == s[k + 1]);
                }
            }
        }
        Some((layer, off))
    }

    /// Returns a rectangle to the free list (no merging of neighbours).
    pub fn free(&mut self, layer: u32, off: UVec2, size: UVec2)
        requires
            old(self).wf(),
            space_in_range((layer, off, size)),
        ensures
            final(self).wf(),
            final(self).spaces() == old(self).spaces().push((layer, off, size)),
    {
        self.free_spaces.push((layer, off, size));
    }
}

/// Index of the first free rectangle that fits `size`, if any.
fn find_first_fit(spaces: &Vec<Space>, size: UVec2) -> (r: Option<usize>)
    ensures
        r is None <==> !has_fit(spaces@, size),
        r matches Some(i) ==> is_first_fit(spaces@, size, i as int),
{
    let n = spaces.len();
    let mut i: usize = 0;
    while i < n
        invariant
            n == spaces@.len(),
            i <= n,
            forall|j: int| 0 <= j < i ==> !space_fits(#[trigger] spaces@[j], size),
        decreases n - i,
    {
        if size.fits(&spaces[i].2) {
            return Some(i);
        }
        i += 1;
    }
    None
}

/// The first-fit index is unique, so `first_fit` names it.
pub proof fn lemma_first_fit_unique(s: Seq<Space>, size: UVec2, i: int)
    requires
        is_first_fit(s, size, i),
    ensures
        first_fit(s, size) == i,
        has_fit(s, size),
{
    let k = first_fit(s, size);
    assert(is_first_fit(s, size, k));
    if k < i {
        assert(!space_fits(s[k], size));
    } else if i < k {
        assert(!space_fits(s[i], size));
    }
}


/// Entry `k` of `s.remove(i)` is entry `k` (before `i`) or `k + 1` (from `i`
/// on) of `s`.
pub open spec fn index_before_removal(i: int, k: int) -> int {
    if k < i {
        k
    } else {
        k + 1
    }
}

/// Carving `size` from free rectangle `i` (any one that fits) keeps the
/// free list exact: afterwards a texel is free iff it was free before and is
/// not part of the carved slice, the slice lies inside rectangle `i`, and a
/// free list without overlaps stays without overlaps.
pub proof fn lemma_carve_exact(s: Seq<Space>, i: int, size: UVec2)
    requires
        0 <= i < s.len(),
        space_fits(s[i], size),
        space_in_range(s[i]),
        pairwise_disjoint(s),
    ensures
        ({
            let after = after_allocation(s, i, size);
            let c = carved(s[i], size);
            &&& pairwise_disjoint(after)
            &&& forall|l: int, x: int, y: int|
                #[trigger] covered(after, l, x, y) ==> covered(s, l, x, y) && !space_covers(
                    c,
                    l,
                    x,
                    y,
                )
            &&& forall|l: int, x: int, y: int|
                #[trigger] covered(s, l, x, y) && !space_covers(c, l, x, y) ==> covered(
                    after,
                    l,
                    x,
                    y,
                )
            &&& forall|l: int, x: int, y: int|
                #[trigger] space_covers(c, l, x, y) ==> space_covers(s[i], l, x, y)
        }),
{
    let t = s[i];
    let rem = s.remove(i);
    let r = right_rest(t, size);
    let b = below_rest(t, size);
    let after = after_allocation(s, i, size);
    let c = carved(t, size);
    let (ox, oy, fw, fh, sw, sh) = (
        t.1.x as int,
        t.1.y as int,
        t.2.x as int,
        t.2.y as int,
        size.x as int,
        size.y as int,
    );
    lemma_guillotine_split(ox, oy, fw, fh, sw, sh);
    assert(after =~= rem + r + b);
    let n = rem.len() as int;
    assert(n == s.len() - 1);
    // Every entry of `after` is an entry of `s` other than `i`, or a piece of `t`.
    assert forall|k: int| 0 <= k < n implies #[trigger] after[k] == s[index_before_removal(i, k)]
        && index_before_removal(i, k) != i by {}
    // The pieces lie in `t`, to the right of or below the carved box.
    assert forall|k: int, l: int, x: int, y: int|
        n <= k < after.len() && #[trigger] space_covers(after[k], l, x, y) implies {
        &&& t.0 == l
        &&& in_box(ox + sw, oy, fw - sw, sh, x, y) || in_box(ox, oy + sh, fw, fh - sh, x, y)
        &&& (in_box(ox + sw, oy, fw - sw, sh, x, y) <==> (r.len() == 1 && k == n))
    } by {
        if r.len() == 1 && k == n {
            assert(after[k] == r[0]);
        } else {
            assert(after[k] == b[0]);
        }
    }
    assert forall|a: int, d: int, l: int, x: int, y: int|
        0 <= a < after.len() && 0 <= d < after.len() && a != d && #[trigger] space_covers(
            after[a],
            l,
            x,
            y,
        ) implies !#[trigger] space_covers(after[d], l, x, y) by {
        if space_covers(after[d], l, x, y) {
            if a < n && d < n {
                let (ia, id) = (index_before_removal(i, a), index_before_removal(i, d));
                assert(space_covers(s[ia], l, x, y));
                assert(space_covers(s[id], l, x, y));
            } else if a < n {
                let ia = index_before_removal(i, a);
                assert(space_covers(s[ia], l, x, y));
                assert(space_covers(s[i], l, x, y));
            } else if d < n {
                let id = index_before_removal(i, d);
                assert(space_covers(s[id], l, x, y));
                assert(space_covers(s[i], l, x, y));
            }
        }
    }
    assert forall|l: int, x: int, y: int| #[trigger] space_covers(c, l, x, y) implies space_covers(
        s[i],
        l,
        x,
        y,
    ) by {}
    assert(pairwise_disjoint(after));
    assert forall|l: int, x: int, y: int|
        #![trigger covered(after, l, x, y)]
        #![trigger covered(s, l, x, y)]
        (covered(after, l, x, y) ==> covered(s, l, x, y) && !space_covers(c, l, x, y)) && (covered(
            s,
            l,
            x,
            y,
        ) && !space_covers(c, l, x, y) ==> covered(after, l, x, y)) by {
        if covered(after, l, x, y) {
            let k = choose|k: int| 0 <= k < after.len() && #[trigger] space_covers(after[k], l, x, y);
            if k < n {
                let ik = index_before_removal(i, k);
                assert(space_covers(s[ik], l, x, y));
                if space_covers(c, l, x, y) {
                    assert(space_covers(s[i], l, x, y));
                }
                assert(covered(s, l, x, y));
            } else {
                assert(space_covers(s[i], l, x, y));
                assert(covered(s, l, x, y));
                if space_covers(c, l, x, y) {
                    assert(in_box(ox, oy, sw, sh, x, y));
                }
            }
            assert(!space_covers(c, l, x, y));
        }
        if covered(s, l, x, y) && !space_covers(c, l, x, y) {
            let k = choose|k: int| 0 <= k < s.len() && #[trigger] space_covers(s[k], l, x, y);
            if k != i {
                let j = if k < i {
                    k
                } else {
                    k - 1
                };
                assert(after[j] == s[k]);
                assert(space_covers(after[j], l, x, y));
            } else if in_box(ox + sw, oy, fw - sw, sh, x, y) {
                assert(after[n] == r[0]);
                assert(space_covers(after[n], l, x, y));
            } else {
                let j = n + r.len();
                assert(after[j] == b[0]);
                assert(space_covers(after[j], l, x, y));
            }
        }
    }
}

/// Slices handed out one after the other never share a texel: once `size1`
/// is carved from entry `i`, any later carve of `size2` from the updated free
/// list (entry `j`) is disjoint from the first slice.
pub proof fn lemma_successive_slices_disjoint(s: Seq<Space>, i: int, size1: UVec2, j: int, size2: UVec2)
    requires
        0 <= i < s.len(),
        space_fits(s[i], size1),
        space_in_range(s[i]),
        pairwise_disjoint(s),
        0 <= j < after_allocation(s, i, size1).len(),
        space_fits(after_allocation(s, i, size1)[j], size2),
    ensures
        forall|l: int, x: int, y: int|
            #[trigger] space_covers(carved(s[i], size1), l, x, y) ==> !space_covers(
                carved(after_allocation(s, i, size1)[j], size2),
                l,
                x,
                y,
            ),
{
    lemma_carve_exact(s, i, size1);
    let after = after_allocation(s, i, size1);
    assert forall|l: int, x: int, y: int|
        #[trigger] space_covers(carved(s[i], size1), l, x, y) implies !space_covers(
            carved(after[j], size2),
            l,
            x,
            y,
        ) by {
        if space_covers(carved(after[j], size2), l, x, y) {
            assert(space_covers(after[j], l, x, y));
            assert(covered(after, l, x, y));
        }
    }
}

/// When some free rectangle fits, a first fitting one exists, and
/// `first_fit` names it.
pub proof fn lemma_first_fit_exists(s: Seq<Space>, size: UVec2)
    requires
        has_fit(s, size),
    ensures
        is_first_fit(s, size, first_fit(s, size)),
    decreases s.len(),
{
    let d = s.drop_last();
    if has_fit(d, size) {
        lemma_first_fit_exists(d, size);
        let i = first_fit(d, size);
        assert forall|j: int| 0 <= j < i implies !space_fits(#[trigger] s[j], size) by {
            assert(s[j] == d[j]);
        }
        assert(s[i] == d[i]);
        lemma_first_fit_unique(s, size, i);
    } else {
        let i = s.len() - 1;
        assert forall|j: int| 0 <= j < i implies !space_fits(#[trigger] s[j], size) by {
            assert(s[j] == d[j]);
            if space_fits(s[j], size) {
                assert(space_fits(d[j], size));
            }
        }
        let k = choose|k: int| 0 <= k < s.len() && space_fits(#[trigger] s[k], size);
        if k < i {
            assert(s[k] == d[k]);
            assert(space_fits(d[k], size));
        }
        lemma_first_fit_unique(s, size, i);
    }
}

/// After carving from entry `i`, the first `s.len() - 1` entries are the
/// other entries of `s` in order, and the appended remainders lie on the
/// layer of entry `i` and can still be split without overflow.
pub proof fn lemma_after_allocation_entries(s: Seq<Space>, i: int, size: UVec2)
    requires
        0 <= i < s.len(),
        space_fits(s[i], size),
        space_in_range(s[i]),
    ensures
        after_allocation(s, i, size).len() >= s.len() - 1,
        forall|k: int|
            0 <= k < s.len() - 1 ==> #[trigger] after_allocation(s, i, size)[k] == s[index_before_removal(i, k)],
        forall|k: int|
            s.len() - 1 <= k < after_allocation(s, i, size).len() ==> (#[trigger] after_allocation(
                s,
                i,
                size,
            )[k]).0 == s[i].0 && space_in_range(after_allocation(s, i, size)[k]),
{
    let t = s[i];
    let rem = s.remove(i);
    let r = right_rest(t, size);
    let b = below_rest(t, size);
    let after = after_allocation(s, i, size);
    assert(after =~= rem + r + b);
    let n = rem.len() as int;
    assert forall|k: int| n <= k < after.len() implies (#[trigger] after[k]).0 == t.0 && space_in_range(
        after[k],
    ) by {
        if r.len() == 1 && k == n {
            assert(after[k] == r[0]);
        } else {
            assert(after[k] == b[0]);
        }
    }
}

/// What a run of allocations keeps true: the free list has no overlaps, lies
/// on layer 0 inside the atlas and can be split without overflow; every
/// slice handed out so far lies inside the atlas, is no longer free, and
/// shares no texel with any other handed-out slice.
spec fn run_inv(s: Seq<Space>, res: Seq<Option<(u32, UVec2)>>, sizes: Seq<UVec2>) -> bool {
    &&& res.len() == sizes.len()
    &&& pairwise_disjoint(s)
    &&& forall|k: int| 0 <= k < s.len() ==> space_in_range(#[trigger] s[k]) && s[k].0 == 0
    &&& forall|l: int, x: int, y: int| #[trigger] covered(s, l, x, y) ==> in_atlas(l, x, y)
    &&& forall|k: int| 0 <= k < res.len() ==> (#[trigger] res[k] matches Some(p) ==> p.0 == 0)
    &&& forall|k: int, l: int, x: int, y: int|
        0 <= k < res.len() && #[trigger] hands_out(res[k], sizes[k], l, x, y) ==> in_atlas(l, x, y)
            && !covered(s, l, x, y)
    &&& forall|j: int, k: int, l: int, x: int, y: int|
        #![trigger hands_out(res[j], sizes[j], l, x, y), hands_out(res[k], sizes[k], l, x, y)]
        0 <= j < k < res.len() && hands_out(res[j], sizes[j], l, x, y) ==> !hands_out(
            res[k],
            sizes[k],
            l,
            x,
            y,
        )
}

/// One more allocation keeps `run_inv`.
proof fn lemma_run_step(s: Seq<Space>, res: Seq<Option<(u32, UVec2)>>, sizes: Seq<UVec2>, size: UVec2)
    requires
        run_inv(s, res, sizes),
    ensures
        run_inv(alloc_next(s, size), res.push(alloc_result(s, size)), sizes.push(size)),
{
    let s2 = alloc_next(s, size);
    let r = alloc_result(s, size);
    let res2 = res.push(r);
    let sizes2 = sizes.push(size);
    let n = res.len();
    assert forall|k: int| 0 <= k < n implies #[trigger] res2[k] == res[k] && sizes2[k] == sizes[k] by {}
    assert(res2[n as int] == r && sizes2[n as int] == size);
    if !has_fit(s, size) {
        assert(s2 == s && r is None);
        assert forall|k: int| 0 <= k < res2.len() implies (#[trigger] res2[k] matches Some(p) ==> p.0 == 0) by {
            if k < n {
                assert(res2[k] == res[k]);
            }
        }
        assert forall|k: int, l: int, x: int, y: int|
            0 <= k < res2.len() && #[trigger] hands_out(res2[k], sizes2[k], l, x, y) implies in_atlas(
            l,
            x,
            y,
        ) && !covered(s2, l, x, y) by {
            assert(k < n);
            assert(res2[k] == res[k] && sizes2[k] == sizes[k]);
        }
        assert forall|j: int, k: int, l: int, x: int, y: int|
            0 <= j < k < res2.len() && hands_out(res2[j], sizes2[j], l, x, y) implies !hands_out(
            res2[k],
            sizes2[k],
            l,
            x,
            y,
        ) by {
            assert(res2[j] == res[j] && sizes2[j] == sizes[j]);
            if k < n {
                assert(res2[k] == res[k] && sizes2[k] == sizes[k]);
                assert(hands_out(res[j], sizes[j], l, x, y));
            }
        }
    } else {
        lemma_first_fit_exists(s, size);
        let i = first_fit(s, size);
        let t = s[i];
        let c = carved(t, size);
        lemma_carve_exact(s, i, size);
        lemma_after_allocation_entries(s, i, size);
        assert(s2 == after_allocation(s, i, size));
        assert(r == Some((t.0, t.1)));
        assert forall|k: int| 0 <= k < s2.len() implies space_in_range(#[trigger] s2[k]) && s2[k].0
            == 0 by {
            if k < s.len() - 1 {
                assert(s2[k] == s[index_before_removal(i, k)]);
            }
        }
        assert forall|l: int, x: int, y: int| #[trigger] covered(s2, l, x, y) implies in_atlas(
            l,
            x,
            y,
        ) by {
            assert(covered(s, l, x, y));
        }
        assert forall|l: int, x: int, y: int| #[trigger] space_covers(c, l, x, y) implies covered(
            s,
            l,
            x,
            y,
        ) && !covered(s2, l, x, y) && in_atlas(l, x, y) by {
            assert(space_covers(s[i], l, x, y));
        }
        assert forall|k: int| 0 <= k < res2.len() implies (#[trigger] res2[k] matches Some(p) ==> p.0
            == 0) by {
            if k < n {
                assert(res2[k] == res[k]);
            }
        }
        assert forall|k: int, l: int, x: int, y: int|
            0 <= k < res2.len() && #[trigger] hands_out(res2[k], sizes2[k], l, x, y) implies in_atlas(
            l,
            x,
            y,
        ) && !covered(s2, l, x, y) by {
            if k < n {
                assert(res2[k] == res[k] && sizes2[k] == sizes[k]);
                assert(hands_out(res[k], sizes[k], l, x, y));
                if covered(s2, l, x, y) {
                    assert(covered(s, l, x, y));
                }
            } else {
                assert(space_covers(c, l, x, y));
            }
        }
        assert forall|j: int, k: int, l: int, x: int, y: int|
            0 <= j < k < res2.len() && hands_out(res2[j], sizes2[j], l, x, y) implies !hands_out(
            res2[k],
            sizes2[k],
            l,
            x,
            y,
        ) by {
            assert(res2[j] == res[j] && sizes2[j] == sizes[j]);
            assert(hands_out(res[j], sizes[j], l, x, y));
            if k < n {
                assert(res2[k] == res[k] && sizes2[k] == sizes[k]);
            } else if hands_out(res2[k], sizes2[k], l, x, y) {
                assert(space_covers(c, l, x, y));
                assert(covered(s, l, x, y));
            }
        }
    }
}

/// `run_inv` holds after any run of allocations from a fresh atlas.
proof fn lemma_run(sizes: Seq<UVec2>)
    ensures
        run_inv(
            free_after_allocations(fresh_atlas(), sizes),
            allocation_results(fresh_atlas(), sizes),
            sizes,
        ),
    decreases sizes.len(),
{
    if sizes.len() == 0 {
        let f = fresh_atlas();
        assert forall|l: int, x: int, y: int| #[trigger] covered(f, l, x, y) implies in_atlas(
            l,
            x,
            y,
        ) by {
            let k = choose|k: int| 0 <= k < f.len() && #[trigger] space_covers(f[k], l, x, y);
            assert(k == 0);
        }
    } else {
        let d = sizes.drop_last();
        lemma_run(d);
        lemma_run_step(
            free_after_allocations(fresh_atlas(), d),
            allocation_results(fresh_atlas(), d),
            d,
            sizes.last(),
        );
        assert(d.push(sizes.last()) =~= sizes);
    }
}

/// No atlas texel is ever handed out twice.  Starting from a fresh atlas,
/// every slice that any sequence of allocations hands out lies on layer 0
/// inside the `MAX_W × MAX_H` atlas, and no two of them share a texel.
pub proof fn lemma_allocations_never_overlap(sizes: Seq<UVec2>)
    ensures
        allocation_results(fresh_atlas(), sizes).len() == sizes.len(),
        forall|k: int|
            0 <= k < sizes.len() ==> (#[trigger] allocation_results(fresh_atlas(), sizes)[k] matches Some(
                p,
            ) ==> p.0 == 0 && (sizes[k].x >= 1 && sizes[k].y >= 1 ==> p.1.x + sizes[k].x <= MAX_W
                && p.1.y + sizes[k].y <= MAX_H)),
        forall|k: int, l: int, x: int, y: int|
            0 <= k < sizes.len() && #[trigger] hands_out(
                allocation_results(fresh_atlas(), sizes)[k],
                sizes[k],
                l,
                x,
                y,
            ) ==> in_atlas(l, x, y),
        forall|j: int, k: int, l: int, x: int, y: int|
            #![trigger hands_out(allocation_results(fresh_atlas(), sizes)[j], sizes[j], l, x, y), hands_out(allocation_results(fresh_atlas(), sizes)[k], sizes[k], l, x, y)]
            0 <= j < sizes.len() && 0 <= k < sizes.len() && j != k && hands_out(
                allocation_results(fresh_atlas(), sizes)[j],
                sizes[j],
                l,
                x,
                y,
            ) ==> !hands_out(allocation_results(fresh_atlas(), sizes)[k], sizes[k], l, x, y),
{
    lemma_run(sizes);
    let res = allocation_results(fresh_atlas(), sizes);
    assert forall|k: int|
        0 <= k < sizes.len() implies (#[trigger] res[k] matches Some(p) ==> p.0 == 0 && (sizes[k].x
        >= 1 && sizes[k].y >= 1 ==> p.1.x + sizes[k].x <= MAX_W && p.1.y + sizes[k].y
        <= MAX_H)) by {
        if res[k] is Some && sizes[k].x >= 1 && sizes[k].y >= 1 {
            let p = res[k]->0;
            let (x, y) = (p.1.x + sizes[k].x - 1, p.1.y + sizes[k].y - 1);
            assert(hands_out(res[k], sizes[k], 0, x, y));
        }
    }
    assert forall|j: int, k: int, l: int, x: int, y: int|
        0 <= j < sizes.len() && 0 <= k < sizes.len() && j != k && hands_out(
            res[j],
            sizes[j],
            l,
            x,
            y,
        ) implies !hands_out(res[k], sizes[k], l, x, y) by {
        if k < j && hands_out(res[k], sizes[k], l, x, y) {
            assert(hands_out(res[j], sizes[j], l, x, y));
        }
    }
}

/// Carving `size` from free rectangle `i` (layer `l`, corner `off`, extent
/// `w × h`) keeps the other rectangles in order and appends exactly two
/// remainders: first the strip right of the slice, at `(off.x + size.x,
/// off.y)` with extent `(w - size.x) × size.y`, when the slice is narrower
/// than the rectangle; then the full-width strip below the slice, at
/// `(off.x, off.y + size.y)` with extent `w × (h - size.y)`, when the slice
/// is lower.
pub proof fn lemma_carve_remainders(s: Seq<Space>, i: int, size: UVec2)
    requires
        0 <= i < s.len(),
        space_fits(s[i], size),
        space_in_range(s[i]),
    ensures
        ({
            let after = after_allocation(s, i, size);
            let n = s.len() - 1;
            let l = s[i].0;
            let off = s[i].1;
            let ext = s[i].2;
            &&& after.len() == n + (if ext.x > size.x {
                1int
            } else {
                0int
            }) + (if ext.y > size.y {
                1int
            } else {
                0int
            })
            &&& forall|k: int|
                0 <= k < n ==> #[trigger] after[k] == s[if k < i {
                    k
                } else {
                    k + 1
                }]
            &&& ext.x > size.x ==> after[n] == (
                l,
                UVec2 { x: (off.x + size.x) as u32, y: off.y },
                UVec2 { x: (ext.x - size.x) as u32, y: size.y },
            )
            &&& ext.y > size.y ==> after[after.len() - 1] == (
                l,
                UVec2 { x: off.x, y: (off.y + size.y) as u32 },
                UVec2 { x: ext.x, y: (ext.y - size.y) as u32 },
            )
        }),
{
    let after = after_allocation(s, i, size);
    let r = right_rest(s[i], size);
    let b = below_rest(s[i], size);
    assert(after =~= s.remove(i) + r + b);
}

/// The area below a first slice stays usable at full width: on a fresh
/// atlas, after a slice of `a` is allocated at the corner, a request of the
/// full atlas width and the remaining height succeeds, directly below the
/// first slice.
pub proof fn lemma_full_width_below_first_slice(a: UVec2)
    requires
        1 <= a.x <= MAX_W,
        1 <= a.y < MAX_H,
    ensures
        alloc_result(fresh_atlas(), a) == Some((0u32, UVec2 { x: 0, y: 0 })),
        alloc_result(alloc_next(fresh_atlas(), a), UVec2 { x: MAX_W, y: (MAX_H - a.y) as u32 })
            == Some((0u32, UVec2 { x: 0, y: a.y })),
{
    let f = fresh_atlas();
    lemma_first_fit_unique(f, a, 0);
    lemma_carve_remainders(f, 0, a);
    let s1 = alloc_next(f, a);
    assert(s1 == after_allocation(f, 0, a));
    let b = UVec2 { x: MAX_W, y: (MAX_H - a.y) as u32 };
    let j = s1.len() - 1;
    assert(s1[j] == (0u32, UVec2 { x: 0, y: a.y }, UVec2 { x: MAX_W, y: (MAX_H - a.y) as u32 }));
    if a.x < MAX_W {
        assert(j == 1);
        assert(!space_fits(s1[0], b));
    } else {
        assert(j == 0);
    }
    lemma_first_fit_unique(s1, b, j);
}

} // verus!
