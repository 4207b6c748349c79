//! The world grid: the single source of truth for spatial state, plus the
//! free-rectangle allocator that hands out automaton slices of it.

use vstd::prelude::*;
use crate::math::{IVec2, UVec2};
use crate::cell::{Cell, CellState};
use crate::grid::{DenseGrid, SparseGrid, GridBackend, cell_index, stored_after_set};
use crate::rect::{in_box, lemma_guillotine_split};
use crate::gpu_atlas::index_before_removal;

verus! {

/// Immutable metadata every automaton stores instead of a full grid.
#[derive(Clone, Copy, Debug, PartialEq, Eq, Structural)]
pub struct GridSlice {
    /// Top-left corner in world-grid coordinates.
    pub offset: IVec2,
    /// Width × height.
    pub size: UVec2,
}

/// A free rectangle of the world grid: `(offset, size)`.
pub type FreeRect = (IVec2, UVec2);

/// A request of `size` fits into `r`.
pub open spec fn rect_fits(r: FreeRect, size: UVec2) -> bool {
    size.fits_in(r.1)
}

/// `r` lies within the `i32` coordinate range, so carving from it cannot
/// overflow.
pub open spec fn rect_in_range(r: FreeRect) -> bool {
    &&& r.1.x <= i32::MAX && r.1.y <= i32::MAX
    &&& r.0.x + r.1.x <= i32::MAX && r.0.y + r.1.y <= i32::MAX
}

/// Cell `(x, y)` lies in the free rectangle `r`.
pub open spec fn rect_covers(r: FreeRect, x: int, y: int) -> bool {
    in_box(r.0.x as int, r.0.y as int, r.1.x as int, r.1.y as int, x, y)
}

/// Strip right of a `size` box carved from `r` (empty at full width).
pub open spec fn rect_right_rest(r: FreeRect, size: UVec2) -> Seq<FreeRect> {
    if r.1.x > size.x {
        seq![
            (
                IVec2 { x: (r.0.x + size.x) as i32, y: r.0.y },
                UVec2 { x: (r.1.x - size.x) as u32, y: size.y },
            ),
        ]
    } else {
        seq![]
    }
}

/// Strip below a `size` box carved from `r` (empty at full height).
pub open spec fn rect_below_rest(r: FreeRect, size: UVec2) -> Seq<FreeRect> {
    if r.1.y > size.y {
        seq![
            (
                IVec2 { x: r.0.x, y: (r.0.y + size.y) as i32 },
                UVec2 { x: r.1.x, y: (r.1.y - size.y) as u32 },
            ),
        ]
    } else {
        seq![]
    }
}

/// Free list after carving `size` from entry `i`: the entry is removed and
/// its right and lower remainders are appended, in that order.
pub open spec fn rects_after(s: Seq<FreeRect>, i: int, size: UVec2) -> Seq<FreeRect> {
    s.remove(i) + rect_right_rest(s[i], size) + rect_below_rest(s[i], size)
}

/// Some free rectangle of `s` fits `size`.
pub open spec fn rects_have_fit(s: Seq<FreeRect>, size: UVec2) -> bool {
    exists|i: int| 0 <= i < s.len() && rect_fits(#[trigger] s[i], size)
}

/// Cell `(x, y)` is free according to `s`.
pub open spec fn rects_cover(s: Seq<FreeRect>, x: int, y: int) -> bool {
    exists|k: int| 0 <= k < s.len() && #[trigger] rect_covers(s[k], x, y)
}

/// No cell is listed as free twice.
pub open spec fn rects_disjoint(s: Seq<FreeRect>) -> bool {
    forall|i: int, j: int, x: int, y: int|
        0 <= i < s.len() && 0 <= j < s.len() && i != j && #[trigger] rect_covers(s[i], x, y)
            ==> !#[trigger] rect_covers(s[j], x, y)
}

/// `a + b` on both axes, as `i32` coordinates.
pub open spec fn offset_by(a: IVec2, b: IVec2) -> IVec2 {
    IVec2 { x: (a.x + b.x) as i32, y: (a.y + b.y) as i32 }
}

/// `i` names a free rectangle of `s` that fits `size` (a possible random pick).
pub open spec fn valid_pick(s: Seq<FreeRect>, i: int, size: UVec2) -> bool {
    0 <= i < s.len() && rect_fits(s[i], size)
}

/// Free list after an allocation of `size` that picked entry `i` (unchanged
/// when `i` is no valid pick).
pub open spec fn world_next(s: Seq<FreeRect>, i: int, size: UVec2) -> Seq<FreeRect> {
    if valid_pick(s, i, size) {
        rects_after(s, i, size)
    } else {
        s
    }
}

/// What an allocation of `size` that picked entry `i` returns.
pub open spec fn world_result(s: Seq<FreeRect>, i: int, size: UVec2) -> Option<GridSlice> {
    if valid_pick(s, i, size) {
        Some(GridSlice { offset: s[i].0, size })
    } else {
        None
    }
}

/// Free list after the allocations `steps` (each a pick and a size), in turn.
pub open spec fn world_free_after(s: Seq<FreeRect>, steps: Seq<(int, UVec2)>) -> Seq<FreeRect>
    decreases steps.len(),
{
    if steps.len() == 0 {
        s
    } else {
        world_next(world_free_after(s, steps.drop_last()), steps.last().0, steps.last().1)
    }
}

/// Results of the allocations `steps`, in turn.
pub open spec fn world_results(s: Seq<FreeRect>, steps: Seq<(int, UVec2)>) -> Seq<Option<GridSlice>>
    decreases steps.len(),
{
    if steps.len() == 0 {
        seq![]
    } else {
        world_results(s, steps.drop_last()).push(
            world_result(world_free_after(s, steps.drop_last()), steps.last().0, steps.last().1),
        )
    }
}

/// Cell `(x, y)` belongs to the slice `res`.
pub open spec fn slice_covers(res: Option<GridSlice>, x: int, y: int) -> bool {
    res matches Some(sl) && rect_covers((sl.offset, sl.size), x, y)
}

/// Cell `(x, y)` lies inside a world of `size`.
pub open spec fn in_world(size: UVec2, x: int, y: int) -> bool {
    0 <= x < size.x && 0 <= y < size.y
}

/// Picks one of `candidates` uniformly at random.
#[verifier::external_body]
fn choose_candidate(candidates: &Vec<usize>) -> (r: Option<usize>)
    ensures
        r is None <==> candidates@.len() == 0,
        r matches Some(c) ==> candidates@.contains(c),
{
    let mut rng = rand::rng();
    rand::seq::IteratorRandom::choose(candidates.iter().copied(), &mut rng)
}

/// The world grid: physical cell storage and the list of free rectangles
/// from which automaton slices are carved.
pub struct WorldGrid {
    pub backend: GridBackend,
    free: Vec<FreeRect>,
}

impl WorldGrid {
    /// The free-rectangle list, in order.
    pub closed spec fn free_rects(&self) -> Seq<FreeRect> {
        self.free@
    }

    /// The cell storage (`self.backend`).
    pub closed spec fn storage(&self) -> GridBackend {
        self.backend
    }

    /// Cell storage is well formed and every free rectangle is in range.
    pub closed spec fn wf(&self) -> bool {
        &&& self.backend.wf()
        &&& forall|i: int| 0 <= i < self.free@.len() ==> rect_in_range(#[trigger] self.free@[i])
    }

    /// A blank dense world of `size` whose whole area is free.
    pub fn new_dense(size: UVec2) -> (r: Self)
        requires
            size.x * size.y <= usize::MAX,
            size.x <= i32::MAX,
            size.y <= i32::MAX,
        ensures
            r.wf(),
            r.free_rects() == seq![(IVec2 { x: 0, y: 0 }, size)],
            r.storage() matches GridBackend::Dense(g) && g.size == size && forall|k: int|
                0 <= k < g.cells@.len() ==> (#[trigger] g.cells@[k]).state == CellState::Dead,
    {
        let mut free: Vec<FreeRect> = Vec::new();
        free.push((IVec2::zero(), size));
        WorldGrid { backend: GridBackend::Dense(DenseGrid::blank(size)), free }
    }

    /// An empty sparse world with no free rectangles.
    pub fn new_sparse() -> (r: Self)
        ensures
            r.wf(),
            r.free_rects() == Seq::<FreeRect>::empty(),
            r.storage() matches GridBackend::Sparse(s) && s.states() == Map::<
                IVec2,
                CellState,
            >::empty(),
    {
        WorldGrid { backend: GridBackend::Sparse(SparseGrid::new()), free: Vec::new() }
    }

    /// Indices of every free rectangle that fits `size`, in order.
    fn fitting_indices(&self, size: UVec2) -> (r: Vec<usize>)
        ensures
            forall|c: usize| #[trigger]
                r@.contains(c) <==> (c < self.free@.len() && rect_fits(self.free@[c as int], size)),
    {
        let mut r: Vec<usize> = Vec::new();
        let n = self.free.len();
        for i in 0..n
            invariant
                n == self.free@.len(),
                forall|c: usize| #[trigger]
                    r@.contains(c) <==> (c < i && rect_fits(self.free@[c as int], size)),
        {
            let ghost r0 = r@;
            if size.fits(&self.free[i].1) {
                r.push(i);
            }
            assert forall|c: usize| #[trigger] r@.contains(c) <==> (c < i + 1 && rect_fits(
                self.free@[c as int],
                size,
            )) by {
                if c == i && rect_fits(self.free@[c as int], size) {
                    assert(r@[r@.len() - 1] == c);
                }
                if r0.contains(c) {
                    let k = choose|k: int| 0 <= k < r0.len() && r0[k] == c;
                    assert(r@[k] == c);
                }
                if r@.contains(c) {
                    let k = choose|k: int| 0 <= k < r@.len() && r@[k] == c;
                    if k < r0.len() {
                        assert(r0[k] == c);
                    }
                }
            }
        }
        r
    }

    /// Carves `size` from free rectangle `idx` (guillotine split: right
    /// remainder, then lower remainder) and returns the slice at its corner.
    pub fn allocate_at(&mut self, idx: usize, size: UVec2) -> (r: GridSlice)
        requires
            old(self).wf(),
            idx < old(self).free_rects().len(),
            rect_fits(old(self).free_rects()[idx as int], size),
        ensures
            final(self).wf(),
            final(self).storage() == old(self).storage(),
            r.offset == old(self).free_rects()[idx as int].0,
            r.size == size,
            final(self).free_rects() == rects_after(old(self).free_rects(), idx as int, size),
    {
        let ghost s = self.free@;
        let (off, free_sz) = self.free.remove(idx);
        if free_sz.x > size.x {
            self.free.push(
                (
                    IVec2::new(off.x + size.x as i32, off.y),
                    UVec2::new(free_sz.x - size.x, size.y),
                ),
            );
        }
        if free_sz.y > size.y {
            self.free.push(
                (
                    IVec2::new(off.x, off.y + size.y as i32),
                    UVec2::new(free_sz.x, free_sz.y - size.y),
                ),
            );
        }
        assert(self.free@ =~= rects_after(s, idx as int, size));
        assert forall|k: int| 0 <= k < self.free@.len() implies rect_in_range(
            #[trigger] self.free@[k],
        ) by {
            if k < s.len() - 1 {
                if k < idx {
                    assert(self.free@[k] == s[k]);
                } else {
                    assert(self.free@[k] == s[k + 1]);
                }
            }
        }
        GridSlice { offset: off, size }
    }

    /// Allocates a `size` slice from a free rectangle chosen at random among
    /// those that fit (reduces clustering); `None` when none fits.
    pub fn allocate(&mut self, size: UVec2) -> (r: Option<GridSlice>)
        requires
            old(self).wf(),
        ensures
            final(self).wf(),
            final(self).storage() == old(self).storage(),
            r is None <==> !rects_have_fit(old(self).free_rects(), size),
            r is None ==> final(self).free_rects() == old(self).free_rects(),
            r matches Some(slice) ==> exists|i: int|
                0 <= i < old(self).free_rects().len() && rect_fits(
                    #[trigger] old(self).free_rects()[i],
                    size,
                ) && slice.offset == old(self).free_rects()[i].0 && slice.size == size
                    && final(self).free_rects() == rects_after(old(self).free_rects(), i, size),
            exists|i: int|
                final(self).free_rects() == world_next(old(self).free_rects(), i, size) && r
                    == #[trigger] world_result(old(self).free_rects(), i, size),
    {
        let n = self.free.len();
        let candidates = self.fitting_indices(size);
        match choose_candidate(&candidates) {
            None => {
                assert(!rects_have_fit(self.free@, size)) by {
                    if rects_have_fit(self.free@, size) {
                        let i = choose|i: int|
                            0 <= i < self.free@.len() && rect_fits(#[trigger] self.free@[i], size);
                        assert(candidates@.contains(i as usize));
                    }
                }
                assert(world_result(self.free@, -1, size) is None);
                assert(world_next(self.free@, -1, size) == self.free@);
                None
            },
            Some(idx) => {
                assert(candidates@.contains(idx));
                let ghost s0 = self.free@;
                let slice = self.allocate_at(idx, size);
                assert(valid_pick(s0, idx as int, size));
                assert(world_next(s0, idx as int, size) == self.free@);
                assert(world_result(s0, idx as int, size) == Some(slice));
                Some(slice)
            },
        }
    }

    /// Writes a cell state through a slice-relative coordinate.  Dense
    /// worlds ignore positions outside the grid; sparse worlds store the
    /// cell.
    pub fn set(&mut self, slice: GridSlice, rel: IVec2, state: CellState)
        requires
            old(self).wf(),
            i32::MIN <= slice.offset.x + rel.x <= i32::MAX,
            i32::MIN <= slice.offset.y + rel.y <= i32::MAX,
        ensures
            final(self).wf(),
            final(self).free_rects() == old(self).free_rects(),
            ({
                let w = offset_by(slice.offset, rel);
                match old(self).storage() {
                    GridBackend::Dense(g) => final(self).storage() matches GridBackend::Dense(g2)
                        && g2.size == g.size && g2.states() == (match cell_index(g.size, w) {
                        Some(i) => g.states().update(i, state),
                        None => g.states(),
                    }) && g2.cells@.map_values(|c: Cell| c.memory) == g.cells@.map_values(
                        |c: Cell| c.memory,
                    ),
                    GridBackend::Sparse(s) => final(self).storage() matches GridBackend::Sparse(s2)
                        && s2.states() == s.states().insert(w, state) && stored_after_set(
                        s.entries(),
                        s2.entries(),
                        w,
                        state,
                    ),
                }
            }),
    {
        let world = IVec2::new(slice.offset.x + rel.x, slice.offset.y + rel.y);
        match &mut self.backend {
            GridBackend::Dense(g) => g.set_state(world, state),
            GridBackend::Sparse(s) => s.set_state(world, state),
        }
    }
}


/// The rectangle handed out when `size` is carved from `r`.
pub open spec fn rect_carved(r: FreeRect, size: UVec2) -> FreeRect {
    (r.0, size)
}

/// Carving `size` from free rectangle `i` keeps the free list exact: a cell
/// is free afterwards iff it was free before and is not in the carved slice,
/// the slice lies inside rectangle `i`, and a free list without overlaps
/// stays without overlaps.
pub proof fn lemma_rects_carve_exact(s: Seq<FreeRect>, i: int, size: UVec2)
    requires
        0 <= i < s.len(),
        rect_fits(s[i], size),
        rect_in_range(s[i]),
        rects_disjoint(s),
    ensures
        ({
            let after = rects_after(s, i, size);
            let c = rect_carved(s[i], size);
            &&& rects_disjoint(after)
            &&& forall|x: int, y: int|
                #[trigger] rects_cover(after, x, y) ==> rects_cover(s, x, y) && !rect_covers(
                    c,
                    x,
                    y,
                )
            &&& forall|x: int, y: int|
                #[trigger] rects_cover(s, x, y) && !rect_covers(c, x, y) ==> rects_cover(
                    after,
                    x,
                    y,
                )
            &&& forall|x: int, y: int| #[trigger] rect_covers(c, x, y) ==> rect_covers(s[i], x, y)
        }),
{
    let t = s[i];
    let rem = s.remove(i);
    let r = rect_right_rest(t, size);
    let b = rect_below_rest(t, size);
    let after = rects_after(s, i, size);
    let c = rect_carved(t, size);
    let (ox, oy, fw, fh, sw, sh) = (
        t.0.x as int,
        t.0.y as int,
        t.1.x as int,
        t.1.y as int,
        size.x as int,
        size.y as int,
    );
    lemma_guillotine_split(ox, oy, fw, fh, sw, sh);
    assert(after =~= rem + r + b);
    let n = rem.len() as int;
    assert forall|k: int| 0 <= k < n implies #[trigger] after[k] == s[index_before_removal(i, k)]
        && index_before_removal(i, k) != i by {}
    assert forall|k: int, x: int, y: int|
        n <= k < after.len() && #[trigger] rect_covers(after[k], x, y) implies {
        &&& in_box(ox + sw, oy, fw - sw, sh, x, y) || in_box(ox, oy + sh, fw, fh - sh, x, y)
        &&& (in_box(ox + sw, oy, fw - sw, sh, x, y) <==> (r.len() == 1 && k == n))
    } by {
        if r.len() == 1 && k == n {
            assert(after[k] == r[0]);
        } else {
            assert(after[k] == b[0]);
        }
    }
    assert forall|a: int, d: int, x: int, y: int|
        0 <= a < after.len() && 0 <= d < after.len() && a != d && #[trigger] rect_covers(
            after[a],
            x,
            y,
        ) implies !#[trigger] rect_covers(after[d], x, y) by {
        if rect_covers(after[d], x, y) {
            if a < n && d < n {
                let (ia, id) = (index_before_removal(i, a), index_before_removal(i, d));
                assert(rect_covers(s[ia], x, y));
                assert(rect_covers(s[id], x, y));
            } else if a < n {
                let ia = index_before_removal(i, a);
                assert(rect_covers(s[ia], x, y));
                assert(rect_covers(s[i], x, y));
            } else if d < n {
                let id = index_before_removal(i, d);
                assert(rect_covers(s[id], x, y));
                assert(rect_covers(s[i], x, y));
            }
        }
    }
    assert forall|x: int, y: int| #[trigger] rect_covers(c, x, y) implies rect_covers(
        s[i],
        x,
        y,
    ) by {}
    assert(rects_disjoint(after));
    assert forall|x: int, y: int|
        #![trigger rects_cover(after, x, y)]
        #![trigger rects_cover(s, x, y)]
        (rects_cover(after, x, y) ==> rects_cover(s, x, y) && !rect_covers(c, x, y)) && (
        rects_cover(s, x, y) && !rect_covers(c, x, y) ==> rects_cover(after, x, y)) by {
        if rects_cover(after, x, y) {
            let k = choose|k: int| 0 <= k < after.len() && #[trigger] rect_covers(after[k], x, y);
            if k < n {
                let ik = index_before_removal(i, k);
                assert(rect_covers(s[ik], x, y));
                if rect_covers(c, x, y) {
                    assert(rect_covers(s[i], x, y));
                }
                assert(rects_cover(s, x, y));
            } else {
                assert(rect_covers(s[i], x, y));
                assert(rects_cover(s, x, y));
                if rect_covers(c, x, y) {
                    assert(in_box(ox, oy, sw, sh, x, y));
                }
            }
            assert(!rect_covers(c, x, y));
        }
        if rects_cover(s, x, y) && !rect_covers(c, x, y) {
            let k = choose|k: int| 0 <= k < s.len() && #[trigger] rect_covers(s[k], x, y);
            if k != i {
                let j = if k < i {
                    k
                } else {
                    k - 1
                };
                assert(after[j] == s[k]);
                assert(rect_covers(after[j], x, y));
            } else if in_box(ox + sw, oy, fw - sw, sh, x, y) {
                assert(after[n] == r[0]);
                assert(rect_covers(after[n], x, y));
            } else {
                let j = n + r.len();
                assert(after[j] == b[0]);
                assert(rect_covers(after[j], x, y));
            }
        }
    }
}

/// Slices allocated one after the other never share a cell, and every
/// slice lies in area that was free: once `size1` is carved from entry `i`,
/// a later carve of `size2` from entry `j` of the updated list is disjoint
/// from the first slice and inside the area that was free before both.
pub proof fn lemma_successive_world_slices_disjoint(
    s: Seq<FreeRect>,
    i: int,
    size1: UVec2,
    j: int,
    size2: UVec2,
)
    requires
        0 <= i < s.len(),
        rect_fits(s[i], size1),
        rect_in_range(s[i]),
        rects_disjoint(s),
        0 <= j < rects_after(s, i, size1).len(),
        rect_fits(rects_after(s, i, size1)[j], size2),
    ensures
        forall|x: int, y: int|
            #[trigger] rect_covers(rect_carved(rects_after(s, i, size1)[j], size2), x, y)
                ==> !rect_covers(rect_carved(s[i], size1), x, y) && rects_cover(s, x, y),
{
    lemma_rects_carve_exact(s, i, size1);
    let after = rects_after(s, i, size1);
    assert forall|x: int, y: int|
        #[trigger] rect_covers(rect_carved(after[j], size2), x, y) implies !rect_covers(
            rect_carved(s[i], size1),
            x,
            y,
        ) && rects_cover(s, x, y) by {
        assert(rect_covers(after[j], x, y));
        assert(rects_cover(after, x, y));
    }
}

/// After carving from entry `i`, the first `s.len() - 1` entries are the
/// other entries of `s` in order, and the appended remainders stay within
/// the `i32` coordinate range.
pub proof fn lemma_rects_after_entries(s: Seq<FreeRect>, i: int, size: UVec2)
    requires
        0 <= i < s.len(),
        rect_fits(s[i], size),
        rect_in_range(s[i]),
    ensures
        rects_after(s, i, size).len() >= s.len() - 1,
        forall|k: int|
            0 <= k < s.len() - 1 ==> #[trigger] rects_after(s, i, size)[k] == s[index_before_removal(i, k)],
        forall|k: int|
            s.len() - 1 <= k < rects_after(s, i, size).len() ==> rect_in_range(
                #[trigger] rects_after(s, i, size)[k],
            ),
{
    let t = s[i];
    let rem = s.remove(i);
    let r = rect_right_rest(t, size);
    let b = rect_below_rest(t, size);
    let after = rects_after(s, i, size);
    assert(after =~= rem + r + b);
    let n = rem.len() as int;
    assert forall|k: int| n <= k < after.len() implies rect_in_range(#[trigger] after[k]) by {
        if r.len() == 1 && k == n {
            assert(after[k] == r[0]);
        } else {
            assert(after[k] == b[0]);
        }
    }
}

/// What a run of world allocations keeps true: the free list has no
/// overlaps, stays inside the world and in range; every slice handed out so
/// far has the requested size, lies inside the world, is no longer free,
/// and shares no cell with any other handed-out slice.
spec fn world_inv(world: UVec2, s: Seq<FreeRect>, steps: Seq<(int, UVec2)>, res: Seq<Option<GridSlice>>) -> bool {
    &&& res.len() == steps.len()
    &&& rects_disjoint(s)
    &&& forall|k: int| 0 <= k < s.len() ==> rect_in_range(#[trigger] s[k])
    &&& forall|x: int, y: int| #[trigger] rects_cover(s, x, y) ==> in_world(world, x, y)
    &&& forall|k: int| 0 <= k < res.len() ==> (#[trigger] res[k] matches Some(sl) ==> sl.size == steps[k].1)
    &&& forall|k: int, x: int, y: int|
        0 <= k < res.len() && #[trigger] slice_covers(res[k], x, y) ==> in_world(world, x, y)
            && !rects_cover(s, x, y)
    &&& forall|j: int, k: int, x: int, y: int|
        #![trigger slice_covers(res[j], x, y), slice_covers(res[k], x, y)]
        0 <= j < k < res.len() && slice_covers(res[j], x, y) ==> !slice_covers(res[k], x, y)
}

/// One more allocation, whatever it picks, keeps `world_inv`.
proof fn lemma_world_step(
    world: UVec2,
    s: Seq<FreeRect>,
    steps: Seq<(int, UVec2)>,
    res: Seq<Option<GridSlice>>,
    i: int,
    size: UVec2,
)
    requires
        world_inv(world, s, steps, res),
    ensures
        world_inv(
            world,
            world_next(s, i, size),
            steps.push((i, size)),
            res.push(world_result(s, i, size)),
        ),
{
    let s2 = world_next(s, i, size);
    let r = world_result(s, i, size);
    let res2 = res.push(r);
    let steps2 = steps.push((i, size));
    let n = res.len();
    assert forall|k: int| 0 <= k < n implies #[trigger] res2[k] == res[k] && steps2[k] == steps[k] by {}
    assert(res2[n as int] == r && steps2[n as int] == (i, size));
    if !valid_pick(s, i, size) {
        assert(s2 == s && r is None);
        assert forall|k: int| 0 <= k < res2.len() implies (#[trigger] res2[k] matches Some(sl)
            ==> sl.size == steps2[k].1) by {
            if k < n {
                assert(res2[k] == res[k]);
            }
        }
        assert forall|k: int, x: int, y: int|
            0 <= k < res2.len() && #[trigger] slice_covers(res2[k], x, y) implies in_world(
            world,
            x,
            y,
        ) && !rects_cover(s2, x, y) by {
            assert(k < n);
            assert(res2[k] == res[k]);
        }
        assert forall|j: int, k: int, x: int, y: int|
            0 <= j < k < res2.len() && slice_covers(res2[j], x, y) implies !slice_covers(
            res2[k],
            x,
            y,
        ) by {
            assert(res2[j] == res[j]);
            if k < n {
                assert(res2[k] == res[k]);
                assert(slice_covers(res[j], x, y));
            }
        }
    } else {
        let t = s[i];
        let c = rect_carved(t, size);
        lemma_rects_carve_exact(s, i, size);
        lemma_rects_after_entries(s, i, size);
        assert(s2 == rects_after(s, i, size));
        assert(r == Some(GridSlice { offset: t.0, size }));
        assert forall|k: int| 0 <= k < s2.len() implies rect_in_range(#[trigger] s2[k]) by {
            if k < s.len() - 1 {
                assert(s2[k] == s[index_before_removal(i, k)]);
            }
        }
        assert forall|x: int, y: int| #[trigger] rects_cover(s2, x, y) implies in_world(world, x, y) by {
            assert(rects_cover(s, x, y));
        }
        assert forall|x: int, y: int| #[trigger] rect_covers(c, x, y) implies rects_cover(s, x, y)
            && !rects_cover(s2, x, y) && in_world(world, x, y) by {
            assert(rect_covers(s[i], x, y));
        }
        assert forall|k: int| 0 <= k < res2.len() implies (#[trigger] res2[k] matches Some(sl)
            ==> sl.size == steps2[k].1) by {
            if k < n {
                assert(res2[k] == res[k]);
            }
        }
        assert forall|k: int, x: int, y: int|
            0 <= k < res2.len() && #[trigger] slice_covers(res2[k], x, y) implies in_world(
            world,
            x,
            y,
        ) && !rects_cover(s2, x, y) by {
            if k < n {
                assert(res2[k] == res[k]);
                assert(slice_covers(res[k], x, y));
                if rects_cover(s2, x, y) {
                    assert(rects_cover(s, x, y));
                }
            } else {
                assert(rect_covers(c, x, y));
            }
        }
        assert forall|j: int, k: int, x: int, y: int|
            0 <= j < k < res2.len() && slice_covers(res2[j], x, y) implies !slice_covers(
            res2[k],
            x,
            y,
        ) by {
            assert(res2[j] == res[j]);
            assert(slice_covers(res[j], x, y));
            if k < n {
                assert(res2[k] == res[k]);
            } else if slice_covers(res2[k], x, y) {
                assert(rect_covers(c, x, y));
                assert(rects_cover(s, x, y));
            }
        }
    }
}

/// `world_inv` holds after any run of allocations from a fresh dense world.
proof fn lemma_world_run(world: UVec2, steps: Seq<(int, UVec2)>)
    requires
        world.x <= i32::MAX,
        world.y <= i32::MAX,
    ensures
        world_inv(
            world,
            world_free_after(seq![(IVec2 { x: 0, y: 0 }, world)], steps),
            steps,
            world_results(seq![(IVec2 { x: 0, y: 0 }, world)], steps),
        ),
    decreases steps.len(),
{
    let f = seq![(IVec2 { x: 0, y: 0 }, world)];
    if steps.len() == 0 {
        assert forall|x: int, y: int| #[trigger] rects_cover(f, x, y) implies in_world(world, x, y) by {
            let k = choose|k: int| 0 <= k < f.len() && #[trigger] rect_covers(f[k], x, y);
            assert(k == 0);
        }
    } else {
        let d = steps.drop_last();
        lemma_world_run(world, d);
        lemma_world_step(
            world,
            world_free_after(f, d),
            d,
            world_results(f, d),
            steps.last().0,
            steps.last().1,
        );
        assert(d.push(steps.last()) =~= steps);
    }
}

/// World slices never overlap and never leave the world.  Starting from a
/// fresh dense world of `world` (whose free list is the whole world), for
/// any sequence of allocations and whatever rectangle each one picks, every
/// slice handed out has the requested size, lies inside the world, and
/// shares no cell with any other handed-out slice.
pub proof fn lemma_world_allocations_never_overlap(world: UVec2, steps: Seq<(int, UVec2)>)
    requires
        world.x <= i32::MAX,
        world.y <= i32::MAX,
    ensures
        ({
            let res = world_results(seq![(IVec2 { x: 0, y: 0 }, world)], steps);
            &&& res.len() == steps.len()
            &&& forall|k: int|
                0 <= k < steps.len() ==> (#[trigger] res[k] matches Some(sl) ==> sl.size
                    == steps[k].1 && (sl.size.x >= 1 && sl.size.y >= 1 ==> sl.offset.x >= 0
                    && sl.offset.y >= 0 && sl.offset.x + sl.size.x <= world.x && sl.offset.y
                    + sl.size.y <= world.y))
            &&& forall|k: int, x: int, y: int|
                0 <= k < steps.len() && #[trigger] slice_covers(res[k], x, y) ==> in_world(
                    world,
                    x,
                    y,
                )
            &&& forall|j: int, k: int, x: int, y: int|
                #![trigger slice_covers(res[j], x, y), slice_covers(res[k], x, y)]
                0 <= j < steps.len() && 0 <= k < steps.len() && j != k && slice_covers(res[j], x, y)
                    ==> !slice_covers(res[k], x, y)
        }),
{
    lemma_world_run(world, steps);
    let res = world_results(seq![(IVec2 { x: 0, y: 0 }, world)], steps);
    assert forall|k: int|
        0 <= k < steps.len() implies (#[trigger] res[k] matches Some(sl) ==> sl.size == steps[k].1
        && (sl.size.x >= 1 && sl.size.y >= 1 ==> sl.offset.x >= 0 && sl.offset.y >= 0
        && sl.offset.x + sl.size.x <= world.x && sl.offset.y + sl.size.y <= world.y)) by {
        if res[k] is Some && res[k]->0.size.x >= 1 && res[k]->0.size.y >= 1 {
            let sl = res[k]->0;
            assert(slice_covers(res[k], sl.offset.x as int, sl.offset.y as int));
            assert(slice_covers(
                res[k],
                sl.offset.x + sl.size.x - 1,
                sl.offset.y + sl.size.y - 1,
            ));
        }
    }
    assert forall|j: int, k: int, x: int, y: int|
        0 <= j < steps.len() && 0 <= k < steps.len() && j != k && slice_covers(
            res[j],
            x,
            y,
        ) implies !slice_covers(res[k], x, y) by {
        if k < j && slice_covers(res[k], x, y) {
            assert(slice_covers(res[j], x, y));
        }
    }
}

} // verus!
