//! Physical cell storage of a world: a dense row-major grid or a sparse
//! position → cell map.

use vstd::prelude::*;
use crate::math::{IVec2, UVec2};
use crate::cell::{Cell, CellState};

verus! {

/// An empty (`null`) per-cell memory value.
#[verifier::external_body]
fn null_memory() -> serde_json::Value {
    serde_json::Value::Null
}

/// A dead cell with empty memory (the default cell).
pub fn blank_cell() -> (r: Cell)
    ensures
        r.state == CellState::Dead,
{
    Cell { state: CellState::Dead, memory: null_memory() }
}

/// Row-major index of `pos` in a grid of `size`, when `pos` lies inside it.
pub open spec fn cell_index(size: UVec2, pos: IVec2) -> Option<int> {
    if 0 <= pos.x < size.x && 0 <= pos.y < size.y {
        Some(pos.y * size.x + pos.x)
    } else {
        None
    }
}

/// Dense grid: `size.x × size.y` cells stored row by row.
pub struct DenseGrid {
    pub size: UVec2,
    pub cells: Vec<Cell>,
}

impl DenseGrid {
    /// One cell per position.
    pub open spec fn wf(&self) -> bool {
        self.cells@.len() == self.size.x * self.size.y
    }

    /// Cell states, row by row.
    pub open spec fn states(&self) -> Seq<CellState> {
        self.cells@.map_values(|c: Cell| c.state)
    }

    /// A grid of `size` whose cells are all dead.
    pub fn blank(size: UVec2) -> (r: Self)
        requires
            size.x * size.y <= usize::MAX,
        ensures
            r.wf(),
            r.size == size,
            forall|k: int| 0 <= k < r.cells@.len() ==> (#[trigger] r.cells@[k]).state
                == CellState::Dead,
    {
        let n: usize = (size.x as usize) * (size.y as usize);
        let mut cells: Vec<Cell> = Vec::new();
        for i in 0..n
            invariant
                cells@.len() == i,
                forall|k: int| 0 <= k < i ==> (#[trigger] cells@[k]).state == CellState::Dead,
        {
            cells.push(blank_cell());
        }
        DenseGrid { size, cells }
    }

    /// Index of the cell at `pos`, if `pos` is inside the grid.
    pub fn index_of(&self, pos: IVec2) -> (r: Option<usize>)
        requires
            self.wf(),
        ensures
            r matches Some(i) ==> cell_index(self.size, pos) == Some(i as int) && i
                < self.cells@.len(),
            r is None ==> cell_index(self.size, pos) is None,
    {
        if 0 <= pos.x && (pos.x as u32) < self.size.x && 0 <= pos.y && (pos.y as u32)
            < self.size.y {
            let x = pos.x as usize;
            let y = pos.y as usize;
            let w = self.size.x as usize;
            let len = self.cells.len();
            proof {
                let (sx, sy) = (self.size.x as int, self.size.y as int);
                assert(y * w + x < sx * sy) by (nonlinear_arith)
                    requires
                        x < sx,
                        y < sy,
                        w == sx,
                        0 <= x,
                        0 <= y,
                ;
                assert(0 <= y * w) by (nonlinear_arith)
                    requires
                        0 <= y,
                        0 <= w,
                ;
            }
            Some(y * w + x)
        } else {
            None
        }
    }

    /// Sets the state of the cell at `pos`; positions outside the grid are
    /// ignored.  Cell memories are kept.
    pub fn set_state(&mut self, pos: IVec2, state: CellState)
        requires
            old(self).wf(),
        ensures
            final(self).wf(),
            final(self).size == old(self).size,
            final(self).states() == (match cell_index(old(self).size, pos) {
                Some(i) => old(self).states().update(i, state),
                None => old(self).states(),
            }),
            final(self).cells@.map_values(|c: Cell| c.memory) == old(self).cells@.map_values(
                |c: Cell| c.memory,
            ),
    {
        if let Some(i) = self.index_of(pos) {
            let c = &mut self.cells[i];
            c.state = state;
            assert(self.states() =~= old(self).states().update(i as int, state));
        }
        assert(self.cells@.map_values(|c: Cell| c.memory) =~= old(self).cells@.map_values(
            |c: Cell| c.memory,
        ));
    }
}

/// Some entry of `e` is at `p`.
pub open spec fn has_pos(e: Seq<(IVec2, Cell)>, p: IVec2) -> bool {
    exists|j: int| 0 <= j < e.len() && (#[trigger] e[j]).0 == p
}

/// No position occurs twice.
pub open spec fn positions_distinct(e: Seq<(IVec2, Cell)>) -> bool {
    forall|a: int, b: int|
        0 <= a < e.len() && 0 <= b < e.len() && a != b ==> (#[trigger] e[a]).0 != (
        #[trigger] e[b]).0
}

/// The position → state map that the entry list `e` stands for.
pub open spec fn states_map(e: Seq<(IVec2, Cell)>) -> Map<IVec2, CellState> {
    Map::new(
        |p: IVec2| has_pos(e, p),
        |p: IVec2| e[choose|j: int| 0 <= j < e.len() && (#[trigger] e[j]).0 == p].1.state,
    )
}

/// With distinct positions, entry `j` is what the map holds for its position.
pub proof fn lemma_pos_in_map(e: Seq<(IVec2, Cell)>, j: int)
    requires
        positions_distinct(e),
        0 <= j < e.len(),
    ensures
        states_map(e).dom().contains(e[j].0),
        states_map(e)[e[j].0] == e[j].1.state,
{
    assert(has_pos(e, e[j].0));
    let c = choose|i: int| 0 <= i < e.len() && (#[trigger] e[i]).0 == e[j].0;
    assert(c == j);
}

/// `after` is `before` with the state at `pos` set: a stored cell keeps
/// its place and memory, otherwise a cell is appended at the end.
pub open spec fn stored_after_set(
    before: Seq<(IVec2, Cell)>,
    after: Seq<(IVec2, Cell)>,
    pos: IVec2,
    state: CellState,
) -> bool {
    &&& has_pos(before, pos) ==> exists|j: int|
        0 <= j < before.len() && (#[trigger] before[j]).0 == pos && after == before.update(
            j,
            (pos, Cell { state, memory: before[j].1.memory }),
        )
    &&& !has_pos(before, pos) ==> {
        &&& after.len() == before.len() + 1
        &&& after.drop_last() == before
        &&& after.last().0 == pos
        &&& after.last().1.state == state
    }
}

/// Sparse grid: only stored cells exist; positions are unbounded.
pub struct SparseGrid {
    entries: Vec<(IVec2, Cell)>,
}

impl SparseGrid {
    /// Stored cells, in storage order.
    pub closed spec fn entries(&self) -> Seq<(IVec2, Cell)> {
        self.entries@
    }

    /// Each position is stored at most once.
    pub open spec fn wf(&self) -> bool {
        positions_distinct(self.entries())
    }

    /// State of every stored cell.
    pub open spec fn states(&self) -> Map<IVec2, CellState> {
        states_map(self.entries())
    }

    /// An empty sparse grid.
    pub fn new() -> (r: Self)
        ensures
            r.wf(),
            r.states() == Map::<IVec2, CellState>::empty(),
            r.entries().len() == 0,
    {
        let r = SparseGrid { entries: Vec::new() };
        assert(r.states() =~= Map::<IVec2, CellState>::empty());
        r
    }

    /// Number of stored cells.
    pub fn len(&self) -> (r: usize)
        ensures
            r == self.entries().len(),
    {
        self.entries.len()
    }

    /// Position and state of the `k`-th stored cell.
    pub fn entry(&self, k: usize) -> (r: (IVec2, CellState))
        requires
            k < self.entries().len(),
        ensures
            r.0 == self.entries()[k as int].0,
            r.1 == self.entries()[k as int].1.state,
    {
        (self.entries[k].0, self.entries[k].1.state)
    }

    /// Every stored entry is in the state map.
    pub proof fn lemma_entries_in_map(&self)
        requires
            self.wf(),
        ensures
            forall|j: int|
                0 <= j < self.entries().len() ==> self.states().dom().contains(
                    (#[trigger] self.entries()[j]).0,
                ) && self.states()[self.entries()[j].0] == self.entries()[j].1.state,
            forall|p: IVec2| #[trigger]
                self.states().dom().contains(p) ==> has_pos(self.entries(), p),
    {
        assert forall|j: int| 0 <= j < self.entries().len() implies self.states().dom().contains(
            (#[trigger] self.entries()[j]).0,
        ) && self.states()[self.entries()[j].0] == self.entries()[j].1.state by {
            lemma_pos_in_map(self.entries@, j);
        }
    }

    /// Sets the state at `pos`, storing a blank cell there first if needed:
    /// a stored cell keeps its place and memory, a new one is appended.
    pub fn set_state(&mut self, pos: IVec2, state: CellState)
        requires
            old(self).wf(),
        ensures
            final(self).wf(),
            final(self).states() == old(self).states().insert(pos, state),
            stored_after_set(old(self).entries(), final(self).entries(), pos, state),
    {
        let ghost e0 = self.entries@;
        let n = self.entries.len();
        let mut j: usize = 0;
        while j < n
            invariant
                n == self.entries@.len(),
                e0 == self.entries@,
                j <= n,
                forall|k: int| 0 <= k < j ==> (#[trigger] self.entries@[k]).0 != pos,
            ensures
                j <= n,
                forall|k: int| 0 <= k < j ==> (#[trigger] self.entries@[k]).0 != pos,
                j < n ==> self.entries@[j as int].0 == pos,
            decreases n - j,
        {
            if self.entries[j].0 == pos {
                break;
            }
            j += 1;
        }
        if j < n {
            let c = &mut self.entries[j].1;
            c.state = state;
            assert(self.entries@ =~= e0.update(
                j as int,
                (pos, Cell { state, memory: e0[j as int].1.memory }),
            ));
        } else {
            let mut c = blank_cell();
            c.state = state;
            self.entries.push((pos, c));
            assert(self.entries@.drop_last() =~= e0);
            assert(!has_pos(e0, pos));
        }
        let ghost e1 = self.entries@;
        assert(positions_distinct(e1)) by {
            assert forall|a: int, b: int|
                0 <= a < e1.len() && 0 <= b < e1.len() && a != b implies (#[trigger] e1[a]).0 != (
            #[trigger] e1[b]).0 by {
                if a < n && b < n {
                    assert(e1[a].0 == e0[a].0 && e1[b].0 == e0[b].0);
                } else if a < n {
                    assert(e1[a] == e0[a]);
                } else {
                    assert(e1[b] == e0[b]);
                }
            }
        }
        assert(states_map(e1) =~= states_map(e0).insert(pos, state)) by {
            assert forall|p: IVec2| #[trigger] has_pos(e1, p) <==> (has_pos(e0, p) || p == pos) by {
                if has_pos(e1, p) {
                    let c = choose|c: int| 0 <= c < e1.len() && (#[trigger] e1[c]).0 == p;
                    if c < n {
                        assert(e0[c].0 == e1[c].0);
                    }
                }
                if has_pos(e0, p) {
                    let c = choose|c: int| 0 <= c < e0.len() && (#[trigger] e0[c]).0 == p;
                    assert(e0[c].0 == e1[c].0);
                }
                if p == pos {
                    assert(e1[j as int].0 == p);
                }
            }
            assert forall|p: IVec2| #[trigger] has_pos(e1, p) implies states_map(e1)[p]
                == states_map(e0).insert(pos, state)[p] by {
                let c = choose|c: int| 0 <= c < e1.len() && (#[trigger] e1[c]).0 == p;
                lemma_pos_in_map(e1, c);
                if c != j {
                    assert(e0[c] == e1[c]);
                    lemma_pos_in_map(e0, c);
                }
            }
        }
    }
}

/// Storage back-end of a world grid.
pub enum GridBackend {
    Dense(DenseGrid),
    Sparse(SparseGrid),
}

/// Extent assumed for a sparse world when the camera is centred on it.
pub const SPARSE_VIEW_EXTENT: u32 = 1024;
/// Texture extent used to draw a sparse automaton.
pub const SPARSE_TEXTURE_EXTENT: u32 = 512;

impl GridBackend {
    /// Dense grids are well-formed and sparse grids hold each position once.
    pub open spec fn wf(&self) -> bool {
        match self {
            GridBackend::Dense(g) => g.wf(),
            GridBackend::Sparse(s) => s.wf(),
        }
    }

    /// Width and height the world camera centres on: the dense size, or
    /// `SPARSE_VIEW_EXTENT` on both axes for a sparse world.
    pub fn view_extent(&self) -> (r: (u32, u32))
        ensures
            r == (match self {
                GridBackend::Dense(g) => (g.size.x, g.size.y),
                GridBackend::Sparse(_) => (SPARSE_VIEW_EXTENT, SPARSE_VIEW_EXTENT),
            }),
    {
        match self {
            GridBackend::Dense(g) => (g.size.x, g.size.y),
            GridBackend::Sparse(_) => (SPARSE_VIEW_EXTENT, SPARSE_VIEW_EXTENT),
        }
    }

    /// Width and height of the texture an automaton is drawn into: the
    /// dense size, or `SPARSE_TEXTURE_EXTENT` on both axes when sparse.
    pub fn texture_extent(&self) -> (r: (u32, u32))
        ensures
            r == (match self {
                GridBackend::Dense(g) => (g.size.x, g.size.y),
                GridBackend::Sparse(_) => (SPARSE_TEXTURE_EXTENT, SPARSE_TEXTURE_EXTENT),
            }),
    {
        match self {
            GridBackend::Dense(g) => (g.size.x, g.size.y),
            GridBackend::Sparse(_) => (SPARSE_TEXTURE_EXTENT, SPARSE_TEXTURE_EXTENT),
        }
    }
}

} // verus!
