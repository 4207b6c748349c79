use soul_engine::cell::{Cell, CellState};
use soul_engine::grid::{blank_cell, DenseGrid, GridBackend, SparseGrid};
use soul_engine::math::{IVec2, UVec2};
use soul_engine::worldgrid::{GridSlice, WorldGrid};

fn states(g: &DenseGrid) -> Vec<CellState> {
    g.cells.iter().map(|c: &Cell| c.state).collect()
}

#[test]
fn cell_state_defaults_to_dead() {
    assert_eq!(CellState::default(), CellState::Dead);
    assert!(CellState::Dead.is_dead());
    assert!(!CellState::Alive(1).is_dead());
}

#[test]
fn blank_cell_is_dead_with_null_memory() {
    let c = blank_cell();
    assert_eq!(c.state, CellState::Dead);
    assert_eq!(c.memory, serde_json::Value::Null);
}

#[test]
fn blank_dense_grid() {
    let g = DenseGrid::blank(UVec2::new(3, 2));
    assert_eq!(g.size, UVec2::new(3, 2));
    assert_eq!(g.cells.len(), 6);
    assert!(g.cells.iter().all(|c| c.state == CellState::Dead));
    assert_eq!(DenseGrid::blank(UVec2::new(0, 5)).cells.len(), 0);
}

#[test]
fn dense_index_is_row_major() {
    let g = DenseGrid::blank(UVec2::new(3, 2));
    assert_eq!(g.index_of(IVec2::new(0, 0)), Some(0));
    assert_eq!(g.index_of(IVec2::new(2, 0)), Some(2));
    assert_eq!(g.index_of(IVec2::new(1, 1)), Some(4));
    assert_eq!(g.index_of(IVec2::new(3, 0)), None);
    assert_eq!(g.index_of(IVec2::new(0, 2)), None);
    assert_eq!(g.index_of(IVec2::new(-1, 0)), None);
}

#[test]
fn dense_set_state_inside_and_outside() {
    let mut g = DenseGrid::blank(UVec2::new(3, 2));
    g.set_state(IVec2::new(2, 1), CellState::Alive(4));
    g.set_state(IVec2::new(5, 5), CellState::Alive(1));
    let mut want = vec![CellState::Dead; 6];
    want[5] = CellState::Alive(4);
    assert_eq!(states(&g), want);
}

#[test]
fn sparse_set_state_inserts_then_overwrites() {
    let mut s = SparseGrid::new();
    assert_eq!(s.len(), 0);
    s.set_state(IVec2::new(-5, 7), CellState::Alive(2));
    s.set_state(IVec2::new(1, 1), CellState::Alive(3));
    s.set_state(IVec2::new(-5, 7), CellState::Dead);
    assert_eq!(s.len(), 2);
    assert_eq!(s.entry(0), (IVec2::new(-5, 7), CellState::Dead));
    assert_eq!(s.entry(1), (IVec2::new(1, 1), CellState::Alive(3)));
}

#[test]
fn extents_of_backends() {
    let d = GridBackend::Dense(DenseGrid::blank(UVec2::new(40, 30)));
    let s = GridBackend::Sparse(SparseGrid::new());
    assert_eq!(d.view_extent(), (40, 30));
    assert_eq!(d.texture_extent(), (40, 30));
    assert_eq!(s.view_extent(), (1024, 1024));
    assert_eq!(s.texture_extent(), (512, 512));
}

#[test]
fn dense_world_first_slice_at_origin() {
    let mut w = WorldGrid::new_dense(UVec2::new(16, 16));
    assert_eq!(
        w.allocate(UVec2::new(16, 16)),
        Some(GridSlice { offset: IVec2::new(0, 0), size: UVec2::new(16, 16) })
    );
    assert_eq!(w.allocate(UVec2::new(1, 1)), None);
}

#[test]
fn random_allocation_covers_quadrants_without_overlap() {
    for _ in 0..20 {
        let mut w = WorldGrid::new_dense(UVec2::new(16, 16));
        let size = UVec2::new(8, 8);
        let mut offs = Vec::new();
        for _ in 0..4 {
            let s = w.allocate(size).expect("a quadrant is free");
            assert_eq!(s.size, size);
            offs.push(s.offset);
        }
        assert_eq!(w.allocate(size), None);
        offs.sort_by_key(|o| (o.y, o.x));
        assert_eq!(
            offs,
            vec![IVec2::new(0, 0), IVec2::new(8, 0), IVec2::new(0, 8), IVec2::new(8, 8)]
        );
    }
}

#[test]
fn allocate_at_splits_right_then_below() {
    let mut w = WorldGrid::new_dense(UVec2::new(10, 6));
    let s = w.allocate_at(0, UVec2::new(4, 2));
    assert_eq!(s, GridSlice { offset: IVec2::new(0, 0), size: UVec2::new(4, 2) });
    // entry 0 is now the right strip (4,0) 6x2, entry 1 the lower part (0,2) 10x4
    let r = w.allocate_at(0, UVec2::new(6, 2));
    assert_eq!(r.offset, IVec2::new(4, 0));
    let b = w.allocate_at(0, UVec2::new(10, 4));
    assert_eq!(b.offset, IVec2::new(0, 2));
    assert_eq!(w.allocate(UVec2::new(1, 1)), None);
}

#[test]
fn sparse_world_has_no_free_space() {
    let mut w = WorldGrid::new_sparse();
    assert_eq!(w.allocate(UVec2::new(1, 1)), None);
    assert_eq!(w.allocate(UVec2::new(0, 0)), None);
}

#[test]
fn set_through_slice_writes_world_cell() {
    let mut w = WorldGrid::new_dense(UVec2::new(4, 4));
    let slice = GridSlice { offset: IVec2::new(1, 2), size: UVec2::new(2, 2) };
    w.set(slice, IVec2::new(1, 1), CellState::Alive(9));
    w.set(slice, IVec2::new(5, 5), CellState::Alive(1));
    match &w.backend {
        GridBackend::Dense(g) => {
            let alive: Vec<usize> =
                (0..16).filter(|&i| g.cells[i].state != CellState::Dead).collect();
            assert_eq!(alive, vec![3 * 4 + 2]);
            assert_eq!(g.cells[14].state, CellState::Alive(9));
        }
        GridBackend::Sparse(_) => panic!("dense expected"),
    }
    let mut sw = WorldGrid::new_sparse();
    sw.set(slice, IVec2::new(-3, 10), CellState::Alive(2));
    match &sw.backend {
        GridBackend::Sparse(s) => {
            assert_eq!(s.len(), 1);
            assert_eq!(s.entry(0), (IVec2::new(-2, 12), CellState::Alive(2)));
        }
        GridBackend::Dense(_) => panic!("sparse expected"),
    }
}

#[test]
fn world_slices_of_mixed_sizes_stay_inside_and_apart() {
    let sizes = [(5u32, 3u32), (2, 7), (4, 4), (1, 1), (9, 2), (3, 3), (1, 10), (6, 1)];
    for _ in 0..50 {
        let world = UVec2::new(20, 12);
        let mut w = WorldGrid::new_dense(world);
        let mut got: Vec<GridSlice> = Vec::new();
        for &(x, y) in sizes.iter().chain(sizes.iter()) {
            if let Some(sl) = w.allocate(UVec2::new(x, y)) {
                assert_eq!(sl.size, UVec2::new(x, y));
                assert!(sl.offset.x >= 0 && sl.offset.y >= 0);
                assert!(sl.offset.x as u32 + x <= world.x && sl.offset.y as u32 + y <= world.y);
                got.push(sl);
            }
        }
        for i in 0..got.len() {
            for j in 0..got.len() {
                if i != j {
                    let (a, b) = (got[i], got[j]);
                    let apart = a.offset.x + a.size.x as i32 <= b.offset.x
                        || b.offset.x + b.size.x as i32 <= a.offset.x
                        || a.offset.y + a.size.y as i32 <= b.offset.y
                        || b.offset.y + b.size.y as i32 <= a.offset.y;
                    assert!(apart, "{:?} {:?}", a, b);
                }
            }
        }
    }
}
