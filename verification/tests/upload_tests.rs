use soul_engine::cell::CellState;
use soul_engine::grid::{DenseGrid, GridBackend, SparseGrid};
use soul_engine::math::{IVec2, UVec2};
use soul_engine::upload::{
    live_cells, render_automaton, sparse_upload_fits, upload_dense, upload_sparse, PrevLive,
};

fn dense(w: u32, h: u32, live: &[(i32, i32)]) -> GridBackend {
    let mut g = DenseGrid::blank(UVec2::new(w, h));
    for &(x, y) in live {
        g.set_state(IVec2::new(x, y), CellState::Alive(1));
    }
    GridBackend::Dense(g)
}

fn sparse(cells: &[((i32, i32), CellState)]) -> GridBackend {
    let mut s = SparseGrid::new();
    for &((x, y), st) in cells {
        s.set_state(IVec2::new(x, y), st);
    }
    GridBackend::Sparse(s)
}

#[test]
fn dense_upload_writes_every_texel() {
    let b = dense(3, 2, &[(0, 0), (2, 1)]);
    let mut buf = vec![7u8; 6];
    upload_dense(&b, &mut buf);
    assert_eq!(buf, vec![255, 0, 0, 0, 0, 255]);
}

#[test]
fn dense_upload_skips_mismatched_image() {
    let b = dense(3, 2, &[(0, 0)]);
    let mut buf = vec![7u8; 5];
    upload_dense(&b, &mut buf);
    assert_eq!(buf, vec![7u8; 5]);
    let s = sparse(&[((0, 0), CellState::Alive(1))]);
    let mut buf2 = vec![9u8; 4];
    upload_dense(&s, &mut buf2);
    assert_eq!(buf2, vec![9u8; 4]);
}

#[test]
fn live_cells_lists_non_dead_in_storage_order() {
    let mut s = SparseGrid::new();
    s.set_state(IVec2::new(5, 5), CellState::Alive(1));
    s.set_state(IVec2::new(1, 0), CellState::Dead);
    s.set_state(IVec2::new(-1, 2), CellState::Alive(3));
    assert_eq!(live_cells(&s), vec![IVec2::new(5, 5), IVec2::new(-1, 2)]);
}

#[test]
fn sparse_upload_is_differential() {
    // 4x2 texture
    let mut buf = vec![0u8; 8];
    let mut prev = PrevLive(Vec::new());
    let b1 = sparse(&[((1, 0), CellState::Alive(1)), ((3, 1), CellState::Alive(2)), ((9, 9), CellState::Alive(1))]);
    upload_sparse(&b1, 4, 2, &mut buf, &mut prev);
    assert_eq!(buf, vec![0, 255, 0, 0, 0, 0, 0, 255]);
    assert_eq!(prev.0, vec![IVec2::new(1, 0), IVec2::new(3, 1), IVec2::new(9, 9)]);
    // a texel whose cell neither died nor was born keeps whatever it held
    buf[2] = 42;
    let b2 = sparse(&[((1, 0), CellState::Dead), ((0, 1), CellState::Alive(1))]);
    upload_sparse(&b2, 4, 2, &mut buf, &mut prev);
    assert_eq!(buf, vec![0, 0, 42, 0, 255, 0, 0, 0]);
    assert_eq!(prev.0, vec![IVec2::new(0, 1)]);
}

#[test]
fn sparse_upload_ignores_dense_worlds() {
    let b = dense(2, 2, &[(0, 0)]);
    let mut buf = vec![3u8; 4];
    let mut prev = PrevLive(vec![IVec2::new(1, 1)]);
    upload_sparse(&b, 2, 2, &mut buf, &mut prev);
    assert_eq!(buf, vec![3u8; 4]);
    assert_eq!(prev.0, vec![IVec2::new(1, 1)]);
}

#[test]
fn differential_upload_matches_full_redraw() {
    let frames = vec![
        vec![((0, 0), CellState::Alive(1)), ((2, 2), CellState::Alive(1))],
        vec![((0, 0), CellState::Dead), ((1, 2), CellState::Alive(1)), ((2, 2), CellState::Alive(5))],
        vec![((4, 0), CellState::Alive(1)), ((2, 0), CellState::Alive(1))],
        vec![],
    ];
    let mut buf = vec![0u8; 9];
    let mut prev = PrevLive(Vec::new());
    for cells in &frames {
        let b = sparse(cells);
        upload_sparse(&b, 3, 3, &mut buf, &mut prev);
        let mut full = vec![99u8; 9];
        render_automaton(&b, 3, 3, &mut full);
        assert_eq!(buf, full);
    }
}

#[test]
fn full_redraw_of_dense_grid() {
    let b = dense(2, 2, &[(1, 0)]);
    let mut buf = vec![5u8; 6];
    render_automaton(&b, 2, 2, &mut buf);
    assert_eq!(buf, vec![0, 255, 0, 0, 0, 0]);
    let mut same = vec![0u8; 4];
    upload_dense(&b, &mut same);
    assert_eq!(same, buf[..4].to_vec());
}

#[test]
fn sparse_texels_beyond_the_texture_are_left_alone() {
    // 2x2 texture in a 6-byte buffer
    let b = sparse(&[((1, 1), CellState::Alive(1)), ((2, 0), CellState::Alive(1))]);
    let mut buf = vec![7u8; 6];
    let mut prev = PrevLive(Vec::new());
    upload_sparse(&b, 2, 2, &mut buf, &mut prev);
    assert_eq!(buf, vec![7, 7, 7, 255, 7, 7]);
    let mut full = vec![7u8; 6];
    render_automaton(&b, 2, 2, &mut full);
    assert_eq!(full, vec![0, 0, 0, 255, 0, 0]);
}

#[test]
fn second_sparse_upload_writes_nothing() {
    let b = sparse(&[((0, 0), CellState::Alive(1)), ((2, 1), CellState::Alive(1)), ((1, 1), CellState::Dead)]);
    let mut buf = vec![0u8, 9, 9, 0, 9, 9];
    let mut prev = PrevLive(vec![IVec2::new(1, 0), IVec2::new(2, 1)]);
    upload_sparse(&b, 3, 2, &mut buf, &mut prev);
    assert_eq!(buf, vec![255, 0, 9, 0, 9, 9]);
    let once = buf.clone();
    let prev_once = prev.0.clone();
    upload_sparse(&b, 3, 2, &mut buf, &mut prev);
    assert_eq!(buf, once);
    assert_eq!(prev.0, prev_once);
}

#[test]
fn short_image_is_fine_while_every_write_fits() {
    // 4x4 texture but only 6 bytes of image: the live cell at (1, 1) has index 5
    let b = sparse(&[((1, 1), CellState::Alive(1)), ((3, 3), CellState::Dead)]);
    let mut prev = PrevLive(Vec::new());
    assert!(sparse_upload_fits(&b, &prev, 4, 4, 6));
    let mut buf = vec![0u8; 6];
    upload_sparse(&b, 4, 4, &mut buf, &mut prev);
    assert_eq!(buf, vec![0, 0, 0, 0, 0, 255]);
    let mut full = vec![1u8; 6];
    render_automaton(&b, 4, 4, &mut full);
    assert_eq!(full, vec![0, 0, 0, 0, 0, 255]);
}

#[test]
fn upload_check_refuses_writes_past_the_image() {
    let prev = PrevLive(Vec::new());
    // born at index 6 of a 6-byte image
    let b = sparse(&[((2, 1), CellState::Alive(1))]);
    assert!(!sparse_upload_fits(&b, &prev, 4, 4, 6));
    // died at index 6: the clear would write past the image too
    let empty = sparse(&[]);
    assert!(!sparse_upload_fits(&empty, &PrevLive(vec![IVec2::new(2, 1)]), 4, 4, 6));
    // unchanged cells are never written, and outside-texture cells are skipped
    assert!(sparse_upload_fits(&b, &PrevLive(vec![IVec2::new(2, 1)]), 4, 4, 6));
    let far = sparse(&[((40, 1), CellState::Alive(1))]);
    assert!(sparse_upload_fits(&far, &prev, 4, 4, 6));
    // a dense world is never written by the sparse upload
    assert!(sparse_upload_fits(&dense(4, 4, &[(3, 3)]), &prev, 4, 4, 0));
}
