//! Copies the CPU grid into an 8-bit GPU image: dead cells become 0, live
//! cells 255.  Dense grids are rewritten in full; sparse grids are updated
//! differentially from the set of cells that were live last frame.

use vstd::prelude::*;
use vstd::arithmetic::div_mod::{lemma_fundamental_div_mod, lemma_fundamental_div_mod_converse};
use crate::math::IVec2;
use crate::cell::{Cell, CellState};
use crate::grid::{GridBackend, SparseGrid, DenseGrid, positions_distinct, states_map, lemma_pos_in_map};

verus! {

/// Texel value of a dead cell.
pub const DEAD_TEXEL: u8 = 0;
/// Texel value of a live cell.
pub const LIVE_TEXEL: u8 = 255;

/// Texel value drawn for a cell state.
pub open spec fn texel_value(s: CellState) -> u8 {
    if s is Dead {
        DEAD_TEXEL
    } else {
        LIVE_TEXEL
    }
}

/// Texel value of "is some cell live here".
pub open spec fn shown(live: bool) -> u8 {
    if live {
        LIVE_TEXEL
    } else {
        DEAD_TEXEL
    }
}

/// Both texture sides are addressable by `i32` grid positions.
pub open spec fn addressable(width: u32, height: u32) -> bool {
    width <= i32::MAX && height <= i32::MAX
}

/// `pos` is a texel of a `width × height` texture.
pub open spec fn in_texture(pos: IVec2, width: u32, height: u32) -> bool {
    addressable(width, height) && 0 <= pos.x < width && 0 <= pos.y < height
}

/// Row-major index of texel `pos`.
pub open spec fn texel_index(pos: IVec2, width: u32) -> int {
    pos.y * width + pos.x
}

/// Position of the texel at row-major index `t`.
pub open spec fn texel_pos(t: int, width: u32) -> IVec2 {
    IVec2 { x: (t % (width as int)) as i32, y: (t / (width as int)) as i32 }
}

/// A texel position maps to an index inside the texture and back.
pub proof fn lemma_texel_roundtrip(pos: IVec2, width: u32, height: u32)
    requires
        in_texture(pos, width, height),
    ensures
        0 <= texel_index(pos, width) < width * height,
        texel_pos(texel_index(pos, width), width) == pos,
{
    let (x, y, w, h) = (pos.x as int, pos.y as int, width as int, height as int);
    assert(0 <= y * w + x < w * h) by (nonlinear_arith)
        requires
            0 <= x < w,
            0 <= y < h,
    ;
    lemma_fundamental_div_mod_converse(y * w + x, w, y, x);
}

/// Every index inside the texture is the index of exactly one texel.
pub proof fn lemma_texel_index_onto(t: int, width: u32, height: u32)
    requires
        addressable(width, height),
        0 <= t < width * height,
    ensures
        in_texture(texel_pos(t, width), width, height),
        texel_index(texel_pos(t, width), width) == t,
{
    let (w, h) = (width as int, height as int);
    assert(w > 0) by (nonlinear_arith)
        requires
            0 <= t < w * h,
            0 <= h,
    ;
    lemma_fundamental_div_mod(t, w);
    let (q, r) = (t / w, t % w);
    assert(0 <= r < w);
    assert(w * q == q * w) by (nonlinear_arith);
    assert(0 <= q < h) by (nonlinear_arith)
        requires
            t == w * q + r,
            0 <= r < w,
            0 <= t < w * h,
            w > 0,
    ;
}

/// Texel `pos`, if inside the texture, can be written to an image of `len`
/// bytes: its row-major index is below `len` and fits the 32-bit index
/// arithmetic.
pub open spec fn texel_fits(pos: IVec2, width: u32, height: u32, len: int) -> bool {
    in_texture(pos, width, height) ==> texel_index(pos, width) < len && texel_index(pos, width)
        < 0x1_0000_0000
}

/// Every texel a differential sparse upload writes fits an image of `len`
/// bytes: those of cells inside the texture that died or were born since
/// the live positions `prev` were remembered.
pub open spec fn sparse_writes_fit(
    states: Map<IVec2, CellState>,
    prev: Seq<IVec2>,
    width: u32,
    height: u32,
    len: int,
) -> bool {
    forall|p: IVec2|
        prev.contains(p) != is_live(states, p) ==> #[trigger] texel_fits(p, width, height, len)
}

/// Every texel a full redraw of a sparse grid writes fits an image of `len`
/// bytes: those of the live cells inside the texture.
pub open spec fn render_writes_fit(
    states: Map<IVec2, CellState>,
    width: u32,
    height: u32,
    len: int,
) -> bool {
    forall|p: IVec2| is_live(states, p) ==> #[trigger] texel_fits(p, width, height, len)
}

/// Texel index of `pos` in a `width × height` texture, if `pos` is inside
/// it; positions beyond the `i32` range of the texture size are outside.
fn texel_of(pos: IVec2, width: u32, height: u32) -> (r: Option<usize>)
    requires
        in_texture(pos, width, height) ==> texel_index(pos, width) < 0x1_0000_0000,
    ensures
        r is None ==> !in_texture(pos, width, height),
        r matches Some(i) ==> in_texture(pos, width, height) && i == texel_index(pos, width),
{
    let w = width as i32;
    let h = height as i32;
    proof {
        assert(width > 0x7fff_ffff ==> w < 0) by (bit_vector)
            requires
                w == width as i32,
        ;
        assert(height > 0x7fff_ffff ==> h < 0) by (bit_vector)
            requires
                h == height as i32,
        ;
    }
    if 0 <= pos.x && pos.x < w && 0 <= pos.y && pos.y < h {
        proof {
            lemma_texel_roundtrip(pos, width, height);
        }
        Some((pos.y as u32 * w as u32 + pos.x as u32) as usize)
    } else {
        None
    }
}

/// The image of a dense grid: one texel per cell, row by row.
pub open spec fn dense_texels(g: DenseGrid) -> Seq<u8> {
    g.states().map_values(|s: CellState| texel_value(s))
}

/// Dense-grid upload (full rewrite): when the image holds one texel per
/// cell, every texel is set from its cell; otherwise nothing is written.
/// Sparse worlds are left to [`upload_sparse`].
pub fn upload_dense(backend: &GridBackend, buf: &mut Vec<u8>)
    ensures
        match backend {
            GridBackend::Dense(g) => if old(buf)@.len() == g.cells@.len() {
                final(buf)@ == dense_texels(*g)
            } else {
                final(buf)@ == old(buf)@
            },
            GridBackend::Sparse(_) => final(buf)@ == old(buf)@,
        },
{
    if let GridBackend::Dense(grid) = backend {
        if buf.len() == grid.cells.len() {
            let n = buf.len();
            for idx in 0..n
                invariant
                    n == buf@.len(),
                    n == grid.cells@.len(),
                    forall|k: int| 0 <= k < idx ==> #[trigger] buf@[k] == texel_value(grid.cells@[k].state),
            {
                let v: u8 = if grid.cells[idx].state.is_dead() {
                    DEAD_TEXEL
                } else {
                    LIVE_TEXEL
                };
                buf.set(idx, v);
            }
            assert(buf@ =~= dense_texels(*grid));
        }
    }
}

/// Positions of the live cells among the entries `e`, in storage order.
pub open spec fn live_positions(e: Seq<(IVec2, Cell)>) -> Seq<IVec2>
    decreases e.len(),
{
    if e.len() == 0 {
        seq![]
    } else {
        let r = live_positions(e.drop_last());
        if e.last().1.state is Dead {
            r
        } else {
            r.push(e.last().0)
        }
    }
}

/// A cell is stored at `p` and it is live.
pub open spec fn is_live(states: Map<IVec2, CellState>, p: IVec2) -> bool {
    states.dom().contains(p) && !(states[p] is Dead)
}

/// `live_positions` lists exactly the live stored cells.
pub proof fn lemma_live_positions(e: Seq<(IVec2, Cell)>)
    requires
        positions_distinct(e),
    ensures
        forall|p: IVec2| #[trigger] live_positions(e).contains(p) <==> is_live(states_map(e), p),
    decreases e.len(),
{
    if e.len() > 0 {
        let d = e.drop_last();
        assert(positions_distinct(d)) by {
            assert forall|a: int, b: int|
                0 <= a < d.len() && 0 <= b < d.len() && a != b implies (#[trigger] d[a]).0 != (
            #[trigger] d[b]).0 by {
                assert(d[a] == e[a] && d[b] == e[b]);
            }
        }
        lemma_live_positions(d);
        let last = e.last();
        let n = e.len() - 1;
        lemma_pos_in_map(e, n);
        assert forall|p: IVec2| #[trigger] live_positions(e).contains(p) <==> is_live(
            states_map(e),
            p,
        ) by {
            let r = live_positions(d);
            if p == last.0 {
                assert(e[n] == last);
                if !(last.1.state is Dead) {
                    assert(live_positions(e)[r.len() as int] == p);
                } else {
                    if r.contains(p) {
                        let k = choose|k: int| 0 <= k < d.len() && (#[trigger] d[k]).0 == p;
                        lemma_pos_in_map(d, k);
                        assert(d[k] == e[k]);
                        assert(false);
                    }
                }
            } else {
                assert(live_positions(e).contains(p) <==> r.contains(p)) by {
                    if live_positions(e).contains(p) && !(last.1.state is Dead) {
                        let k = choose|k: int|
                            0 <= k < live_positions(e).len() && live_positions(e)[k] == p;
                        assert(k < r.len());
                        assert(r[k] == p);
                    }
                    if r.contains(p) && !(last.1.state is Dead) {
                        let k = choose|k: int| 0 <= k < r.len() && r[k] == p;
                        assert(live_positions(e)[k] == p);
                    }
                }
                if states_map(d).dom().contains(p) {
                    let k = choose|k: int| 0 <= k < d.len() && (#[trigger] d[k]).0 == p;
                    lemma_pos_in_map(d, k);
                    assert(d[k] == e[k]);
                    lemma_pos_in_map(e, k);
                }
                if states_map(e).dom().contains(p) {
                    let k = choose|k: int| 0 <= k < e.len() && (#[trigger] e[k]).0 == p;
                    lemma_pos_in_map(e, k);
                    assert(k != n);
                    assert(d[k] == e[k]);
                    lemma_pos_in_map(d, k);
                }
            }
        }
    }
}

/// Positions of the live cells of a sparse grid, in storage order.
pub fn live_cells(s: &SparseGrid) -> (r: Vec<IVec2>)
    requires
        s.wf(),
    ensures
        r@ == live_positions(s.entries()),
{
    let mut r: Vec<IVec2> = Vec::new();
    let n = s.len();
    for k in 0..n
        invariant
            n == s.entries().len(),
            r@ == live_positions(s.entries().take(k as int)),
    {
        proof {
            assert(s.entries().take(k + 1).drop_last() =~= s.entries().take(k as int));
        }
        let (pos, state) = s.entry(k);
        if !state.is_dead() {
            r.push(pos);
        }
    }
    proof {
        assert(s.entries().take(n as int) =~= s.entries());
    }
    r
}

/// `v` lists `p`.
fn contains_pos(v: &Vec<IVec2>, p: IVec2) -> (r: bool)
    ensures
        r == v@.contains(p),
{
    let n = v.len();
    for k in 0..n
        invariant
            n == v@.len(),
            forall|j: int| 0 <= j < k ==> v@[j] != p,
    {
        if v[k] == p {
            return true;
        }
    }
    false
}

/// Texel after a differential update: it turns live when its cell was born,
/// dead when its cell died, and keeps its value otherwise.
pub open spec fn updated_texel(before: u8, was_live: bool, now_live: bool) -> u8 {
    if now_live && !was_live {
        LIVE_TEXEL
    } else if was_live && !now_live {
        DEAD_TEXEL
    } else {
        before
    }
}

/// The image after a differential sparse upload of a world whose cells have
/// `states`, when the live positions remembered from the last upload are
/// `prev`: each texel inside the texture is updated, the rest are kept.
pub open spec fn sparse_upload_texels(
    before: Seq<u8>,
    prev: Seq<IVec2>,
    states: Map<IVec2, CellState>,
    width: u32,
    height: u32,
) -> Seq<u8> {
    Seq::new(
        before.len(),
        |t: int|
            if addressable(width, height) && t < width * height {
                updated_texel(
                    before[t],
                    prev.contains(texel_pos(t, width)),
                    is_live(states, texel_pos(t, width)),
                )
            } else {
                before[t]
            },
    )
}

/// Membership in a sequence extended by one element.
pub proof fn lemma_push_contains(s: Seq<IVec2>, x: IVec2, y: IVec2)
    ensures
        s.push(x).contains(y) <==> (s.contains(y) || y == x),
{
    if s.contains(y) {
        let k = choose|k: int| 0 <= k < s.len() && s[k] == y;
        assert(s.push(x)[k] == y);
    }
    if y == x {
        assert(s.push(x)[s.len() as int] == y);
    }
    if s.push(x).contains(y) && y != x {
        let k = choose|k: int| 0 <= k < s.push(x).len() && s.push(x)[k] == y;
        assert(s[k] == y);
    }
}

/// Whether texel `pos` can be written to an image of `len` bytes (see
/// [`texel_fits`]).
fn write_fits(pos: IVec2, width: u32, height: u32, len: usize) -> (r: bool)
    ensures
        r == texel_fits(pos, width, height, len as int),
{
    if width > 0x7fff_ffff || height > 0x7fff_ffff || pos.x < 0 || pos.y < 0 {
        return true;
    }
    if pos.x as u32 >= width || pos.y as u32 >= height {
        return true;
    }
    let (x, y, w) = (pos.x as u64, pos.y as u64, width as u64);
    assert(y * w <= 0x7fff_ffff * 0x7fff_ffff) by (nonlinear_arith)
        requires
            y <= 0x7fff_ffff,
            w <= 0x7fff_ffff,
    ;
    let idx: u64 = y * w + x;
    idx < len as u64 && idx < 0x1_0000_0000
}

/// Live positions remembered from the previous sparse upload.
pub struct PrevLive(pub Vec<IVec2>);

/// Whether [`upload_sparse`] can run on an image of `len` bytes: true for a
/// dense world, and for a sparse world exactly when every texel it would
/// write fits (see [`sparse_writes_fit`]).  Where this is false the upload
/// would index past the image.
pub fn sparse_upload_fits(
    backend: &GridBackend,
    prev: &PrevLive,
    width: u32,
    height: u32,
    len: usize,
) -> (r: bool)
    requires
        backend.wf(),
    ensures
        r == match backend {
            GridBackend::Dense(_) => true,
            GridBackend::Sparse(s) => sparse_writes_fit(
                s.states(),
                prev.0@,
                width,
                height,
                len as int,
            ),
        },
{
    let s = match backend {
        GridBackend::Dense(_) => {
            return true;
        },
        GridBackend::Sparse(s) => s,
    };
    let live = live_cells(s);
    proof {
        lemma_live_positions(s.entries());
    }
    let ghost was = prev.0@;
    let ghost now = live@;
    let np = prev.0.len();
    for k in 0..np
        invariant
            np == was.len(),
            was == prev.0@,
            now == live@,
            *backend == GridBackend::Sparse(*s),
            forall|p: IVec2| #[trigger] now.contains(p) <==> is_live(s.states(), p),
            forall|j: int|
                0 <= j < k && !now.contains(#[trigger] was[j]) ==> texel_fits(
                    was[j],
                    width,
                    height,
                    len as int,
                ),
    {
        let pos = prev.0[k];
        if !contains_pos(&live, pos) && !write_fits(pos, width, height, len) {
            proof {
                assert(was[k as int] == pos);
                assert(was.contains(pos));
                assert(!is_live(s.states(), pos));
                assert(!texel_fits(pos, width, height, len as int));
            }
            return false;
        }
    }
    let nl = live.len();
    for k in 0..nl
        invariant
            nl == now.len(),
            was == prev.0@,
            now == live@,
            *backend == GridBackend::Sparse(*s),
            forall|p: IVec2| #[trigger] now.contains(p) <==> is_live(s.states(), p),
            forall|j: int|
                0 <= j < k && !was.contains(#[trigger] now[j]) ==> texel_fits(
                    now[j],
                    width,
                    height,
                    len as int,
                ),
    {
        let pos = live[k];
        if !contains_pos(&prev.0, pos) && !write_fits(pos, width, height, len) {
            proof {
                assert(now[k as int] == pos);
                assert(now.contains(pos));
                assert(is_live(s.states(), pos));
                assert(!texel_fits(pos, width, height, len as int));
            }
            return false;
        }
    }
    proof {
        assert forall|p: IVec2| was.contains(p) != is_live(s.states(), p) implies #[trigger] texel_fits(
            p,
            width,
            height,
            len as int,
        ) by {
            if was.contains(p) {
                let j = choose|j: int| 0 <= j < was.len() && was[j] == p;
                assert(!now.contains(was[j]));
            } else {
                assert(now.contains(p));
                let j = choose|j: int| 0 <= j < now.len() && now[j] == p;
                assert(!was.contains(now[j]));
            }
        }
    }
    true
}

/// Sparse-grid upload (differential): texels of cells that died since the
/// last upload are cleared, texels of cells that were born are set, and the
/// current live set is remembered.  Positions outside the texture are
/// skipped.  Dense worlds are left to [`upload_dense`].
pub fn upload_sparse(
    backend: &GridBackend,
    width: u32,
    height: u32,
    buf: &mut Vec<u8>,
    prev: &mut PrevLive,
)
    requires
        backend.wf(),
        match backend {
            GridBackend::Dense(_) => true,
            GridBackend::Sparse(s) => sparse_writes_fit(
                s.states(),
                old(prev).0@,
                width,
                height,
                old(buf)@.len() as int,
            ),
        },
    ensures
        final(buf)@.len() == old(buf)@.len(),
        match backend {
            GridBackend::Dense(_) => final(buf)@ == old(buf)@ && final(prev).0@ == old(prev).0@,
            GridBackend::Sparse(s) => {
                &&& final(prev).0@ == live_positions(s.entries())
                &&& final(buf)@ == sparse_upload_texels(old(buf)@, old(prev).0@, s.states(), width, height)
                &&& forall|t: int|
                    0 <= t < final(buf)@.len() ==> #[trigger] final(buf)@[t] == (if addressable(
                        width,
                        height,
                    ) && t < width * height {
                        updated_texel(
                            old(buf)@[t],
                            old(prev).0@.contains(texel_pos(t, width)),
                            is_live(s.states(), texel_pos(t, width)),
                        )
                    } else {
                        old(buf)@[t]
                    })
            },
        },
{
    let sparse = match backend {
        GridBackend::Dense(_) => {
            return;
        },
        GridBackend::Sparse(sparse) => sparse,
    };
    {
        let current_live = live_cells(sparse);
        proof {
            lemma_live_positions(sparse.entries());
        }
        let ghost buf0 = buf@;
        let ghost was = prev.0@;
        let ghost now = current_live@;
        // clear pixels that died
        let np = prev.0.len();
        for k in 0..np
            invariant
                np == prev.0@.len(),
                was == prev.0@,
                now == current_live@,
                buf@.len() == buf0.len(),
                sparse_writes_fit(sparse.states(), was, width, height, buf0.len() as int),
                forall|p: IVec2| #[trigger] now.contains(p) <==> is_live(sparse.states(), p),
                forall|t: int|
                    0 <= t < buf@.len() ==> #[trigger] buf@[t] == (if addressable(width, height)
                        && t < width * height && was.take(k as int).contains(texel_pos(t, width))
                        && !now.contains(
                        texel_pos(t, width),
                    ) {
                        DEAD_TEXEL
                    } else {
                        buf0[t]
                    }),
        {
            let pos = prev.0[k];
            let ghost b = buf@;
            let ghost mut written: Option<int> = None;
            if !contains_pos(&current_live, pos) {
                proof {
                    assert(was[k as int] == pos);
                    assert(was.contains(pos));
                    assert(texel_fits(pos, width, height, buf0.len() as int));
                }
                if let Some(idx) = texel_of(pos, width, height) {
                    proof {
                        lemma_texel_roundtrip(pos, width, height);
                    }
                    buf.set(idx, DEAD_TEXEL);
                    proof {
                        written = Some(idx as int);
                    }
                }
            }
            assert(written matches Some(i) ==> buf@ == b.update(i, DEAD_TEXEL) && i
                == texel_index(pos, width) && in_texture(pos, width, height) && !now.contains(pos));
            assert(written is None ==> buf@ == b && (now.contains(pos) || !in_texture(
                pos,
                width,
                height,
            )));
            assert forall|t: int| 0 <= t < buf@.len() implies #[trigger] buf@[t] == (if addressable(
                width,
                height,
            ) && t < width * height && was.take(k + 1).contains(texel_pos(t, width)) && !now.contains(
                texel_pos(t, width),
            ) {
                DEAD_TEXEL
            } else {
                buf0[t]
            }) by {
                assert(was.take(k + 1) =~= was.take(k as int).push(pos));
                lemma_push_contains(was.take(k as int), pos, texel_pos(t, width));
                if addressable(width, height) && t < width * height {
                    lemma_texel_index_onto(t, width, height);
                }
                if in_texture(pos, width, height) {
                    lemma_texel_roundtrip(pos, width, height);
                }
            }
        }
        proof {
            assert(was.take(np as int) =~= was);
            assert(now.take(0) =~= Seq::<IVec2>::empty());
        }
        // set pixels that were born
        let nc = current_live.len();
        for k in 0..nc
            invariant
                nc == current_live@.len(),
                was == prev.0@,
                now == current_live@,
                buf@.len() == buf0.len(),
                sparse_writes_fit(sparse.states(), was, width, height, buf0.len() as int),
                forall|p: IVec2| #[trigger] now.contains(p) <==> is_live(sparse.states(), p),
                forall|t: int|
                    0 <= t < buf@.len() ==> #[trigger] buf@[t] == (if addressable(width, height)
                        && t < width * height && now.take(k as int).contains(texel_pos(t, width))
                        && !was.contains(texel_pos(t, width)) {
                        LIVE_TEXEL
                    } else if addressable(width, height) && t < width * height && was.contains(
                        texel_pos(t, width),
                    ) && !now.contains(texel_pos(t, width)) {
                        DEAD_TEXEL
                    } else {
                        buf0[t]
                    }),
        {
            let pos = current_live[k];
            let ghost b = buf@;
            let ghost mut written: Option<int> = None;
            if !contains_pos(&prev.0, pos) {
                proof {
                    assert(now[k as int] == pos);
                    assert(now.contains(pos));
                    assert(texel_fits(pos, width, height, buf0.len() as int));
                }
                if let Some(idx) = texel_of(pos, width, height) {
                    proof {
                        lemma_texel_roundtrip(pos, width, height);
                    }
                    buf.set(idx, LIVE_TEXEL);
                    proof {
                        written = Some(idx as int);
                    }
                }
            }
            assert(written matches Some(i) ==> buf@ == b.update(i, LIVE_TEXEL) && i
                == texel_index(pos, width) && in_texture(pos, width, height) && !was.contains(pos));
            assert(written is None ==> buf@ == b && (was.contains(pos) || !in_texture(
                pos,
                width,
                height,
            )));
            assert forall|t: int| 0 <= t < buf@.len() implies #[trigger] buf@[t] == (if addressable(
                width,
                height,
            ) && t < width * height && now.take(k + 1).contains(texel_pos(t, width)) && !was.contains(
                texel_pos(t, width),
            ) {
                LIVE_TEXEL
            } else if addressable(width, height) && t < width * height && was.contains(
                texel_pos(t, width),
            ) && !now.contains(texel_pos(t, width)) {
                DEAD_TEXEL
            } else {
                buf0[t]
            }) by {
                assert(now.take(k + 1) =~= now.take(k as int).push(pos));
                lemma_push_contains(now.take(k as int), pos, texel_pos(t, width));
                assert(now.contains(pos)) by {
                    assert(now[k as int] == pos);
                }
                if addressable(width, height) && t < width * height {
                    lemma_texel_index_onto(t, width, height);
                }
                if in_texture(pos, width, height) {
                    lemma_texel_roundtrip(pos, width, height);
                }
            }
        }
        proof {
            assert(now.take(nc as int) =~= now);
            assert(buf@ =~= sparse_upload_texels(buf0, was, sparse.states(), width, height));
        }
        prev.0 = current_live;
    }
}


/// Draws one automaton into its texture from scratch (the per-automaton
/// step of uploading every automaton): the image is cleared, then every
/// live dense cell, or every live sparse cell inside the texture, is set.
pub fn render_automaton(backend: &GridBackend, width: u32, height: u32, buf: &mut Vec<u8>)
    requires
        backend.wf(),
        match backend {
            GridBackend::Dense(g) => forall|i: int|
                old(buf)@.len() <= i < g.cells@.len() ==> (#[trigger] g.cells@[i]).state is Dead,
            GridBackend::Sparse(s) => render_writes_fit(
                s.states(),
                width,
                height,
                old(buf)@.len() as int,
            ),
        },
    ensures
        final(buf)@.len() == old(buf)@.len(),
        match backend {
            GridBackend::Dense(g) => forall|t: int|
                0 <= t < final(buf)@.len() ==> #[trigger] final(buf)@[t] == (if t
                    < g.cells@.len() {
                    texel_value(g.cells@[t].state)
                } else {
                    DEAD_TEXEL
                }),
            GridBackend::Sparse(s) => forall|t: int|
                0 <= t < final(buf)@.len() ==> #[trigger] final(buf)@[t] == (if addressable(
                    width,
                    height,
                ) && t < width * height {
                    shown(is_live(s.states(), texel_pos(t, width)))
                } else {
                    DEAD_TEXEL
                }),
        },
{
    let n = buf.len();
    for i in 0..n
        invariant
            n == buf@.len(),
            forall|t: int| 0 <= t < i ==> #[trigger] buf@[t] == DEAD_TEXEL,
    {
        buf.set(i, DEAD_TEXEL);
    }
    match backend {
        GridBackend::Dense(g) => {
            let nc = g.cells.len();
            for i in 0..nc
                invariant
                    n == buf@.len(),
                    nc == g.cells@.len(),
                    forall|j: int| n <= j < nc ==> (#[trigger] g.cells@[j]).state is Dead,
                    forall|t: int|
                        0 <= t < n ==> #[trigger] buf@[t] == (if t < i && t < nc {
                            texel_value(g.cells@[t].state)
                        } else {
                            DEAD_TEXEL
                        }),
            {
                if !g.cells[i].state.is_dead() {
                    buf.set(i, LIVE_TEXEL);
                }
            }
        },
        GridBackend::Sparse(s) => {
            let ghost e = s.entries();
            proof {
                lemma_live_positions(e);
            }
            let ne = s.len();
            for k in 0..ne
                invariant
                    n == buf@.len(),
                    ne == e.len(),
                    e == s.entries(),
                    s.wf(),
                    render_writes_fit(s.states(), width, height, n as int),
                    forall|t: int|
                        0 <= t < n ==> #[trigger] buf@[t] == (if addressable(width, height) && t
                            < width * height && live_positions(e.take(k as int)).contains(
                            texel_pos(t, width),
                        ) {
                            LIVE_TEXEL
                        } else {
                            DEAD_TEXEL
                        }),
            {
                let (pos, state) = s.entry(k);
                let ghost b = buf@;
                let ghost mut written: Option<int> = None;
                if !state.is_dead() {
                    proof {
                        s.lemma_entries_in_map();
                        assert(s.entries()[k as int].0 == pos);
                        assert(is_live(s.states(), pos));
                        assert(texel_fits(pos, width, height, n as int));
                    }
                    if let Some(idx) = texel_of(pos, width, height) {
                        proof {
                            lemma_texel_roundtrip(pos, width, height);
                        }
                        buf.set(idx, LIVE_TEXEL);
                        proof {
                            written = Some(idx as int);
                        }
                    }
                }
                assert(written matches Some(i) ==> buf@ == b.update(i, LIVE_TEXEL) && i
                    == texel_index(pos, width) && in_texture(pos, width, height));
                assert(written is None ==> buf@ == b && (state is Dead || !in_texture(
                    pos,
                    width,
                    height,
                )));
                proof {
                    let pre = e.take(k as int);
                    let post = e.take(k + 1);
                    assert(post.drop_last() =~= pre);
                    assert(post.last() == e[k as int]);
                    if !(state is Dead) {
                        assert(live_positions(post) == live_positions(pre).push(pos));
                    } else {
                        assert(live_positions(post) == live_positions(pre));
                    }
                    assert forall|t: int| 0 <= t < n implies #[trigger] buf@[t] == (if addressable(
                        width,
                        height,
                    ) && t < width * height && live_positions(post).contains(texel_pos(t, width)) {
                        LIVE_TEXEL
                    } else {
                        DEAD_TEXEL
                    }) by {
                        lemma_push_contains(live_positions(pre), pos, texel_pos(t, width));
                        if addressable(width, height) && t < width * height {
                            lemma_texel_index_onto(t, width, height);
                        }
                        if in_texture(pos, width, height) {
                            lemma_texel_roundtrip(pos, width, height);
                        }
                    }
                }
            }
            proof {
                assert(e.take(ne as int) =~= e);
            }
        },
    }
}

/// The differential sparse upload draws the same image as a full redraw:
/// if the texture showed exactly the previously live cells, then after the
/// per-texel update of [`upload_sparse`] it shows exactly the cells live
/// now — the result [`render_automaton`] draws from scratch.
pub proof fn lemma_differential_upload_is_full_render(
    before: Seq<u8>,
    after: Seq<u8>,
    was: Seq<IVec2>,
    states: Map<IVec2, CellState>,
    width: u32,
    height: u32,
)
    requires
        addressable(width, height),
        after.len() == before.len(),
        forall|t: int|
            0 <= t < before.len() ==> #[trigger] before[t] == shown(
                was.contains(texel_pos(t, width)),
            ),
        forall|t: int|
            0 <= t < after.len() ==> #[trigger] after[t] == updated_texel(
                before[t],
                was.contains(texel_pos(t, width)),
                is_live(states, texel_pos(t, width)),
            ),
    ensures
        forall|t: int|
            0 <= t < after.len() ==> #[trigger] after[t] == shown(
                is_live(states, texel_pos(t, width)),
            ),
{
    assert forall|t: int| 0 <= t < after.len() implies #[trigger] after[t] == shown(
        is_live(states, texel_pos(t, width)),
    ) by {
        assert(before[t] == shown(was.contains(texel_pos(t, width))));
    }
}

/// The dense upload and the full redraw agree whenever the image holds one
/// texel per cell.
pub proof fn lemma_dense_upload_is_full_render(g: DenseGrid, len: int)
    requires
        len == g.cells@.len(),
    ensures
        forall|t: int|
            0 <= t < len ==> #[trigger] dense_texels(g)[t]
                == (if t < g.cells@.len() {
                texel_value(g.cells@[t].state)
            } else {
                DEAD_TEXEL
            }),
{
}

/// A repeated sparse upload writes nothing.  Every sparse upload remembers
/// the world's live set (see [`upload_sparse`]); uploading the unchanged
/// world again with that set leaves every texel as it is and remembers the
/// same set.
pub proof fn lemma_sparse_upload_idempotent(
    s: SparseGrid,
    buf: Seq<u8>,
    prev: Seq<IVec2>,
    width: u32,
    height: u32,
)
    requires
        s.wf(),
    ensures
        sparse_upload_texels(buf, live_positions(s.entries()), s.states(), width, height) == buf,
        ({
            let once = sparse_upload_texels(buf, prev, s.states(), width, height);
            sparse_upload_texels(once, live_positions(s.entries()), s.states(), width, height)
                == once
        }),
{
    lemma_live_positions(s.entries());
    let once = sparse_upload_texels(buf, prev, s.states(), width, height);
    assert(sparse_upload_texels(buf, live_positions(s.entries()), s.states(), width, height) =~= buf);
    assert(sparse_upload_texels(once, live_positions(s.entries()), s.states(), width, height)
        =~= once);
}

/// Every live cell is drawn at full intensity whatever its energy, and only
/// dead cells are drawn black: a dense upload (and so a dense redraw) writes
/// 255 exactly for the live cells and 0 exactly for the dead ones.
pub proof fn lemma_live_cells_drawn_full(g: DenseGrid)
    ensures
        texel_value(CellState::Dead) == 0u8,
        forall|n: u8| #[trigger] texel_value(CellState::Alive(n)) == 255u8,
        dense_texels(g).len() == g.cells@.len(),
        forall|k: int|
            0 <= k < g.cells@.len() ==> (#[trigger] dense_texels(g)[k] == 255u8 <==> !(
            g.cells@[k].state is Dead)) && (dense_texels(g)[k] == 0u8 <==> g.cells@[k].state is Dead),
{
}

} // verus!
