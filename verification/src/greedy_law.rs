use vstd::prelude::*;

use crate::bits::{
    bit_set, lemma_run_clear, lemma_run_mask, lemma_run_present, lemma_shr_bit,
    lemma_trailing_ones_bits, lemma_trailing_zeros_bits,
};
use crate::block::BlockType;
use crate::directions::Dir;
use crate::mesh_laws::{face_fits_rows, lemma_extend_fits, lemma_high_bits_clear, word_fits};
use crate::quads::{
    culled_from, greedy_all, greedy_dir, greedy_extend, greedy_grid, greedy_row, greedy_rows,
    grids_from, low_mask, GreedyFace,
};
use crate::culled_law::{is_culled_face, lemma_face_bit_visible};
use crate::directions::{dir_index, dir_of_index};
use crate::mesh_laws::{all_grids_valid, dir_grids_valid, grid_fits, lemma_matching_grids_valid};
use crate::meshing::{
    block_slot, depths_match, face_grid_bit, face_voxel, grids_match, slot_block, AxisDepths,
    BlockGrids, ChunkRefs, DepthPlane, FaceGrid,
};
use vstd::std_specs::bits::{u32_trailing_ones, u32_trailing_zeros};

verus! {

/// Whether rectangle `q` covers row `row`, column `col` of its grid.
pub open spec fn covers(q: GreedyFace, row: int, col: int) -> bool {
    q.x <= row <= q.x + q.width && q.y <= col <= q.y + q.height
}

/// Whether some rectangle of `qs` covers row `row`, column `col`.
pub open spec fn covered(qs: Seq<GreedyFace>, row: int, col: int) -> bool {
    exists|i: int| 0 <= i < qs.len() && #[trigger] covers(qs[i], row, col)
}

/// No two rectangles of `qs` share a cell.
pub open spec fn disjoint(qs: Seq<GreedyFace>) -> bool {
    forall|i: int, j: int, row: int, col: int|
        0 <= i < qs.len() && 0 <= j < qs.len() && i != j && #[trigger] covers(qs[i], row, col)
            ==> !#[trigger] covers(qs[j], row, col)
}

/// Every rectangle of `qs` lies inside a grid of thirty rows and thirty columns.
pub open spec fn in_bounds(qs: Seq<GreedyFace>) -> bool {
    forall|i: int| 0 <= i < qs.len() ==> #[trigger] qs[i].x + qs[i].width < 30 && qs[i].y + qs[i].height < 30
}

/// Every rectangle of `qs` lies at depth `depth`, faces `dir` and is of block type `bt`.
pub open spec fn tagged(qs: Seq<GreedyFace>, depth: u8, dir: Dir, bt: BlockType) -> bool {
    forall|i: int| 0 <= i < qs.len() ==> (#[trigger] qs[i]).z == depth && qs[i].dir == dir && qs[i].block_type == bt
}

/// A cell that the merging is done with: set in the grid exactly when a rectangle covers it.
pub open spec fn cell_done(g: Seq<u32>, qs: Seq<GreedyFace>, row: int, col: int) -> bool {
    bit_set(g[row], col as u32) == covered(qs, row, col)
}

/// A cell still to be merged: set in the grid exactly when it is left in the working grid
/// or covered, never both.
pub open spec fn cell_pending(g: Seq<u32>, qs: Seq<GreedyFace>, f: Seq<u32>, row: int, col: int) -> bool {
    &&& bit_set(g[row], col as u32) == (bit_set(f[row], col as u32) || covered(qs, row, col))
    &&& !(bit_set(f[row], col as u32) && covered(qs, row, col))
}

/// The state of a cell when the rows below `r`, and the columns below `yb` of row `r`, are
/// done.
pub open spec fn cell_ok(g: Seq<u32>, qs: Seq<GreedyFace>, f: Seq<u32>, r: int, yb: int, row: int, col: int) -> bool {
    if row < r || (row == r && col < yb) {
        cell_done(g, qs, row, col)
    } else {
        cell_pending(g, qs, f, row, col)
    }
}

/// The merging invariant: rectangles so far are disjoint and inside the grid, and every cell
/// is in the state that `cell_ok` names.
pub open spec fn merge_state(g: Seq<u32>, qs: Seq<GreedyFace>, f: Seq<u32>, r: int, yb: int) -> bool {
    &&& face_fits_rows(f)
    &&& disjoint(qs)
    &&& in_bounds(qs)
    &&& forall|row: int, col: int| 0 <= row < 30 && 0 <= col < 30 ==> #[trigger] cell_ok(g, qs, f, r, yb, row, col)
}

proof fn lemma_covered_push(qs: Seq<GreedyFace>, q: GreedyFace, row: int, col: int)
    ensures
        covered(qs.push(q), row, col) == (covered(qs, row, col) || covers(q, row, col)),
{
    let s = qs.push(q);
    if covered(qs, row, col) {
        let i = choose|i: int| 0 <= i < qs.len() && #[trigger] covers(qs[i], row, col);
        assert(s[i] == qs[i]);
        assert(covers(s[i], row, col));
    }
    if covers(q, row, col) {
        assert(s[qs.len() as int] == q);
        assert(covers(s[qs.len() as int], row, col));
    }
    if covered(s, row, col) {
        let i = choose|i: int| 0 <= i < s.len() && #[trigger] covers(s[i], row, col);
        if i < qs.len() {
            assert(s[i] == qs[i]);
            assert(covers(qs[i], row, col));
        }
    }
}

/// What `greedy_extend` does: the rows it grows over held the whole run and lose it; no other
/// row changes.
proof fn lemma_extend_rows(f: Seq<u32>, r: int, y1: u32, h: u32, w0: int)
    requires
        face_fits_rows(f),
        0 <= r < 30,
        1 <= w0,
        r + w0 <= 30,
        h < 32,
        y1 + h <= 32,
    ensures
        ({
            let hm = ((1u32 << h) - 1) as u32;
            let (w, f2) = greedy_extend(f, r, y1, hm, hm << y1, w0);
            &&& w0 <= w
            &&& r + w <= 30
            &&& f2.len() == 30
            &&& forall|row: int| r + w0 <= row < r + w ==> #[trigger] f2[row] == f[row] & !(hm << y1)
            &&& forall|row: int, col: u32| r + w0 <= row < r + w && y1 <= col < y1 + h ==> #[trigger] bit_set(f[row], col)
            &&& forall|row: int| 0 <= row < 30 && !(r + w0 <= row < r + w) ==> #[trigger] f2[row] == f[row]
        }),
    decreases 30 - (r + w0),
{
    assert((1u32 << h) >= 1) by (bit_vector)
        requires
            h < 32,
    ;
    let hm = ((1u32 << h) - 1) as u32;
    let mask = hm << y1;
    if r + w0 >= 30 {
    } else if ((f[r + w0] >> y1) & hm) != hm {
    } else {
        let row0 = r + w0;
        let f1 = f.update(row0, f[row0] & !mask);
        assert(word_fits(f[row0]));
        assert(word_fits(f[row0] & !mask)) by {
            let a = f[row0];
            assert((a & !mask) < 0x4000_0000u32) by (bit_vector)
                requires
                    a < 0x4000_0000u32,
            ;
        }
        assert(face_fits_rows(f1));
        lemma_extend_rows(f1, r, y1, h, w0 + 1);
        let (w, f2) = greedy_extend(f1, r, y1, hm, mask, w0 + 1);
        assert(greedy_extend(f, r, y1, hm, mask, w0) == (w, f2));
        assert forall|col: u32| y1 <= col < y1 + h implies #[trigger] bit_set(f[row0], col) by {
            lemma_run_present(f[row0], y1, h, col);
        }
        assert forall|row: int| r + w0 <= row < r + w implies #[trigger] f2[row] == f[row] & !(hm << y1) by {
            if row == row0 {
                assert(f2[row0] == f1[row0]);
            } else {
                assert(f1[row] == f[row]);
            }
        }
        assert forall|row: int, col: u32| r + w0 <= row < r + w && y1 <= col < y1 + h implies #[trigger] bit_set(f[row], col) by {
            if row != row0 {
                assert(f1[row] == f[row]);
                assert(bit_set(f1[row], col));
            }
        }
        assert forall|row: int| 0 <= row < 30 && !(r + w0 <= row < r + w) implies #[trigger] f2[row] == f[row] by {
            assert(f2[row] == f1[row]);
        }
    }
}

proof fn lemma_greedy_row_merge(
    g: Seq<u32>,
    qs: Seq<GreedyFace>,
    f: Seq<u32>,
    r: int,
    line: u32,
    y: int,
    depth: u8,
    dir: Dir,
    bt: BlockType,
)
    requires
        g.len() == 30,
        merge_state(g, qs, f, r, y),
        tagged(qs, depth, dir, bt),
        0 <= r < 30,
        line == f[r],
        0 <= y,
    ensures
        merge_state(
            g,
            qs + greedy_row(f, r, line, y, depth, dir, bt).0,
            greedy_row(f, r, line, y, depth, dir, bt).1,
            r + 1,
            0,
        ),
        tagged(qs + greedy_row(f, r, line, y, depth, dir, bt).0, depth, dir, bt),
    decreases 64 - y,
{
    let res = greedy_row(f, r, line, y, depth, dir, bt);
    if y >= 30 {
        assert(res.0 == Seq::<GreedyFace>::empty());
        assert(qs + res.0 == qs);
        assert forall|row: int, col: int| 0 <= row < 30 && 0 <= col < 30 implies #[trigger] cell_ok(g, qs, f, r + 1, 0, row, col) by {
            assert(cell_ok(g, qs, f, r, y, row, col));
        }
    } else {
        let sh = f[r] >> (y as u32);
        let t = u32_trailing_zeros(sh);
        let y1 = y + t;
        lemma_trailing_zeros_bits(sh);
        assert forall|col: int| y <= col < 30 && col < y1 implies !#[trigger] bit_set(line, col as u32) by {
            lemma_shr_bit(line, y as u32, (col - y) as u32);
            assert(!bit_set(sh, (col - y) as u32));
        }
        if y1 > 30 {
            assert(res.0 == Seq::<GreedyFace>::empty());
            assert(qs + res.0 == qs);
            assert forall|row: int, col: int| 0 <= row < 30 && 0 <= col < 30 implies #[trigger] cell_ok(g, qs, f, r + 1, 0, row, col) by {
                assert(cell_ok(g, qs, f, r, y, row, col));
            }
        } else {
            lemma_high_bits_clear(line);
            assert(t < 32);
            lemma_shr_bit(line, y as u32, t);
            assert(bit_set(line, y1 as u32));
            assert(y1 < 30);
            let run = line >> (y1 as u32);
            let h = u32_trailing_ones(run);
            lemma_trailing_ones_bits(run);
            lemma_shr_bit(line, y1 as u32, 0);
            assert(h >= 1);
            if h + y1 > 30 {
                lemma_shr_bit(line, y1 as u32, (30 - y1) as u32);
                assert(bit_set(run, (30 - y1) as u32));
            }
            assert(y1 + h <= 30);
            assert forall|col: int| y1 <= col < y1 + h implies #[trigger] bit_set(line, col as u32) by {
                lemma_shr_bit(line, y1 as u32, (col - y1) as u32);
                assert(bit_set(run, (col - y1) as u32));
            }
            let hm = low_mask(h);
            assert(hm == ((1u32 << h) - 1) as u32);
            let mask = hm << (y1 as u32);
            lemma_extend_rows(f, r, y1 as u32, h, 1);
            lemma_extend_fits(f, r, y1 as u32, hm, mask, 1);
            let (w, f2) = greedy_extend(f, r, y1 as u32, hm, mask, 1);
            let q0 = GreedyFace {
                x: r as u8,
                y: y1 as u8,
                z: depth,
                dir,
                width: (w - 1) as u8,
                height: (h - 1) as u8,
                block_type: bt,
            };
            assert forall|row: int, col: int| #[trigger] covers(q0, row, col) == (r <= row < r + w && y1 <= col < y1 + h) by {}
            let qs1 = qs.push(q0);
            // every cell of the new rectangle was still pending, set in the working grid
            assert forall|row: int, col: int| #[trigger] covers(q0, row, col) implies bit_set(f[row], col as u32) && !covered(qs, row, col) by {
                if row == r {
                    assert(bit_set(line, col as u32));
                } else {
                    assert(bit_set(f[row], col as u32));
                }
                assert(cell_ok(g, qs, f, r, y, row, col));
            }
            assert forall|row: int, col: int| 0 <= row < 30 && 0 <= col < 30 implies #[trigger] cell_ok(g, qs1, f2, r, y1 + h, row, col) by {
                lemma_covered_push(qs, q0, row, col);
                assert(cell_ok(g, qs, f, r, y, row, col));
                if r < row < r + w {
                    assert(f2[row] == f[row] & !mask);
                    lemma_run_clear(f[row], y1 as u32, h, col as u32);
                } else {
                    assert(f2[row] == f[row]);
                }
            }
            assert(disjoint(qs1)) by {
                assert forall|i: int, j: int, row: int, col: int|
                    0 <= i < qs1.len() && 0 <= j < qs1.len() && i != j && #[trigger] covers(qs1[i], row, col)
                    implies !#[trigger] covers(qs1[j], row, col) by {
                    if i < qs.len() && j < qs.len() {
                        assert(qs1[i] == qs[i] && qs1[j] == qs[j]);
                    } else if i < qs.len() {
                        assert(qs1[i] == qs[i] && qs1[j] == q0);
                        if covers(q0, row, col) {
                            assert(covered(qs, row, col));
                        }
                    } else {
                        assert(qs1[j] == qs[j] && qs1[i] == q0);
                        if covers(qs[j], row, col) {
                            assert(covered(qs, row, col));
                        }
                    }
                }
            }
            assert(in_bounds(qs1)) by {
                assert forall|i: int| 0 <= i < qs1.len() implies #[trigger] qs1[i].x + qs1[i].width < 30 && qs1[i].y + qs1[i].height < 30 by {
                    if i < qs.len() {
                        assert(qs1[i] == qs[i]);
                    }
                }
            }
            assert(f2[r] == f[r]);
            assert(merge_state(g, qs1, f2, r, y1 + h));
            assert(tagged(qs1, depth, dir, bt)) by {
                assert forall|i: int| 0 <= i < qs1.len() implies (#[trigger] qs1[i]).z == depth && qs1[i].dir == dir && qs1[i].block_type == bt by {
                    if i < qs.len() {
                        assert(qs1[i] == qs[i]);
                    }
                }
            }
            lemma_greedy_row_merge(g, qs1, f2, r, line, y1 + h, depth, dir, bt);
            let rest = greedy_row(f2, r, line, y1 + h, depth, dir, bt);
            assert(res.0 == seq![q0] + rest.0);
            assert(qs + res.0 == qs1 + rest.0);
        }
    }
}

proof fn lemma_greedy_rows_merge(
    g: Seq<u32>,
    qs: Seq<GreedyFace>,
    f: Seq<u32>,
    r: int,
    depth: u8,
    dir: Dir,
    bt: BlockType,
)
    requires
        g.len() == 30,
        merge_state(g, qs, f, r, 0),
        tagged(qs, depth, dir, bt),
        0 <= r <= 30,
    ensures
        merge_state(g, qs + greedy_rows(f, r, depth, dir, bt).0, greedy_rows(f, r, depth, dir, bt).1, 30, 0),
        tagged(qs + greedy_rows(f, r, depth, dir, bt).0, depth, dir, bt),
    decreases 30 - r,
{
    if r >= 30 {
        assert(qs + greedy_rows(f, r, depth, dir, bt).0 == qs);
    } else if f[r] == 0 {
        assert forall|row: int, col: int| 0 <= row < 30 && 0 <= col < 30 implies #[trigger] cell_ok(g, qs, f, r + 1, 0, row, col) by {
            assert(cell_ok(g, qs, f, r, 0, row, col));
            crate::bits::lemma_bit_zero(col as u32);
        }
        lemma_greedy_rows_merge(g, qs, f, r + 1, depth, dir, bt);
    } else {
        lemma_greedy_row_merge(g, qs, f, r, f[r], 0, depth, dir, bt);
        let (q, f2) = greedy_row(f, r, f[r], 0, depth, dir, bt);
        lemma_greedy_rows_merge(g, qs + q, f2, r + 1, depth, dir, bt);
        let (rest, f3) = greedy_rows(f2, r + 1, depth, dir, bt);
        assert(qs + (q + rest) == (qs + q) + rest);
    }
}

/// Greedy merging covers exactly the set cells of a grid, each by one rectangle: a cell is
/// set if and only if a rectangle covers it, no two rectangles share a cell, and every
/// rectangle lies inside the grid.
pub proof fn lemma_greedy_face_cover(g: Seq<u32>, depth: u8, dir: Dir, bt: BlockType)
    requires
        face_fits_rows(g),
    ensures
        ({
            let qs = greedy_rows(g, 0, depth, dir, bt).0;
            &&& forall|row: int, col: int| 0 <= row < 30 && 0 <= col < 30 ==> bit_set(g[row], col as u32) == #[trigger] covered(qs, row, col)
            &&& disjoint(qs)
            &&& in_bounds(qs)
            &&& tagged(qs, depth, dir, bt)
        }),
{
    let e = Seq::<GreedyFace>::empty();
    assert forall|row: int, col: int| 0 <= row < 30 && 0 <= col < 30 implies #[trigger] cell_ok(g, e, g, 0, 0, row, col) by {}
    lemma_greedy_rows_merge(g, e, g, 0, depth, dir, bt);
    let qs = greedy_rows(g, 0, depth, dir, bt).0;
    assert(e + qs == qs);
    assert forall|row: int, col: int| 0 <= row < 30 && 0 <= col < 30 implies bit_set(g[row], col as u32) == #[trigger] covered(qs, row, col) by {
        assert(cell_ok(g, e + qs, greedy_rows(g, 0, depth, dir, bt).1, 30, 0, row, col));
    }
}

/// Whether rectangle `q` covers the face of direction `dir` and block type `bt` at depth
/// `z`, row `x`, column `y`.
pub open spec fn rect_covers(q: GreedyFace, dir: Dir, bt: BlockType, z: int, x: int, y: int) -> bool {
    q.dir == dir && q.block_type == bt && q.z == z && covers(q, x, y)
}

/// Whether some rectangle of `qs` covers that face.
pub open spec fn covers_face(qs: Seq<GreedyFace>, dir: Dir, bt: BlockType, z: int, x: int, y: int) -> bool {
    exists|i: int| 0 <= i < qs.len() && #[trigger] rect_covers(qs[i], dir, bt, z, x, y)
}

/// No two rectangles of `qs` of the same direction, block type and depth share a cell.
pub open spec fn faces_disjoint(qs: Seq<GreedyFace>) -> bool {
    forall|i: int, j: int, x: int, y: int|
        0 <= i < qs.len() && 0 <= j < qs.len() && i != j && qs[i].dir == qs[j].dir
            && qs[i].block_type == qs[j].block_type && qs[i].z == qs[j].z && #[trigger] covers(
            qs[i],
            x,
            y,
        ) ==> !#[trigger] covers(qs[j], x, y)
}

proof fn lemma_covers_face_concat(a: Seq<GreedyFace>, b: Seq<GreedyFace>, dir: Dir, bt: BlockType, z: int, x: int, y: int)
    ensures
        covers_face(a + b, dir, bt, z, x, y) == (covers_face(a, dir, bt, z, x, y) || covers_face(b, dir, bt, z, x, y)),
{
    let s = a + b;
    if covers_face(a, dir, bt, z, x, y) {
        let i = choose|i: int| 0 <= i < a.len() && #[trigger] rect_covers(a[i], dir, bt, z, x, y);
        assert(s[i] == a[i]);
        assert(rect_covers(s[i], dir, bt, z, x, y));
    }
    if covers_face(b, dir, bt, z, x, y) {
        let i = choose|i: int| 0 <= i < b.len() && #[trigger] rect_covers(b[i], dir, bt, z, x, y);
        assert(s[a.len() + i] == b[i]);
        assert(rect_covers(s[a.len() + i], dir, bt, z, x, y));
    }
    if covers_face(s, dir, bt, z, x, y) {
        let i = choose|i: int| 0 <= i < s.len() && #[trigger] rect_covers(s[i], dir, bt, z, x, y);
        if i < a.len() {
            assert(s[i] == a[i]);
            assert(rect_covers(a[i], dir, bt, z, x, y));
        } else {
            assert(s[i] == b[i - a.len()]);
            assert(rect_covers(b[i - a.len()], dir, bt, z, x, y));
        }
    }
}

proof fn lemma_disjoint_concat(a: Seq<GreedyFace>, b: Seq<GreedyFace>)
    requires
        faces_disjoint(a),
        faces_disjoint(b),
        forall|i: int, j: int| 0 <= i < a.len() && 0 <= j < b.len() ==> !(#[trigger] a[i].dir == #[trigger] b[j].dir && a[i].block_type == b[j].block_type && a[i].z == b[j].z),
    ensures
        faces_disjoint(a + b),
{
    let s = a + b;
    assert forall|i: int, j: int, x: int, y: int|
        0 <= i < s.len() && 0 <= j < s.len() && i != j && s[i].dir == s[j].dir
            && s[i].block_type == s[j].block_type && s[i].z == s[j].z && #[trigger] covers(s[i], x, y)
        implies !#[trigger] covers(s[j], x, y) by {
        if i < a.len() && j < a.len() {
            assert(s[i] == a[i] && s[j] == a[j]);
        } else if i >= a.len() && j >= a.len() {
            assert(s[i] == b[i - a.len()] && s[j] == b[j - a.len()]);
        } else if i < a.len() {
            assert(s[i] == a[i] && s[j] == b[j - a.len()]);
            assert(!(a[i].dir == b[j - a.len()].dir && a[i].block_type == b[j - a.len()].block_type && a[i].z == b[j - a.len()].z));
        } else {
            assert(s[j] == a[j] && s[i] == b[i - a.len()]);
            assert(!(a[j].dir == b[i - a.len()].dir && a[j].block_type == b[i - a.len()].block_type && a[j].z == b[i - a.len()].z));
        }
    }
}

proof fn lemma_in_bounds_concat(a: Seq<GreedyFace>, b: Seq<GreedyFace>)
    requires
        in_bounds(a),
        in_bounds(b),
    ensures
        in_bounds(a + b),
{
    assert forall|i: int| 0 <= i < (a + b).len() implies #[trigger] (a + b)[i].x + (a + b)[i].width < 30 && (a + b)[i].y + (a + b)[i].height < 30 by {
        if i < a.len() {
            assert((a + b)[i] == a[i]);
        } else {
            assert((a + b)[i] == b[i - a.len()]);
        }
    }
}

proof fn lemma_greedy_grid_cover(g: FaceGrid, dir: Dir, bt: BlockType, n: int)
    requires
        0 <= n <= 30,
        grid_fits(g),
    ensures
        ({
            let q = greedy_grid(g, dir, bt, n);
            &&& forall|i: int| 0 <= i < q.len() ==> (#[trigger] q[i]).dir == dir && q[i].block_type == bt && q[i].z < n
            &&& in_bounds(q)
            &&& faces_disjoint(q)
            &&& forall|z: int, x: int, y: int| 0 <= x < 30 && 0 <= y < 30 ==> #[trigger] covers_face(q, dir, bt, z, x, y) == (0 <= z < n && bit_set(g@[z]@[x], y as u32))
        }),
    decreases n,
{
    let q = greedy_grid(g, dir, bt, n);
    if n == 0 {
        assert forall|z: int, x: int, y: int| 0 <= x < 30 && 0 <= y < 30 implies #[trigger] covers_face(q, dir, bt, z, x, y) == (0 <= z < n && bit_set(g@[z]@[x], y as u32)) by {}
    } else {
        lemma_greedy_grid_cover(g, dir, bt, n - 1);
        let prev = greedy_grid(g, dir, bt, n - 1);
        let depth = (n - 1) as u8;
        let row = g@[n - 1]@;
        assert(face_fits_rows(row)) by {
            assert forall|r: int| 0 <= r < 30 implies word_fits(#[trigger] row[r]) by {
                assert(word_fits(g@[n - 1]@[r]));
            }
        }
        lemma_greedy_face_cover(row, depth, dir, bt);
        let last = greedy_rows(row, 0, depth, dir, bt).0;
        assert(q == prev + last);
        assert forall|i: int| 0 <= i < q.len() implies (#[trigger] q[i]).dir == dir && q[i].block_type == bt && q[i].z < n by {
            if i < prev.len() {
                assert(q[i] == prev[i]);
            } else {
                assert(q[i] == last[i - prev.len()]);
            }
        }
        lemma_in_bounds_concat(prev, last);
        assert forall|i: int, j: int| 0 <= i < prev.len() && 0 <= j < last.len() implies !(#[trigger] prev[i].dir == #[trigger] last[j].dir && prev[i].block_type == last[j].block_type && prev[i].z == last[j].z) by {
            assert(prev[i].z < n - 1);
            assert(last[j].z == depth);
        }
        assert(faces_disjoint(last)) by {
            assert forall|i: int, j: int, x: int, y: int|
                0 <= i < last.len() && 0 <= j < last.len() && i != j && last[i].dir == last[j].dir
                    && last[i].block_type == last[j].block_type && last[i].z == last[j].z && #[trigger] covers(last[i], x, y)
                implies !#[trigger] covers(last[j], x, y) by {
                assert(disjoint(last));
            }
        }
        lemma_disjoint_concat(prev, last);
        assert forall|z: int, x: int, y: int| 0 <= x < 30 && 0 <= y < 30 implies #[trigger] covers_face(q, dir, bt, z, x, y) == (0 <= z < n && bit_set(g@[z]@[x], y as u32)) by {
            lemma_covers_face_concat(prev, last, dir, bt, z, x, y);
            assert(covers_face(prev, dir, bt, z, x, y) == (0 <= z < n - 1 && bit_set(g@[z]@[x], y as u32)));
            if covers_face(last, dir, bt, z, x, y) {
                let i = choose|i: int| 0 <= i < last.len() && #[trigger] rect_covers(last[i], dir, bt, z, x, y);
                assert(covers(last[i], x, y));
                assert(covered(last, x, y));
                assert(z == n - 1);
            }
            if z == n - 1 && bit_set(g@[z]@[x], y as u32) {
                assert(bit_set(row[x], y as u32));
                assert(covered(last, x, y));
                let i = choose|i: int| 0 <= i < last.len() && #[trigger] covers(last[i], x, y);
                assert(rect_covers(last[i], dir, bt, z, x, y));
            }
        }
    }
}

proof fn lemma_greedy_dir_cover(grids: BlockGrids, dir: Dir, n: int)
    requires
        0 <= n <= 5,
        forall|s: int| 0 <= s < 5 ==> grid_fits(#[trigger] grids@[s]),
    ensures
        ({
            let q = greedy_dir(grids, dir, n);
            &&& forall|i: int| 0 <= i < q.len() ==> (#[trigger] q[i]).dir == dir && block_slot(q[i].block_type) < n && q[i].z < 30
            &&& in_bounds(q)
            &&& faces_disjoint(q)
            &&& forall|bt: BlockType, z: int, x: int, y: int| 0 <= x < 30 && 0 <= y < 30 ==> #[trigger] covers_face(q, dir, bt, z, x, y) == (block_slot(bt) < n && 0 <= z < 30 && bit_set(grids@[block_slot(bt)]@[z]@[x], y as u32))
        }),
    decreases n,
{
    let q = greedy_dir(grids, dir, n);
    if n == 0 {
        assert forall|bt: BlockType, z: int, x: int, y: int| 0 <= x < 30 && 0 <= y < 30 implies #[trigger] covers_face(q, dir, bt, z, x, y) == (block_slot(bt) < n && 0 <= z < 30 && bit_set(grids@[block_slot(bt)]@[z]@[x], y as u32)) by {}
    } else {
        lemma_greedy_dir_cover(grids, dir, n - 1);
        let s = n - 1;
        let sb = slot_block(s);
        let prev = greedy_dir(grids, dir, n - 1);
        assert(grid_fits(grids@[s]));
        lemma_greedy_grid_cover(grids@[s], dir, sb, 30);
        let last = greedy_grid(grids@[s], dir, sb, 30);
        assert(q == prev + last);
        assert forall|i: int| 0 <= i < q.len() implies (#[trigger] q[i]).dir == dir && block_slot(q[i].block_type) < n && q[i].z < 30 by {
            if i < prev.len() {
                assert(q[i] == prev[i]);
            } else {
                assert(q[i] == last[i - prev.len()]);
            }
        }
        lemma_in_bounds_concat(prev, last);
        assert forall|i: int, j: int| 0 <= i < prev.len() && 0 <= j < last.len() implies !(#[trigger] prev[i].dir == #[trigger] last[j].dir && prev[i].block_type == last[j].block_type && prev[i].z == last[j].z) by {
            assert(block_slot(prev[i].block_type) < n - 1);
            assert(last[j].block_type == sb);
        }
        lemma_disjoint_concat(prev, last);
        assert forall|bt: BlockType, z: int, x: int, y: int| 0 <= x < 30 && 0 <= y < 30 implies #[trigger] covers_face(q, dir, bt, z, x, y) == (block_slot(bt) < n && 0 <= z < 30 && bit_set(grids@[block_slot(bt)]@[z]@[x], y as u32)) by {
            lemma_covers_face_concat(prev, last, dir, bt, z, x, y);
            assert(covers_face(prev, dir, bt, z, x, y) == (block_slot(bt) < n - 1 && 0 <= z < 30 && bit_set(grids@[block_slot(bt)]@[z]@[x], y as u32)));
            if bt == sb {
                assert(block_slot(bt) == s);
                assert(covers_face(last, dir, sb, z, x, y) == (0 <= z < 30 && bit_set(grids@[s]@[z]@[x], y as u32)));
            } else {
                if covers_face(last, dir, bt, z, x, y) {
                    let i = choose|i: int| 0 <= i < last.len() && #[trigger] rect_covers(last[i], dir, bt, z, x, y);
                    assert(last[i].block_type == sb);
                }
                assert(block_slot(bt) != s);
            }
        }
    }
}

proof fn lemma_greedy_all_cover(t: [BlockGrids; 6], n: int)
    requires
        0 <= n <= 6,
        crate::mesh_laws::all_grids_fit(t),
    ensures
        ({
            let q = greedy_all(t, n);
            &&& forall|i: int| 0 <= i < q.len() ==> dir_index((#[trigger] q[i]).dir) < n
            &&& in_bounds(q)
            &&& faces_disjoint(q)
            &&& forall|d: Dir, bt: BlockType, z: int, x: int, y: int| 0 <= x < 30 && 0 <= y < 30 ==> #[trigger] covers_face(q, d, bt, z, x, y) == (dir_index(d) < n && 0 <= z < 30 && bit_set(t@[dir_index(d) as int]@[block_slot(bt)]@[z]@[x], y as u32))
        }),
    decreases n,
{
    let q = greedy_all(t, n);
    if n == 0 {
        assert forall|d: Dir, bt: BlockType, z: int, x: int, y: int| 0 <= x < 30 && 0 <= y < 30 implies #[trigger] covers_face(q, d, bt, z, x, y) == (dir_index(d) < n && 0 <= z < 30 && bit_set(t@[dir_index(d) as int]@[block_slot(bt)]@[z]@[x], y as u32)) by {}
    } else {
        lemma_greedy_all_cover(t, n - 1);
        let di = n - 1;
        let dir = dir_of_index(di as nat);
        let prev = greedy_all(t, n - 1);
        assert(crate::mesh_laws::dir_grids_fit(t@[di]));
        lemma_greedy_dir_cover(t@[di], dir, 5);
        let last = greedy_dir(t@[di], dir, 5);
        assert(q == prev + last);
        assert(dir_index(dir) == di);
        assert forall|i: int| 0 <= i < q.len() implies dir_index((#[trigger] q[i]).dir) < n by {
            if i < prev.len() {
                assert(q[i] == prev[i]);
            } else {
                assert(q[i] == last[i - prev.len()]);
            }
        }
        lemma_in_bounds_concat(prev, last);
        assert forall|i: int, j: int| 0 <= i < prev.len() && 0 <= j < last.len() implies !(#[trigger] prev[i].dir == #[trigger] last[j].dir && prev[i].block_type == last[j].block_type && prev[i].z == last[j].z) by {
            assert(dir_index(prev[i].dir) < n - 1);
            assert(last[j].dir == dir);
        }
        lemma_disjoint_concat(prev, last);
        assert forall|d: Dir, bt: BlockType, z: int, x: int, y: int| 0 <= x < 30 && 0 <= y < 30 implies #[trigger] covers_face(q, d, bt, z, x, y) == (dir_index(d) < n && 0 <= z < 30 && bit_set(t@[dir_index(d) as int]@[block_slot(bt)]@[z]@[x], y as u32)) by {
            lemma_covers_face_concat(prev, last, d, bt, z, x, y);
            crate::directions::lemma_dir_index_roundtrip(d, di as nat);
            if d == dir {
                assert(covers_face(last, dir, bt, z, x, y) == (block_slot(bt) < 5 && 0 <= z < 30 && bit_set(t@[di]@[block_slot(bt)]@[z]@[x], y as u32)));
            } else {
                if covers_face(last, d, bt, z, x, y) {
                    let i = choose|i: int| 0 <= i < last.len() && #[trigger] rect_covers(last[i], d, bt, z, x, y);
                    assert(last[i].dir == dir);
                }
                assert(dir_index(d) != di);
            }
        }
    }
}

/// Greedy meshing covers exactly the faces that culled meshing emits, each by one
/// rectangle: a single face is visible (as `is_culled_face` says) if and only if a rectangle
/// of its direction, block type and depth covers its row and column, and no two such
/// rectangles share a cell.
pub proof fn lemma_greedy_faces_exact(
    depths: AxisDepths,
    refs: ChunkRefs,
    c: [DepthPlane; 6],
    t: [BlockGrids; 6],
)
    requires
        depths_match(depths, refs),
        culled_from(c, depths),
        grids_from(t, c, refs),
    ensures
        faces_disjoint(greedy_all(t, 6)),
        in_bounds(greedy_all(t, 6)),
        forall|f: GreedyFace|
            f.width == 0 && f.height == 0 ==> #[trigger] is_culled_face(refs, f) == covers_face(
                greedy_all(t, 6),
                f.dir,
                f.block_type,
                f.z as int,
                f.x as int,
                f.y as int,
            ),
{
    lemma_matching_grids_valid(depths, refs, c, t);
    crate::mesh_laws::lemma_valid_grids_fit(t);
    lemma_greedy_all_cover(t, 6);
    let q = greedy_all(t, 6);
    assert forall|f: GreedyFace| f.width == 0 && f.height == 0 implies #[trigger] is_culled_face(refs, f) == covers_face(q, f.dir, f.block_type, f.z as int, f.x as int, f.y as int) by {
        let d = dir_index(f.dir) as int;
        let s = block_slot(f.block_type);
        if f.x < 30 && f.y < 30 {
            if f.z < 30 {
                let x = f.x as int;
                let y = f.z as int;
                let z = f.y as int;
                assert(grids_match(t@[d], c, *refs.chunk, d));
                assert(bit_set(t@[d]@[s]@[y]@[x], z as u32) == face_grid_bit(c, *refs.chunk, d, s, y, x, z));
                lemma_face_bit_visible(depths, refs, c, d, x, y, z);
                crate::culled_law::lemma_slot_roundtrip(f.block_type, s);
                crate::culled_law::lemma_slot_roundtrip(face_voxel(*refs.chunk, d, x, y, z), s);
            }
        } else {
            if covers_face(q, f.dir, f.block_type, f.z as int, f.x as int, f.y as int) {
                let i = choose|i: int| 0 <= i < q.len() && #[trigger] rect_covers(q[i], f.dir, f.block_type, f.z as int, f.x as int, f.y as int);
                assert(q[i].x + q[i].width < 30 && q[i].y + q[i].height < 30);
            }
        }
    }
}

/// The unit face at the first cell of rectangle `q`.
pub open spec fn corner(q: GreedyFace) -> GreedyFace {
    GreedyFace { width: 0, height: 0, ..q }
}

/// Rectangles that share no cell and cover exactly the unit faces of a list without
/// repeats are no more than the faces of that list: each rectangle's first cell is a face of
/// the list, and no two rectangles have the same first cell.
pub proof fn lemma_cover_no_longer(qs: Seq<GreedyFace>, fs: Seq<GreedyFace>)
    requires
        faces_disjoint(qs),
        fs.no_duplicates(),
        forall|f: GreedyFace|
            f.width == 0 && f.height == 0 ==> #[trigger] fs.contains(f) == covers_face(
                qs,
                f.dir,
                f.block_type,
                f.z as int,
                f.x as int,
                f.y as int,
            ),
    ensures
        qs.len() <= fs.len(),
{
    let us = qs.map_values(|q: GreedyFace| corner(q));
    assert forall|i: int| 0 <= i < us.len() implies fs.contains(#[trigger] us[i]) by {
        let u = us[i];
        assert(rect_covers(qs[i], u.dir, u.block_type, u.z as int, u.x as int, u.y as int));
        assert(covers_face(qs, u.dir, u.block_type, u.z as int, u.x as int, u.y as int));
    }
    assert forall|i: int, j: int| 0 <= i < us.len() && 0 <= j < us.len() && i != j implies us[i] != us[j] by {
        if us[i] == us[j] {
            assert(covers(qs[i], qs[i].x as int, qs[i].y as int));
            assert(covers(qs[j], qs[i].x as int, qs[i].y as int));
        }
    }
    assert(us.no_duplicates());
    us.unique_seq_to_set();
    fs.unique_seq_to_set();
    vstd::seq_lib::seq_to_set_is_finite(fs);
    assert(us.to_set().subset_of(fs.to_set()));
    vstd::set_lib::lemma_len_subset(us.to_set(), fs.to_set());
}

/// Greedy meshing covers exactly the faces that culled meshing emits from the same culled
/// columns, with any depth mask (matching the chunk or kept from before): a single face is
/// emitted by culled meshing if and only if a greedy rectangle of its direction, block type
/// and depth covers its row and column, and no two rectangles share a cell.
pub proof fn lemma_greedy_covers_culled(
    depths: AxisDepths,
    refs: ChunkRefs,
    c: [DepthPlane; 6],
    t: [BlockGrids; 6],
)
    requires
        culled_from(c, depths),
        grids_from(t, c, refs),
    ensures
        faces_disjoint(greedy_all(t, 6)),
        in_bounds(greedy_all(t, 6)),
        forall|f: GreedyFace|
            f.width == 0 && f.height == 0 ==> #[trigger] crate::quads::culled_all(t, 6).contains(f) == covers_face(
                greedy_all(t, 6),
                f.dir,
                f.block_type,
                f.z as int,
                f.x as int,
                f.y as int,
            ),
{
    crate::mesh_laws::lemma_all_grids_fit(t, c, refs);
    crate::culled_law::lemma_all_exact(t, 6);
    lemma_greedy_all_cover(t, 6);
    let q = greedy_all(t, 6);
    assert forall|f: GreedyFace| f.width == 0 && f.height == 0 implies #[trigger] crate::quads::culled_all(t, 6).contains(f) == covers_face(q, f.dir, f.block_type, f.z as int, f.x as int, f.y as int) by {
        assert(crate::quads::culled_all(t, 6).contains(f) == crate::culled_law::in_all(t, 6, f));
        crate::culled_law::lemma_slot_roundtrip(f.block_type, 0);
        if !(f.x < 30 && f.y < 30) {
            if covers_face(q, f.dir, f.block_type, f.z as int, f.x as int, f.y as int) {
                let i = choose|i: int| 0 <= i < q.len() && #[trigger] rect_covers(q[i], f.dir, f.block_type, f.z as int, f.x as int, f.y as int);
                assert(q[i].x + q[i].width < 30 && q[i].y + q[i].height < 30);
            }
        }
    }
}

} // verus!
