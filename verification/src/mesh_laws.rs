use vstd::prelude::*;

use crate::bits::{bit_set, lemma_shr_bit, lemma_trailing_ones_bits, lemma_trailing_zeros_bits};
use vstd::std_specs::bits::{u32_trailing_ones, u32_trailing_zeros};
use crate::block::{block_is_solid, BlockType};
use crate::directions::Dir;
use crate::meshing::{
    block_slot, cull_high, cull_low, depth_bit, depths_match, face_grid_bit, face_voxel,
    grids_match, padded_solid, slot_block, voxel_solid, AxisDepths, BlockGrids, ChunkRefs,
    DepthPlane, FaceGrid,
};
use crate::quads::{
    culled_all, culled_bit, culled_dir, culled_from, culled_grid, culled_row, culled_rows,
    greedy_all, greedy_dir, greedy_grid, greedy_row, greedy_rows, greedy_extend, grids_from,
    GreedyFace,
};

verus! {

/// A grid word with no column at 30 or above.
pub open spec fn word_fits(w: u32) -> bool {
    w < 0x4000_0000
}

/// A face that `InstanceData::new` accepts: every coordinate and the width and height are
/// inside the chunk.
pub open spec fn face_fits(f: GreedyFace) -> bool {
    &&& f.x < 30
    &&& f.y < 30
    &&& f.z < 30
    &&& f.width < 30
    &&& f.height < 30
}

/// Every face of `s` fits a chunk, faces direction `dir`, and is of block type `bt`.
pub open spec fn all_fit(s: Seq<GreedyFace>, dir: Dir, bt: BlockType) -> bool {
    forall|i: int| 0 <= i < s.len() ==> face_fits(#[trigger] s[i]) && s[i].dir == dir && s[i].block_type == bt
}

/// Every face of `s` fits a chunk and is of a solid block type.
pub open spec fn all_fit_solid(s: Seq<GreedyFace>) -> bool {
    forall|i: int| 0 <= i < s.len() ==> face_fits(#[trigger] s[i]) && block_is_solid(s[i].block_type)
}

pub proof fn lemma_high_bits_clear(line: u32)
    requires
        word_fits(line),
    ensures
        !bit_set(line, 30),
        !bit_set(line, 31),
{
    assert(((line >> 30u32) & 1 == 1) == false && ((line >> 31u32) & 1 == 1) == false) by (bit_vector)
        requires
            line < 0x4000_0000u32,
    ;
}

/// A word with bits 30 and 31 clear fits.
proof fn lemma_word_fits_bits(w: u32)
    requires
        !bit_set(w, 30),
        !bit_set(w, 31),
    ensures
        word_fits(w),
{
    assert(w < 0x4000_0000u32) by (bit_vector)
        requires
            !((w >> 30u32) & 1 == 1),
            !((w >> 31u32) & 1 == 1),
    ;
}

proof fn lemma_all_fit_append(a: Seq<GreedyFace>, b: Seq<GreedyFace>, dir: Dir, bt: BlockType)
    requires
        all_fit(a, dir, bt),
        all_fit(b, dir, bt),
    ensures
        all_fit(a + b, dir, bt),
{
    assert forall|i: int| 0 <= i < (a + b).len() implies face_fits(#[trigger] (a + b)[i]) && (a + b)[i].dir == dir && (a + b)[i].block_type == bt by {
        if i < a.len() {
            assert((a + b)[i] == a[i]);
        } else {
            assert((a + b)[i] == b[i - a.len()]);
        }
    }
}

proof fn lemma_all_fit_solid_append(a: Seq<GreedyFace>, b: Seq<GreedyFace>)
    requires
        all_fit_solid(a),
        all_fit_solid(b),
    ensures
        all_fit_solid(a + b),
{
    assert forall|i: int| 0 <= i < (a + b).len() implies face_fits(#[trigger] (a + b)[i]) && block_is_solid((a + b)[i].block_type) by {
        if i < a.len() {
            assert((a + b)[i] == a[i]);
        } else {
            assert((a + b)[i] == b[i - a.len()]);
        }
    }
}

proof fn lemma_culled_row_fits(line: u32, row: int, depth: u8, dir: Dir, bt: BlockType, n: int)
    requires
        word_fits(line),
        0 <= row < 30,
        depth < 30,
        n <= 32,
    ensures
        all_fit(culled_row(line, row, depth, dir, bt, n), dir, bt),
    decreases n,
{
    if n > 0 {
        lemma_culled_row_fits(line, row, depth, dir, bt, n - 1);
        lemma_high_bits_clear(line);
        let prev = culled_row(line, row, depth, dir, bt, n - 1);
        if culled_bit(line, n - 1) {
            assert(n - 1 < 30);
            let s = culled_row(line, row, depth, dir, bt, n);
            assert forall|i: int| 0 <= i < s.len() implies face_fits(#[trigger] s[i]) && s[i].dir == dir && s[i].block_type == bt by {
                if i < prev.len() {
                    assert(s[i] == prev[i]);
                }
            }
        }
    }
}

proof fn lemma_culled_rows_fit(face: Seq<u32>, depth: u8, dir: Dir, bt: BlockType, n: int)
    requires
        n <= 30,
        depth < 30,
        forall|r: int| 0 <= r < n ==> word_fits(#[trigger] face[r]),
    ensures
        all_fit(culled_rows(face, depth, dir, bt, n), dir, bt),
    decreases n,
{
    if n > 0 {
        lemma_culled_rows_fit(face, depth, dir, bt, n - 1);
        lemma_culled_row_fits(face[n - 1], n - 1, depth, dir, bt, 32);
        lemma_all_fit_append(culled_rows(face, depth, dir, bt, n - 1), culled_row(face[n - 1], n - 1, depth, dir, bt, 32), dir, bt);
    }
}

/// Every word of a face grid has no column at 30 or above.
pub open spec fn grid_fits(g: FaceGrid) -> bool {
    forall|z: int, x: int| 0 <= z < 30 && 0 <= x < 30 ==> word_fits(#[trigger] g@[z]@[x])
}

/// Every word of a face grid is empty.
pub open spec fn grid_empty(g: FaceGrid) -> bool {
    forall|z: int, x: int| 0 <= z < 30 && 0 <= x < 30 ==> #[trigger] g@[z]@[x] == 0
}

proof fn lemma_culled_grid_fits(g: FaceGrid, dir: Dir, bt: BlockType, n: int)
    requires
        n <= 30,
        grid_fits(g),
    ensures
        all_fit(culled_grid(g, dir, bt, n), dir, bt),
    decreases n,
{
    if n > 0 {
        lemma_culled_grid_fits(g, dir, bt, n - 1);
        assert forall|r: int| 0 <= r < 30 implies word_fits(#[trigger] g@[n - 1]@[r]) by {}
        lemma_culled_rows_fit(g@[n - 1]@, (n - 1) as u8, dir, bt, 30);
        lemma_all_fit_append(culled_grid(g, dir, bt, n - 1), culled_rows(g@[n - 1]@, (n - 1) as u8, dir, bt, 30), dir, bt);
    }
}

proof fn lemma_culled_rows_empty(face: Seq<u32>, depth: u8, dir: Dir, bt: BlockType, n: int)
    requires
        n <= 30,
        forall|r: int| 0 <= r < n ==> #[trigger] face[r] == 0,
    ensures
        culled_rows(face, depth, dir, bt, n).len() == 0,
    decreases n,
{
    if n > 0 {
        lemma_culled_rows_empty(face, depth, dir, bt, n - 1);
        lemma_culled_row_zero(n - 1, depth, dir, bt, 32);
    }
}

proof fn lemma_culled_row_zero(row: int, depth: u8, dir: Dir, bt: BlockType, n: int)
    ensures
        culled_row(0, row, depth, dir, bt, n).len() == 0,
    decreases n,
{
    if n > 0 {
        lemma_culled_row_zero(row, depth, dir, bt, n - 1);
        crate::bits::lemma_bit_zero((n - 1) as u32);
        crate::bits::lemma_bit_zero(30);
    }
}

proof fn lemma_culled_grid_empty(g: FaceGrid, dir: Dir, bt: BlockType, n: int)
    requires
        n <= 30,
        grid_empty(g),
    ensures
        culled_grid(g, dir, bt, n).len() == 0,
    decreases n,
{
    if n > 0 {
        lemma_culled_grid_empty(g, dir, bt, n - 1);
        assert forall|r: int| 0 <= r < 30 implies #[trigger] g@[n - 1]@[r] == 0 by {}
        lemma_culled_rows_empty(g@[n - 1]@, (n - 1) as u8, dir, bt, 30);
    }
}

/// The grids of one direction fit the chunk, and the grids of the non-solid block types
/// (invalid and air) are empty.
pub open spec fn dir_grids_valid(grids: BlockGrids) -> bool {
    &&& forall|s: int| 0 <= s < 5 ==> grid_fits(#[trigger] grids@[s])
    &&& grid_empty(grids@[0])
    &&& grid_empty(grids@[1])
}

proof fn lemma_culled_dir_fits(grids: BlockGrids, dir: Dir, n: int)
    requires
        n <= 5,
        dir_grids_valid(grids),
    ensures
        all_fit_solid(culled_dir(grids, dir, n)),
    decreases n,
{
    if n > 0 {
        lemma_culled_dir_fits(grids, dir, n - 1);
        let s = n - 1;
        let part = culled_grid(grids@[s], dir, slot_block(s), 30);
        if s < 2 {
            lemma_culled_grid_empty(grids@[s], dir, slot_block(s), 30);
        } else {
            lemma_culled_grid_fits(grids@[s], dir, slot_block(s), 30);
        }
        assert(all_fit_solid(part));
        lemma_all_fit_solid_append(culled_dir(grids, dir, n - 1), part);
    }
}

/// Every direction's grids are valid.
pub open spec fn all_grids_valid(t: [BlockGrids; 6]) -> bool {
    forall|d: int| 0 <= d < 6 ==> dir_grids_valid(#[trigger] t@[d])
}

proof fn lemma_culled_all_fits(t: [BlockGrids; 6], n: int)
    requires
        n <= 6,
        all_grids_valid(t),
    ensures
        all_fit_solid(culled_all(t, n)),
    decreases n,
{
    if n > 0 {
        lemma_culled_all_fits(t, n - 1);
        assert(dir_grids_valid(t@[n - 1]));
        lemma_culled_dir_fits(t@[n - 1], crate::directions::dir_of_index((n - 1) as nat), 5);
        lemma_all_fit_solid_append(culled_all(t, n - 1), culled_dir(t@[n - 1], crate::directions::dir_of_index((n - 1) as nat), 5));
    }
}

/// The face grids of a chunk whose depth mask matches it fit the chunk and hold faces of
/// solid block types only.
pub proof fn lemma_matching_grids_valid(
    depths: AxisDepths,
    refs: ChunkRefs,
    c: [DepthPlane; 6],
    t: [BlockGrids; 6],
)
    requires
        depths_match(depths, refs),
        culled_from(c, depths),
        grids_from(t, c, refs),
    ensures
        all_grids_valid(t),
{
    assert forall|d: int| 0 <= d < 6 implies dir_grids_valid(#[trigger] t@[d]) by {
        assert(grids_match(t@[d], c, *refs.chunk, d));
        assert forall|s: int| 0 <= s < 5 implies grid_fits(#[trigger] t@[d]@[s]) by {
            assert forall|z: int, x: int| 0 <= z < 30 && 0 <= x < 30 implies word_fits(#[trigger] t@[d]@[s]@[z]@[x]) by {
                let w = t@[d]@[s]@[z]@[x];
                assert(!bit_set(w, 30) && !bit_set(w, 31));
                lemma_word_fits_bits(w);
            }
        }
        assert forall|s: int| 0 <= s < 2 implies grid_empty(#[trigger] t@[d]@[s]) by {
            assert forall|y: int, x: int| 0 <= y < 30 && 0 <= x < 30 implies #[trigger] t@[d]@[s]@[y]@[x] == 0 by {
                let w = t@[d]@[s]@[y]@[x];
                assert forall|b: u32| b < 32 implies bit_set(w, b) == bit_set(0u32, b) by {
                    crate::bits::lemma_bit_zero(b);
                    if bit_set(w, b) {
                        assert(face_grid_bit(c, *refs.chunk, d, s, y, x, b as int));
                        lemma_face_bit_solid(depths, refs, c, d, y, x, b as int);
                    }
                }
                crate::bits::lemma_bits_ext(w, 0u32);
            }
        }
    }
}

/// A face bit found from a matching depth mask lies on a solid voxel.
proof fn lemma_face_bit_solid(
    depths: AxisDepths,
    refs: ChunkRefs,
    c: [DepthPlane; 6],
    d: int,
    y: int,
    x: int,
    z: int,
)
    requires
        depths_match(depths, refs),
        culled_from(c, depths),
        0 <= d < 6,
        0 <= y < 30,
        0 <= x < 30,
        0 <= z < 30,
        bit_set(c@[d]@[z + 1]@[x + 1], (y + 1) as u32),
    ensures
        block_is_solid(face_voxel(*refs.chunk, d, x, y, z)),
{
    let a = d / 2;
    assert(0 <= a < 3);
    assert(d == 2 * a || d == 2 * a + 1);
    let col = depths@[a]@[z + 1]@[x + 1];
    crate::quads::lemma_culled_at(c, depths, a, z + 1, x + 1);
    if d % 2 == 0 {
        crate::meshing::lemma_cull_low_bit(col, (y + 1) as u32);
    } else {
        crate::meshing::lemma_cull_high_bit(col, (y + 1) as u32);
    }
    assert(bit_set(col, (y + 1) as u32) == depth_bit(refs, a, z + 1, x + 1, y + 1));
}

/// A grid state with thirty words that have no column at 30 or above.
pub open spec fn face_fits_rows(face: Seq<u32>) -> bool {
    face.len() == 30 && forall|r: int| 0 <= r < 30 ==> word_fits(#[trigger] face[r])
}

proof fn lemma_and_fits(a: u32, b: u32)
    requires
        word_fits(a),
    ensures
        word_fits(a & b),
{
    assert((a & b) < 0x4000_0000u32) by (bit_vector)
        requires
            a < 0x4000_0000u32,
    ;
}

pub proof fn lemma_extend_fits(face: Seq<u32>, row: int, y: u32, hm: u32, mask: u32, w: int)
    requires
        face_fits_rows(face),
        0 <= row < 30,
        1 <= w,
        row + w <= 30,
    ensures
        w <= greedy_extend(face, row, y, hm, mask, w).0,
        row + greedy_extend(face, row, y, hm, mask, w).0 <= 30,
        face_fits_rows(greedy_extend(face, row, y, hm, mask, w).1),
        forall|r: int| 0 <= r <= row ==> #[trigger] greedy_extend(face, row, y, hm, mask, w).1[r] == face[r],
    decreases 30 - (row + w),
{
    if row + w >= 30 {
    } else if ((face[row + w] >> y) & hm) != hm {
    } else {
        let f2 = face.update(row + w, face[row + w] & !mask);
        lemma_and_fits(face[row + w], !mask);
        assert(face_fits_rows(f2));
        lemma_extend_fits(f2, row, y, hm, mask, w + 1);
    }
}

proof fn lemma_greedy_row_fits(
    face: Seq<u32>,
    row: int,
    line: u32,
    y: int,
    depth: u8,
    dir: Dir,
    bt: BlockType,
)
    requires
        face_fits_rows(face),
        0 <= row < 30,
        depth < 30,
        line == face[row],
        0 <= y,
    ensures
        all_fit(greedy_row(face, row, line, y, depth, dir, bt).0, dir, bt),
        face_fits_rows(greedy_row(face, row, line, y, depth, dir, bt).1),
        forall|r: int| 0 <= r <= row ==> #[trigger] greedy_row(face, row, line, y, depth, dir, bt).1[r] == face[r],
    decreases 64 - y,
{
    if y >= 30 || y < 0 {
    } else {
        let sh = face[row] >> (y as u32);
        let t = u32_trailing_zeros(sh);
        let y1 = y + t;
        lemma_trailing_zeros_bits(sh);
        if y1 > 30 {
        } else {
            lemma_high_bits_clear(line);
            assert(t < 32);
            assert(bit_set(sh, t));
            lemma_shr_bit(line, y as u32, t);
            assert(bit_set(line, y1 as u32));
            assert(y1 < 30);
            let run = line >> (y1 as u32);
            let h = u32_trailing_ones(run);
            lemma_trailing_ones_bits(run);
            lemma_shr_bit(line, y1 as u32, 0);
            assert(h >= 1);
            if h + y1 > 30 {
                lemma_shr_bit(line, y1 as u32, (30 - y1) as u32);
                assert(bit_set(run, (30 - y1) as u32));
            }
            assert(y1 + h <= 30);
            let hm = crate::quads::low_mask(h);
            let mask = hm << (y1 as u32);
            lemma_extend_fits(face, row, y1 as u32, hm, mask, 1);
            let (w, f2) = greedy_extend(face, row, y1 as u32, hm, mask, 1);
            lemma_greedy_row_fits(f2, row, line, y1 + h, depth, dir, bt);
            let q = seq![
                GreedyFace {
                    x: row as u8,
                    y: y1 as u8,
                    z: depth,
                    dir,
                    width: (w - 1) as u8,
                    height: (h - 1) as u8,
                    block_type: bt,
                },
            ];
            assert(all_fit(q, dir, bt));
            lemma_all_fit_append(q, greedy_row(f2, row, line, y1 + h, depth, dir, bt).0, dir, bt);
        }
    }
}

proof fn lemma_greedy_rows_fit(face: Seq<u32>, row: int, depth: u8, dir: Dir, bt: BlockType)
    requires
        face_fits_rows(face),
        0 <= row,
        depth < 30,
    ensures
        all_fit(greedy_rows(face, row, depth, dir, bt).0, dir, bt),
    decreases 30 - row,
{
    if row >= 30 {
    } else if face[row] == 0 {
        lemma_greedy_rows_fit(face, row + 1, depth, dir, bt);
    } else {
        lemma_greedy_row_fits(face, row, face[row], 0, depth, dir, bt);
        let (q, f2) = greedy_row(face, row, face[row], 0, depth, dir, bt);
        lemma_greedy_rows_fit(f2, row + 1, depth, dir, bt);
        lemma_all_fit_append(q, greedy_rows(f2, row + 1, depth, dir, bt).0, dir, bt);
    }
}

proof fn lemma_greedy_rows_empty(face: Seq<u32>, row: int, depth: u8, dir: Dir, bt: BlockType)
    requires
        face.len() == 30,
        forall|r: int| 0 <= r < 30 ==> #[trigger] face[r] == 0,
        0 <= row,
    ensures
        greedy_rows(face, row, depth, dir, bt).0.len() == 0,
    decreases 30 - row,
{
    if row < 30 {
        lemma_greedy_rows_empty(face, row + 1, depth, dir, bt);
    }
}

proof fn lemma_greedy_grid_fits(g: FaceGrid, dir: Dir, bt: BlockType, n: int)
    requires
        n <= 30,
        grid_fits(g),
    ensures
        all_fit(greedy_grid(g, dir, bt, n), dir, bt),
    decreases n,
{
    if n > 0 {
        lemma_greedy_grid_fits(g, dir, bt, n - 1);
        assert(face_fits_rows(g@[n - 1]@));
        lemma_greedy_rows_fit(g@[n - 1]@, 0, (n - 1) as u8, dir, bt);
        lemma_all_fit_append(greedy_grid(g, dir, bt, n - 1), greedy_rows(g@[n - 1]@, 0, (n - 1) as u8, dir, bt).0, dir, bt);
    }
}

proof fn lemma_greedy_grid_empty(g: FaceGrid, dir: Dir, bt: BlockType, n: int)
    requires
        n <= 30,
        grid_empty(g),
    ensures
        greedy_grid(g, dir, bt, n).len() == 0,
    decreases n,
{
    if n > 0 {
        lemma_greedy_grid_empty(g, dir, bt, n - 1);
        assert forall|r: int| 0 <= r < 30 implies #[trigger] g@[n - 1]@[r] == 0 by {}
        lemma_greedy_rows_empty(g@[n - 1]@, 0, (n - 1) as u8, dir, bt);
    }
}

proof fn lemma_greedy_dir_fits(grids: BlockGrids, dir: Dir, n: int)
    requires
        n <= 5,
        dir_grids_valid(grids),
    ensures
        all_fit_solid(greedy_dir(grids, dir, n)),
    decreases n,
{
    if n > 0 {
        lemma_greedy_dir_fits(grids, dir, n - 1);
        let s = n - 1;
        let part = greedy_grid(grids@[s], dir, slot_block(s), 30);
        if s < 2 {
            lemma_greedy_grid_empty(grids@[s], dir, slot_block(s), 30);
        } else {
            lemma_greedy_grid_fits(grids@[s], dir, slot_block(s), 30);
        }
        assert(all_fit_solid(part));
        lemma_all_fit_solid_append(greedy_dir(grids, dir, n - 1), part);
    }
}

proof fn lemma_greedy_all_fits(t: [BlockGrids; 6], n: int)
    requires
        n <= 6,
        all_grids_valid(t),
    ensures
        all_fit_solid(greedy_all(t, n)),
    decreases n,
{
    if n > 0 {
        lemma_greedy_all_fits(t, n - 1);
        assert(dir_grids_valid(t@[n - 1]));
        lemma_greedy_dir_fits(t@[n - 1], crate::directions::dir_of_index((n - 1) as nat), 5);
        lemma_all_fit_solid_append(greedy_all(t, n - 1), greedy_dir(t@[n - 1], crate::directions::dir_of_index((n - 1) as nat), 5));
    }
}

/// Culled meshing of a chunk whose depth mask matches it yields faces that fit the chunk
/// and are of solid block types.
pub proof fn lemma_culled_faces_valid(
    depths: AxisDepths,
    refs: ChunkRefs,
    c: [DepthPlane; 6],
    t: [BlockGrids; 6],
)
    requires
        depths_match(depths, refs),
        culled_from(c, depths),
        grids_from(t, c, refs),
    ensures
        all_fit_solid(culled_all(t, 6)),
{
    lemma_matching_grids_valid(depths, refs, c, t);
    lemma_culled_all_fits(t, 6);
}

/// Greedy meshing of a chunk whose depth mask matches it yields rectangles that fit the
/// chunk and are of solid block types.
pub proof fn lemma_greedy_faces_valid(
    depths: AxisDepths,
    refs: ChunkRefs,
    c: [DepthPlane; 6],
    t: [BlockGrids; 6],
)
    requires
        depths_match(depths, refs),
        culled_from(c, depths),
        grids_from(t, c, refs),
    ensures
        all_fit_solid(greedy_all(t, 6)),
{
    lemma_matching_grids_valid(depths, refs, c, t);
    lemma_greedy_all_fits(t, 6);
}

/// Every face of `s` fits a chunk.
pub open spec fn all_faces_fit(s: Seq<GreedyFace>) -> bool {
    forall|i: int| 0 <= i < s.len() ==> face_fits(#[trigger] s[i])
}

/// Every grid of one direction has no column at 30 or above.
pub open spec fn dir_grids_fit(grids: BlockGrids) -> bool {
    forall|s: int| 0 <= s < 5 ==> grid_fits(#[trigger] grids@[s])
}

/// Every grid of every direction has no column at 30 or above.
pub open spec fn all_grids_fit(t: [BlockGrids; 6]) -> bool {
    forall|d: int| 0 <= d < 6 ==> dir_grids_fit(#[trigger] t@[d])
}

/// Face grids sorted from any culled columns fit, in every direction.
pub proof fn lemma_all_grids_fit(t: [BlockGrids; 6], c: [DepthPlane; 6], refs: ChunkRefs)
    requires
        grids_from(t, c, refs),
    ensures
        all_grids_fit(t),
{
    assert forall|d: int| 0 <= d < 6 implies dir_grids_fit(#[trigger] t@[d]) by {
        lemma_grids_fit(t, c, refs, d);
    }
}

/// Valid grids fit.
pub proof fn lemma_valid_grids_fit(t: [BlockGrids; 6])
    requires
        all_grids_valid(t),
    ensures
        all_grids_fit(t),
{
    assert forall|d: int| 0 <= d < 6 implies dir_grids_fit(#[trigger] t@[d]) by {
        assert(dir_grids_valid(t@[d]));
    }
}

proof fn lemma_all_faces_fit_append(a: Seq<GreedyFace>, b: Seq<GreedyFace>)
    requires
        all_faces_fit(a),
        all_faces_fit(b),
    ensures
        all_faces_fit(a + b),
{
    assert forall|i: int| 0 <= i < (a + b).len() implies face_fits(#[trigger] (a + b)[i]) by {
        if i < a.len() {
            assert((a + b)[i] == a[i]);
        } else {
            assert((a + b)[i] == b[i - a.len()]);
        }
    }
}

/// Face grids sorted from any culled columns have no column at 30 or above.
pub proof fn lemma_grids_fit(t: [BlockGrids; 6], c: [DepthPlane; 6], refs: ChunkRefs, d: int)
    requires
        grids_from(t, c, refs),
        0 <= d < 6,
    ensures
        dir_grids_fit(t@[d]),
{
    assert(grids_match(t@[d], c, *refs.chunk, d));
    assert forall|s: int| 0 <= s < 5 implies grid_fits(#[trigger] t@[d]@[s]) by {
        assert forall|z: int, x: int| 0 <= z < 30 && 0 <= x < 30 implies word_fits(#[trigger] t@[d]@[s]@[z]@[x]) by {
            let w = t@[d]@[s]@[z]@[x];
            assert(!bit_set(w, 30) && !bit_set(w, 31));
            lemma_word_fits_bits(w);
        }
    }
}

/// No face of `s` is of the invalid block type.
pub open spec fn no_invalid_faces(s: Seq<GreedyFace>) -> bool {
    forall|i: int| 0 <= i < s.len() ==> (#[trigger] s[i]).block_type != BlockType::Invalid
}

/// No voxel of a chunk is of the invalid block type.
pub open spec fn voxels_valid(chunk: crate::meshing::VoxelArray) -> bool {
    forall|x: int, y: int, z: int| 0 <= x < 30 && 0 <= y < 30 && 0 <= z < 30 ==> #[trigger] crate::meshing::voxel_type(chunk, x, y, z) != BlockType::Invalid
}

proof fn lemma_no_invalid_append(a: Seq<GreedyFace>, b: Seq<GreedyFace>)
    requires
        no_invalid_faces(a),
        no_invalid_faces(b),
    ensures
        no_invalid_faces(a + b),
{
    assert forall|i: int| 0 <= i < (a + b).len() implies (#[trigger] (a + b)[i]).block_type != BlockType::Invalid by {
        if i < a.len() {
            assert((a + b)[i] == a[i]);
        } else {
            assert((a + b)[i] == b[i - a.len()]);
        }
    }
}

proof fn lemma_dir_faces_fit(grids: BlockGrids, dir: Dir, n: int)
    requires
        n <= 5,
        dir_grids_fit(grids),
    ensures
        all_faces_fit(culled_dir(grids, dir, n)),
        all_faces_fit(greedy_dir(grids, dir, n)),
        grid_empty(grids@[0]) ==> no_invalid_faces(culled_dir(grids, dir, n)) && no_invalid_faces(greedy_dir(grids, dir, n)),
    decreases n,
{
    if n > 0 {
        lemma_dir_faces_fit(grids, dir, n - 1);
        let s = n - 1;
        let cp = culled_grid(grids@[s], dir, slot_block(s), 30);
        let gp = greedy_grid(grids@[s], dir, slot_block(s), 30);
        lemma_culled_grid_fits(grids@[s], dir, slot_block(s), 30);
        lemma_greedy_grid_fits(grids@[s], dir, slot_block(s), 30);
        lemma_all_faces_fit_append(culled_dir(grids, dir, n - 1), cp);
        lemma_all_faces_fit_append(greedy_dir(grids, dir, n - 1), gp);
        if grid_empty(grids@[0]) {
            if s == 0 {
                lemma_culled_grid_empty(grids@[s], dir, slot_block(s), 30);
                lemma_greedy_grid_empty(grids@[s], dir, slot_block(s), 30);
            }
            assert(no_invalid_faces(cp));
            assert(no_invalid_faces(gp));
            lemma_no_invalid_append(culled_dir(grids, dir, n - 1), cp);
            lemma_no_invalid_append(greedy_dir(grids, dir, n - 1), gp);
        }
    }
}

/// The invalid-type grids of a chunk with no invalid voxel are empty.
proof fn lemma_invalid_grid_empty(t: [BlockGrids; 6], c: [DepthPlane; 6], refs: ChunkRefs, d: int)
    requires
        grids_from(t, c, refs),
        voxels_valid(*refs.chunk),
        0 <= d < 6,
    ensures
        grid_empty(t@[d]@[0]),
{
    assert(grids_match(t@[d], c, *refs.chunk, d));
    assert forall|y: int, x: int| 0 <= y < 30 && 0 <= x < 30 implies #[trigger] t@[d]@[0]@[y]@[x] == 0 by {
        let w = t@[d]@[0]@[y]@[x];
        assert forall|b: u32| b < 32 implies bit_set(w, b) == bit_set(0u32, b) by {
            crate::bits::lemma_bit_zero(b);
            if bit_set(w, b) {
                assert(face_grid_bit(c, *refs.chunk, d, 0, y, x, b as int));
                assert(face_voxel(*refs.chunk, d, x, y, b as int) != BlockType::Invalid);
            }
        }
        crate::bits::lemma_bits_ext(w, 0u32);
    }
}

proof fn lemma_all_faces_fit_to(t: [BlockGrids; 6], c: [DepthPlane; 6], refs: ChunkRefs, n: int)
    requires
        n <= 6,
        grids_from(t, c, refs),
    ensures
        all_faces_fit(culled_all(t, n)),
        all_faces_fit(greedy_all(t, n)),
        voxels_valid(*refs.chunk) ==> no_invalid_faces(culled_all(t, n)) && no_invalid_faces(greedy_all(t, n)),
    decreases n,
{
    if n > 0 {
        lemma_all_faces_fit_to(t, c, refs, n - 1);
        lemma_grids_fit(t, c, refs, n - 1);
        let dir = crate::directions::dir_of_index((n - 1) as nat);
        lemma_dir_faces_fit(t@[n - 1], dir, 5);
        lemma_all_faces_fit_append(culled_all(t, n - 1), culled_dir(t@[n - 1], dir, 5));
        lemma_all_faces_fit_append(greedy_all(t, n - 1), greedy_dir(t@[n - 1], dir, 5));
        if voxels_valid(*refs.chunk) {
            lemma_invalid_grid_empty(t, c, refs, n - 1);
            lemma_no_invalid_append(culled_all(t, n - 1), culled_dir(t@[n - 1], dir, 5));
            lemma_no_invalid_append(greedy_all(t, n - 1), greedy_dir(t@[n - 1], dir, 5));
        }
    }
}

/// Meshing with any depth mask, matching the chunk or not, yields faces that fit the chunk;
/// when no voxel of the chunk is invalid, no face is.
pub proof fn lemma_faces_fit(c: [DepthPlane; 6], t: [BlockGrids; 6], refs: ChunkRefs)
    requires
        grids_from(t, c, refs),
    ensures
        all_faces_fit(culled_all(t, 6)),
        all_faces_fit(greedy_all(t, 6)),
        voxels_valid(*refs.chunk) ==> no_invalid_faces(culled_all(t, 6)) && no_invalid_faces(greedy_all(t, 6)),
{
    lemma_all_faces_fit_to(t, c, refs, 6);
}

} // verus!
