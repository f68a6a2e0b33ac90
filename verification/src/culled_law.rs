use vstd::prelude::*;

use crate::bits::bit_set;
use crate::block::{block_is_solid, BlockType};
use crate::directions::{dir_index, dir_of_index, Dir};
use crate::mesh_laws::{
    all_grids_valid, dir_grids_valid, grid_empty, grid_fits, lemma_matching_grids_valid,
    word_fits,
};
use crate::meshing::{
    block_slot, cull_high, cull_low, depth_bit, depths_match, face_grid_bit, face_voxel,
    grids_match, slot_block, AxisDepths, BlockGrids, ChunkRefs, DepthPlane, FaceGrid,
};
use crate::quads::{
    culled_all, culled_bit, culled_dir, culled_from, culled_grid, culled_row, culled_rows,
    grids_from, unit_face, GreedyFace,
};

verus! {

/// Whether a face of direction `dir` (by index) lies at row `x`, column `y` and depth `z` of
/// the face grids: the voxel behind it is solid and its neighbour on the face's side (one
/// step down the axis for even directions, one step up for odd ones) is not.
pub open spec fn face_visible(refs: ChunkRefs, dir: int, x: int, y: int, z: int) -> bool {
    let a = dir / 2;
    &&& depth_bit(refs, a, z + 1, x + 1, y + 1)
    &&& if dir % 2 == 0 {
        !depth_bit(refs, a, z + 1, x + 1, y)
    } else {
        !depth_bit(refs, a, z + 1, x + 1, y + 2)
    }
}

/// Whether `f` is one of the faces that culled meshing of the chunk emits: a single face
/// inside the chunk, visible, of the block type of the voxel behind it. A face's depth `z`
/// is the grid's depth (its position along the direction's axis) and its `y` the bit of the
/// grid word, so in the terms of `face_visible` it lies at `(x, z, y)`.
pub open spec fn is_culled_face(refs: ChunkRefs, f: GreedyFace) -> bool {
    &&& f.width == 0
    &&& f.height == 0
    &&& f.x < 30
    &&& f.y < 30
    &&& f.z < 30
    &&& face_visible(refs, dir_index(f.dir) as int, f.x as int, f.z as int, f.y as int)
    &&& f.block_type == face_voxel(
        *refs.chunk,
        dir_index(f.dir) as int,
        f.x as int,
        f.z as int,
        f.y as int,
    )
}

proof fn lemma_concat_contains(a: Seq<GreedyFace>, b: Seq<GreedyFace>, f: GreedyFace)
    ensures
        (a + b).contains(f) == (a.contains(f) || b.contains(f)),
{
    if a.contains(f) {
        let i = choose|i: int| 0 <= i < a.len() && a[i] == f;
        assert((a + b)[i] == f);
    }
    if b.contains(f) {
        let i = choose|i: int| 0 <= i < b.len() && b[i] == f;
        assert((a + b)[a.len() + i] == f);
    }
    if (a + b).contains(f) {
        let i = choose|i: int| 0 <= i < (a + b).len() && (a + b)[i] == f;
        if i < a.len() {
            assert(a[i] == f);
        } else {
            assert(b[i - a.len()] == f);
        }
    }
}

proof fn lemma_concat_no_dup(a: Seq<GreedyFace>, b: Seq<GreedyFace>)
    requires
        a.no_duplicates(),
        b.no_duplicates(),
        forall|f: GreedyFace| a.contains(f) ==> !b.contains(f),
    ensures
        (a + b).no_duplicates(),
{
    let s = a + b;
    assert forall|i: int, j: int| 0 <= i < s.len() && 0 <= j < s.len() && i != j implies s[i] != s[j] by {
        if i < a.len() && j < a.len() {
            assert(s[i] == a[i] && s[j] == a[j]);
        } else if i >= a.len() && j >= a.len() {
            assert(s[i] == b[i - a.len()] && s[j] == b[j - a.len()]);
        } else if i < a.len() {
            assert(s[i] == a[i] && s[j] == b[j - a.len()]);
            assert(a.contains(a[i]));
            assert(b.contains(b[j - a.len()]));
        } else {
            assert(s[j] == a[j] && s[i] == b[i - a.len()]);
            assert(a.contains(a[j]));
            assert(b.contains(b[i - a.len()]));
        }
    }
}

/// The faces of one row, by their fields.
pub open spec fn in_row(line: u32, row: int, depth: u8, dir: Dir, bt: BlockType, n: int, f: GreedyFace) -> bool {
    &&& f.x == row
    &&& f.z == depth
    &&& f.dir == dir
    &&& f.block_type == bt
    &&& f.width == 0
    &&& f.height == 0
    &&& f.y < n
    &&& f.y < 30
    &&& bit_set(line, f.y as u32)
}

proof fn lemma_row_exact(line: u32, row: int, depth: u8, dir: Dir, bt: BlockType, n: int)
    requires
        word_fits(line),
        0 <= row < 30,
        0 <= n <= 32,
    ensures
        forall|f: GreedyFace| culled_row(line, row, depth, dir, bt, n).contains(f) == #[trigger] in_row(line, row, depth, dir, bt, n, f),
        culled_row(line, row, depth, dir, bt, n).no_duplicates(),
    decreases n,
{
    if n > 0 {
        lemma_row_exact(line, row, depth, dir, bt, n - 1);
        let prev = culled_row(line, row, depth, dir, bt, n - 1);
        let s = culled_row(line, row, depth, dir, bt, n);
        assert(!bit_set(line, 30) && !bit_set(line, 31)) by {
            assert(((line >> 30u32) & 1 == 1) == false) by (bit_vector)
                requires
                    line < 0x4000_0000u32,
            ;
            assert(((line >> 31u32) & 1 == 1) == false) by (bit_vector)
                requires
                    line < 0x4000_0000u32,
            ;
        }
        if culled_bit(line, n - 1) {
            let nf = unit_face(row, n - 1, depth, dir, bt);
            assert(s == prev.push(nf));
            assert forall|f: GreedyFace| s.contains(f) == #[trigger] in_row(line, row, depth, dir, bt, n, f) by {
                if s.contains(f) {
                    let i = choose|i: int| 0 <= i < s.len() && s[i] == f;
                    if i < prev.len() {
                        assert(prev[i] == f);
                        assert(prev.contains(f));
                        assert(in_row(line, row, depth, dir, bt, n - 1, f));
                    }
                }
                if in_row(line, row, depth, dir, bt, n, f) {
                    if f.y < n - 1 {
                        assert(in_row(line, row, depth, dir, bt, n - 1, f));
                        assert(prev.contains(f));
                        let i = choose|i: int| 0 <= i < prev.len() && prev[i] == f;
                        assert(s[i] == f);
                    } else {
                        assert(f == nf);
                        assert(s[prev.len() as int] == f);
                    }
                }
            }
            assert forall|i: int, j: int| 0 <= i < s.len() && 0 <= j < s.len() && i != j implies s[i] != s[j] by {
                if i < prev.len() && j < prev.len() {
                } else if i < prev.len() {
                    assert(prev.contains(prev[i]));
                    assert(in_row(line, row, depth, dir, bt, n - 1, prev[i]));
                } else if j < prev.len() {
                    assert(prev.contains(prev[j]));
                    assert(in_row(line, row, depth, dir, bt, n - 1, prev[j]));
                }
            }
        } else {
            assert forall|f: GreedyFace| s.contains(f) == #[trigger] in_row(line, row, depth, dir, bt, n, f) by {
                assert(in_row(line, row, depth, dir, bt, n, f) == in_row(line, row, depth, dir, bt, n - 1, f));
            }
        }
    } else {
        assert forall|f: GreedyFace| culled_row(line, row, depth, dir, bt, n).contains(f) == #[trigger] in_row(line, row, depth, dir, bt, n, f) by {}
    }
}

/// The faces of the rows below `n` of one depth, by their fields.
pub open spec fn in_rows(face: Seq<u32>, depth: u8, dir: Dir, bt: BlockType, n: int, f: GreedyFace) -> bool {
    &&& f.x < n
    &&& f.z == depth
    &&& f.dir == dir
    &&& f.block_type == bt
    &&& f.width == 0
    &&& f.height == 0
    &&& f.y < 30
    &&& bit_set(face[f.x as int], f.y as u32)
}

proof fn lemma_rows_exact(face: Seq<u32>, depth: u8, dir: Dir, bt: BlockType, n: int)
    requires
        0 <= n <= 30,
        forall|r: int| 0 <= r < 30 ==> word_fits(#[trigger] face[r]),
    ensures
        forall|f: GreedyFace| culled_rows(face, depth, dir, bt, n).contains(f) == #[trigger] in_rows(face, depth, dir, bt, n, f),
        culled_rows(face, depth, dir, bt, n).no_duplicates(),
    decreases n,
{
    if n > 0 {
        lemma_rows_exact(face, depth, dir, bt, n - 1);
        let prev = culled_rows(face, depth, dir, bt, n - 1);
        let last = culled_row(face[n - 1], n - 1, depth, dir, bt, 32);
        assert(word_fits(face[n - 1]));
        lemma_row_exact(face[n - 1], n - 1, depth, dir, bt, 32);
        assert forall|f: GreedyFace| (prev + last).contains(f) == #[trigger] in_rows(face, depth, dir, bt, n, f) by {
            lemma_concat_contains(prev, last, f);
            assert(last.contains(f) == in_row(face[n - 1], n - 1, depth, dir, bt, 32, f));
            assert(prev.contains(f) == in_rows(face, depth, dir, bt, n - 1, f));
        }
        assert forall|f: GreedyFace| prev.contains(f) implies !last.contains(f) by {
            assert(in_rows(face, depth, dir, bt, n - 1, f));
            assert(!in_row(face[n - 1], n - 1, depth, dir, bt, 32, f));
        }
        lemma_concat_no_dup(prev, last);
    } else {
        assert forall|f: GreedyFace| culled_rows(face, depth, dir, bt, n).contains(f) == #[trigger] in_rows(face, depth, dir, bt, n, f) by {}
    }
}

/// The faces of the depths below `n` of one grid, by their fields.
pub open spec fn in_grid(g: FaceGrid, dir: Dir, bt: BlockType, n: int, f: GreedyFace) -> bool {
    &&& f.z < n
    &&& f.x < 30
    &&& f.dir == dir
    &&& f.block_type == bt
    &&& f.width == 0
    &&& f.height == 0
    &&& f.y < 30
    &&& bit_set(g@[f.z as int]@[f.x as int], f.y as u32)
}

proof fn lemma_grid_exact(g: FaceGrid, dir: Dir, bt: BlockType, n: int)
    requires
        0 <= n <= 30,
        grid_fits(g),
    ensures
        forall|f: GreedyFace| culled_grid(g, dir, bt, n).contains(f) == #[trigger] in_grid(g, dir, bt, n, f),
        culled_grid(g, dir, bt, n).no_duplicates(),
    decreases n,
{
    if n > 0 {
        lemma_grid_exact(g, dir, bt, n - 1);
        let prev = culled_grid(g, dir, bt, n - 1);
        let last = culled_rows(g@[n - 1]@, (n - 1) as u8, dir, bt, 30);
        assert forall|r: int| 0 <= r < 30 implies word_fits(#[trigger] g@[n - 1]@[r]) by {}
        lemma_rows_exact(g@[n - 1]@, (n - 1) as u8, dir, bt, 30);
        assert forall|f: GreedyFace| (prev + last).contains(f) == #[trigger] in_grid(g, dir, bt, n, f) by {
            lemma_concat_contains(prev, last, f);
            assert(last.contains(f) == in_rows(g@[n - 1]@, (n - 1) as u8, dir, bt, 30, f));
            assert(prev.contains(f) == in_grid(g, dir, bt, n - 1, f));
        }
        assert forall|f: GreedyFace| prev.contains(f) implies !last.contains(f) by {
            assert(in_grid(g, dir, bt, n - 1, f));
            assert(!in_rows(g@[n - 1]@, (n - 1) as u8, dir, bt, 30, f));
        }
        lemma_concat_no_dup(prev, last);
    } else {
        assert forall|f: GreedyFace| culled_grid(g, dir, bt, n).contains(f) == #[trigger] in_grid(g, dir, bt, n, f) by {}
    }
}

/// The faces of the block slots below `n` of one direction, by their fields.
pub open spec fn in_dir(grids: BlockGrids, dir: Dir, n: int, f: GreedyFace) -> bool {
    &&& block_slot(f.block_type) < n
    &&& in_grid(grids@[block_slot(f.block_type)], dir, f.block_type, 30, f)
}

pub proof fn lemma_slot_roundtrip(b: BlockType, s: int)
    ensures
        slot_block(block_slot(b)) == b,
        0 <= block_slot(b) < 5,
        0 <= s < 5 ==> block_slot(slot_block(s)) == s,
{
}

proof fn lemma_dir_exact(grids: BlockGrids, dir: Dir, n: int)
    requires
        0 <= n <= 5,
        forall|s: int| 0 <= s < 5 ==> grid_fits(#[trigger] grids@[s]),
    ensures
        forall|f: GreedyFace| culled_dir(grids, dir, n).contains(f) == #[trigger] in_dir(grids, dir, n, f),
        culled_dir(grids, dir, n).no_duplicates(),
    decreases n,
{
    if n > 0 {
        lemma_dir_exact(grids, dir, n - 1);
        let s = n - 1;
        let prev = culled_dir(grids, dir, n - 1);
        let last = culled_grid(grids@[s], dir, slot_block(s), 30);
        assert(grid_fits(grids@[s]));
        lemma_grid_exact(grids@[s], dir, slot_block(s), 30);
        assert forall|f: GreedyFace| (prev + last).contains(f) == #[trigger] in_dir(grids, dir, n, f) by {
            lemma_concat_contains(prev, last, f);
            lemma_slot_roundtrip(f.block_type, s);
            assert(last.contains(f) == in_grid(grids@[s], dir, slot_block(s), 30, f));
            assert(prev.contains(f) == in_dir(grids, dir, n - 1, f));
        }
        assert forall|f: GreedyFace| prev.contains(f) implies !last.contains(f) by {
            lemma_slot_roundtrip(f.block_type, s);
            assert(in_dir(grids, dir, n - 1, f));
            assert(!in_grid(grids@[s], dir, slot_block(s), 30, f));
        }
        lemma_concat_no_dup(prev, last);
    } else {
        assert forall|f: GreedyFace| culled_dir(grids, dir, n).contains(f) == #[trigger] in_dir(grids, dir, n, f) by {}
    }
}

/// The faces of the directions below `n`, by their fields.
pub open spec fn in_all(t: [BlockGrids; 6], n: int, f: GreedyFace) -> bool {
    &&& dir_index(f.dir) < n
    &&& in_dir(t@[dir_index(f.dir) as int], f.dir, 5, f)
}

pub proof fn lemma_all_exact(t: [BlockGrids; 6], n: int)
    requires
        0 <= n <= 6,
        crate::mesh_laws::all_grids_fit(t),
    ensures
        forall|f: GreedyFace| culled_all(t, n).contains(f) == #[trigger] in_all(t, n, f),
        culled_all(t, n).no_duplicates(),
    decreases n,
{
    if n > 0 {
        lemma_all_exact(t, n - 1);
        let d = n - 1;
        let dir = dir_of_index(d as nat);
        let prev = culled_all(t, n - 1);
        let last = culled_dir(t@[d], dir, 5);
        assert(crate::mesh_laws::dir_grids_fit(t@[d]));
        lemma_dir_exact(t@[d], dir, 5);
        assert forall|f: GreedyFace| (prev + last).contains(f) == #[trigger] in_all(t, n, f) by {
            lemma_concat_contains(prev, last, f);
            crate::directions::lemma_dir_index_roundtrip(f.dir, d as nat);
            assert(last.contains(f) == in_dir(t@[d], dir, 5, f));
            assert(prev.contains(f) == in_all(t, n - 1, f));
        }
        assert forall|f: GreedyFace| prev.contains(f) implies !last.contains(f) by {
            crate::directions::lemma_dir_index_roundtrip(f.dir, d as nat);
            assert(in_all(t, n - 1, f));
            assert(!in_dir(t@[d], dir, 5, f));
        }
        lemma_concat_no_dup(prev, last);
    } else {
        assert forall|f: GreedyFace| culled_all(t, n).contains(f) == #[trigger] in_all(t, n, f) by {}
    }
}

/// Culled meshing emits exactly the visible faces of a chunk whose depth mask matches it:
/// a face is emitted if and only if it lies on a solid voxel whose neighbour on its side is
/// empty, with that voxel's block type, and no face is emitted twice.
pub proof fn lemma_culled_faces_exact(
    depths: AxisDepths,
    refs: ChunkRefs,
    c: [DepthPlane; 6],
    t: [BlockGrids; 6],
)
    requires
        depths_match(depths, refs),
        culled_from(c, depths),
        grids_from(t, c, refs),
    ensures
        forall|f: GreedyFace| culled_all(t, 6).contains(f) == #[trigger] is_culled_face(refs, f),
        culled_all(t, 6).no_duplicates(),
{
    lemma_matching_grids_valid(depths, refs, c, t);
    crate::mesh_laws::lemma_valid_grids_fit(t);
    lemma_all_exact(t, 6);
    assert forall|f: GreedyFace| culled_all(t, 6).contains(f) == #[trigger] is_culled_face(refs, f) by {
        let d = dir_index(f.dir) as int;
        let s = block_slot(f.block_type);
        assert(culled_all(t, 6).contains(f) == in_all(t, 6, f));
        if f.x < 30 && f.y < 30 && f.z < 30 {
            let x = f.x as int;
            let y = f.z as int;
            let z = f.y as int;
            assert(grids_match(t@[d], c, *refs.chunk, d));
            assert(bit_set(t@[d]@[s]@[y]@[x], z as u32) == face_grid_bit(c, *refs.chunk, d, s, y, x, z));
            lemma_face_bit_visible(depths, refs, c, d, x, y, z);
            lemma_slot_roundtrip(f.block_type, s);
            lemma_slot_roundtrip(face_voxel(*refs.chunk, d, x, y, z), s);
        }
    }
}

pub proof fn lemma_face_bit_visible(
    depths: AxisDepths,
    refs: ChunkRefs,
    c: [DepthPlane; 6],
    d: int,
    x: int,
    y: int,
    z: int,
)
    requires
        depths_match(depths, refs),
        culled_from(c, depths),
        0 <= d < 6,
        0 <= y < 30,
        0 <= x < 30,
        0 <= z < 30,
    ensures
        bit_set(c@[d]@[z + 1]@[x + 1], (y + 1) as u32) == face_visible(refs, d, x, y, z),
{
    let a = d / 2;
    assert(0 <= a < 3);
    assert(d == 2 * a || d == 2 * a + 1);
    let col = depths@[a]@[z + 1]@[x + 1];
    crate::quads::lemma_culled_at(c, depths, a, z + 1, x + 1);
    assert(bit_set(col, (y + 1) as u32) == depth_bit(refs, a, z + 1, x + 1, y + 1));
    if d % 2 == 0 {
        crate::meshing::lemma_cull_low_bit(col, (y + 1) as u32);
        assert(bit_set(col, y as u32) == depth_bit(refs, a, z + 1, x + 1, y));
    } else {
        crate::meshing::lemma_cull_high_bit(col, (y + 1) as u32);
        assert(bit_set(col, (y + 2) as u32) == depth_bit(refs, a, z + 1, x + 1, y + 2));
    }
}

} // verus!
