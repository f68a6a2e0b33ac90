use vstd::prelude::*;

use crate::bits::{bit_set, lemma_shr_bit, lemma_trailing_ones_bits, lemma_trailing_zeros_bits};
use crate::block::BlockType;
use crate::directions::{dir_index, dir_of_index, Dir};
use crate::culled_law::{is_culled_face, lemma_culled_faces_exact};
use crate::greedy_law::{covers_face, faces_disjoint, lemma_greedy_faces_exact};
use crate::mesh_laws::{
    all_faces_fit, all_fit_solid, lemma_culled_faces_valid, lemma_faces_fit, lemma_greedy_faces_valid,
    no_invalid_faces, voxels_valid,
};
use crate::meshing::{
    depths_match, cull_depths, cull_high, cull_low, depths_to_faces, grids_match, slot_block, AxisDepths,
    BlockGrids, ChunkRefs, DepthPlane, FaceGrid, TransformedBlockDepths,
};
use vstd::std_specs::bits::{axiom_u32_trailing_ones, u32_trailing_ones, u32_trailing_zeros};

verus! {

/// A rectangle of faces of one block type: its corner at row `x`, column `y`, depth `z`, and
/// its width and height, each less one.
#[derive(Clone, Copy, Debug, PartialEq, Eq, Structural)]
pub struct GreedyFace {
    pub x: u8,
    pub y: u8,
    pub z: u8,
    pub dir: Dir,
    pub width: u8,
    pub height: u8,
    pub block_type: BlockType,
}

/// A single face at row `x`, column `y` and depth `z`.
pub open spec fn unit_face(x: int, y: int, z: u8, dir: Dir, block_type: BlockType) -> GreedyFace {
    GreedyFace { x: x as u8, y: y as u8, z, dir, width: 0, height: 0, block_type }
}

/// Whether `culled_face` emits a face at column `y` of a row: every set bit up to 30, and
/// bit 31 only as the continuation of a run through bit 30.
pub open spec fn culled_bit(line: u32, y: int) -> bool {
    if y < 31 {
        bit_set(line, y as u32)
    } else {
        bit_set(line, 30) && bit_set(line, 31)
    }
}

/// The faces `culled_face` emits for the columns below `n` of a row, in column order.
pub open spec fn culled_row(line: u32, row: int, depth: u8, dir: Dir, bt: BlockType, n: int) -> Seq<
    GreedyFace,
>
    decreases n,
{
    if n <= 0 {
        Seq::empty()
    } else {
        let prev = culled_row(line, row, depth, dir, bt, n - 1);
        if culled_bit(line, n - 1) {
            prev.push(unit_face(row, n - 1, depth, dir, bt))
        } else {
            prev
        }
    }
}

/// The faces `culled_face` emits for the rows below `n` of a face grid, row by row.
pub open spec fn culled_rows(face: Seq<u32>, depth: u8, dir: Dir, bt: BlockType, n: int) -> Seq<
    GreedyFace,
>
    decreases n,
{
    if n <= 0 {
        Seq::empty()
    } else {
        culled_rows(face, depth, dir, bt, n - 1) + culled_row(face[n - 1], n - 1, depth, dir, bt, 32)
    }
}

proof fn lemma_culled_row_skip(line: u32, row: int, depth: u8, dir: Dir, bt: BlockType, lo: int, hi: int)
    requires
        0 <= lo <= hi,
        forall|b: int| lo <= b < hi ==> !#[trigger] culled_bit(line, b),
    ensures
        culled_row(line, row, depth, dir, bt, hi) == culled_row(line, row, depth, dir, bt, lo),
    decreases hi - lo,
{
    if hi > lo {
        lemma_culled_row_skip(line, row, depth, dir, bt, lo, hi - 1);
        assert(!culled_bit(line, hi - 1));
    }
}

/// Emits a face for every set bit of every row of `face`, each as a rectangle of one.
pub fn culled_face(face: &[u32; 30], depth: u8, dir: Dir, block_type: &BlockType) -> (quads: Vec<
    GreedyFace,
>)
    ensures
        quads@ == culled_rows(face@, depth, dir, *block_type, 30),
{
    let mut quads: Vec<GreedyFace> = Vec::new();
    let mut row: usize = 0;
    while row < 30
        invariant
            row <= 30,
            quads@ == culled_rows(face@, depth, dir, *block_type, row as int),
        decreases 30 - row,
    {
        let line = face[row];
        let ghost prefix = quads@;
        if line == 0 {
            proof {
                assert forall|b: int| 0 <= b < 32 implies !#[trigger] culled_bit(line, b) by {
                    crate::bits::lemma_bit_zero(b as u32);
                    crate::bits::lemma_bit_zero(30);
                }
                lemma_culled_row_skip(line, row as int, depth, dir, *block_type, 0, 32);
            }
        } else {
            let mut y: u32 = 0;
            while y < 30
                invariant
                    row < 30,
                    line == face@[row as int],
                    y <= 62,
                    quads@ == prefix + culled_row(line, row as int, depth, dir, *block_type, if y < 32 { y as int } else { 32 }),
                    y >= 30 ==> culled_row(line, row as int, depth, dir, *block_type, 32) == culled_row(line, row as int, depth, dir, *block_type, if y < 32 { y as int } else { 32 }),
                decreases 64 - y,
            {
                let ghost y0 = y;
                let shifted = face[row] >> y;
                proof {
                    lemma_trailing_zeros_bits(shifted);
                    assert forall|b: u32| b < 32 implies #[trigger] bit_set(shifted, b) == (b + y < 32 && bit_set(line, (b + y) as u32)) by {
                        lemma_shr_bit(line, y, b);
                    }
                }
                let t = shifted.trailing_zeros();
                y += t;
                proof {
                    // no face between the old position and the new one
                    assert forall|b: int| y0 <= b < (if y < 32 { y as int } else { 32 }) implies !#[trigger] culled_bit(line, b) by {
                        assert(!bit_set(shifted, (b - y0) as u32));
                        if b == 31 {
                            assert(!bit_set(shifted, (30 - y0) as u32));
                        }
                    }
                    lemma_culled_row_skip(line, row as int, depth, dir, *block_type, y0 as int, if y < 32 { y as int } else { 32 });
                    if y > 30 && y < 32 {
                        // a lone bit 31 is no face
                        assert(!bit_set(shifted, (30 - y0) as u32));
                        assert(!culled_bit(line, 31));
                        lemma_culled_row_skip(line, row as int, depth, dir, *block_type, 31, 32);
                    }
                }
                if y > 30 {
                    continue;
                }
                assert(bit_set(line, y));
                let run = line >> y;
                proof {
                    lemma_trailing_ones_bits(run);
                    lemma_shr_bit(line, y, 0);
                    assert(run >> 0u32 == run) by (bit_vector);
                    assert forall|b: u32| b < 32 implies #[trigger] bit_set(run, b) == (b + y < 32 && bit_set(line, (b + y) as u32)) by {
                        lemma_shr_bit(line, y, b);
                    }
                }
                let h = run.trailing_ones();
                let ys = y;
                proof {
                    if h + ys > 32 {
                        assert(bit_set(run, (32 - ys) as u32));
                    }
                }
                let mut hh: u32 = 0;
                while hh < h
                    invariant
                        row < 30,
                        line == face@[row as int],
                        ys <= 30,
                        h == u32_trailing_ones(run),
                        hh <= h,
                        ys + h <= 32,
                        forall|j: u32| j < u32_trailing_ones(run) ==> #[trigger] bit_set(run, j),
                        forall|b: u32| b < 32 ==> #[trigger] bit_set(run, b) == (b + ys < 32 && bit_set(line, (b + ys) as u32)),
                        quads@ == prefix + culled_row(line, row as int, depth, dir, *block_type, ys + hh),
                    decreases h - hh,
                {
                    assert(bit_set(run, hh));
                    proof {
                        if ys + hh == 31 {
                            assert(bit_set(run, (30 - ys) as u32));
                        }
                    }
                    quads.push(GreedyFace {
                        x: row as u8,
                        y: (ys + hh) as u8,
                        z: depth,
                        dir,
                        width: 0,
                        height: 0,
                        block_type: *block_type,
                    });
                    hh = hh + 1;
                }
                y = y + h;
                proof {
                    if y < 32 {
                        assert(!bit_set(run, h));
                        assert(!bit_set(line, y));
                    }
                    if y >= 30 && y < 32 {
                        if y == 30 {
                            assert(!culled_bit(line, 30));
                            assert(!culled_bit(line, 31));
                            lemma_culled_row_skip(line, row as int, depth, dir, *block_type, 30, 32);
                        } else {
                            assert(!culled_bit(line, 31));
                            lemma_culled_row_skip(line, row as int, depth, dir, *block_type, 31, 32);
                        }
                    }
                }
            }
        }
        assert(quads@ == culled_rows(face@, depth, dir, *block_type, row + 1));
        row = row + 1;
    }
    quads
}

/// The mask of the low `h` bits (all bits for 32 and more).
pub open spec fn low_mask(h: u32) -> u32 {
    if h < 32 {
        ((1u32 << h) - 1) as u32
    } else {
        0xFFFF_FFFFu32
    }
}

/// How far the rectangle at `row`, columns `y` to `y + h - 1` (mask `hm` at `y`, `mask` in
/// place), grows over the following rows: while the next row holds every column of it,
/// that row loses those columns and the width grows by one. Gives the width and the grid.
pub open spec fn greedy_extend(face: Seq<u32>, row: int, y: u32, hm: u32, mask: u32, w: int) -> (
    int,
    Seq<u32>,
)
    decreases 30 - (row + w),
{
    if row + w >= 30 || w <= 0 {
        (w, face)
    } else if ((face[row + w] >> y) & hm) != hm {
        (w, face)
    } else {
        greedy_extend(face.update(row + w, face[row + w] & !mask), row, y, hm, mask, w + 1)
    }
}

/// The rectangles that `greedy_face` finds in `row` from column `y` on, and the grid after.
pub open spec fn greedy_row(
    face: Seq<u32>,
    row: int,
    line: u32,
    y: int,
    depth: u8,
    dir: Dir,
    bt: BlockType,
) -> (Seq<GreedyFace>, Seq<u32>)
    decreases 64 - y,
{
    if y >= 30 || y < 0 {
        (Seq::empty(), face)
    } else {
        let y1 = y + u32_trailing_zeros(face[row] >> (y as u32));
        if y1 > 30 {
            (Seq::empty(), face)
        } else {
            let h = u32_trailing_ones(line >> (y1 as u32));
            let hm = low_mask(h);
            let mask = hm << (y1 as u32);
            let (w, f2) = greedy_extend(face, row, y1 as u32, hm, mask, 1);
            let q = if w != 0 && h != 0 {
                seq![
                    GreedyFace {
                        x: row as u8,
                        y: y1 as u8,
                        z: depth,
                        dir,
                        width: (w - 1) as u8,
                        height: (h - 1) as u8,
                        block_type: bt,
                    },
                ]
            } else {
                Seq::empty()
            };
            if h == 0 {
                (q, f2)
            } else {
                proof {
                    axiom_u32_trailing_ones(line >> (y1 as u32));
                }
                let (rest, f3) = greedy_row(f2, row, line, y1 + h, depth, dir, bt);
                (q + rest, f3)
            }
        }
    }
}

/// The rectangles that `greedy_face` finds from `row` on, row by row, and the grid after.
pub open spec fn greedy_rows(face: Seq<u32>, row: int, depth: u8, dir: Dir, bt: BlockType) -> (
    Seq<GreedyFace>,
    Seq<u32>,
)
    decreases 30 - row,
{
    if row >= 30 || row < 0 {
        (Seq::empty(), face)
    } else if face[row] == 0 {
        greedy_rows(face, row + 1, depth, dir, bt)
    } else {
        let (q, f2) = greedy_row(face, row, face[row], 0, depth, dir, bt);
        let (r, f3) = greedy_rows(f2, row + 1, depth, dir, bt);
        (q + r, f3)
    }
}

/// A left shift that gives `None` for a shift of 32 or more, as `u32::checked_shl` does.
fn checked_shl(v: u32, rhs: u32) -> (r: Option<u32>)
    ensures
        rhs < 32 ==> r == Some(v << rhs),
        rhs >= 32 ==> r is None,
{
    if rhs < 32 {
        Some(v << rhs)
    } else {
        None
    }
}

/// `Vec::into_boxed_slice`: the same elements, boxed.
#[verifier::external_body]
fn into_boxed_slice(v: Vec<GreedyFace>) -> (b: Box<[GreedyFace]>)
    ensures
        b@ == v@,
{
    v.into_boxed_slice()
}

/// Merges the faces of a grid into rectangles, row by row: each run of set columns in a row
/// grows over the following rows for as long as they hold the whole run, and those rows
/// lose it. The grid is left with what the merging removed.
pub fn greedy_face(face: &mut [u32; 30], depth: u8, dir: Dir, block_type: &BlockType) -> (quads:
    Box<[GreedyFace]>)
    ensures
        quads@ == greedy_rows(old(face)@, 0, depth, dir, *block_type).0,
        final(face)@ == greedy_rows(old(face)@, 0, depth, dir, *block_type).1,
{
    let mut quads: Vec<GreedyFace> = Vec::new();
    let ghost g = greedy_rows(face@, 0, depth, dir, *block_type);
    let mut row: usize = 0;
    while row < 30
        invariant
            row <= 30,
            g.0 == quads@ + greedy_rows(face@, row as int, depth, dir, *block_type).0,
            g.1 == greedy_rows(face@, row as int, depth, dir, *block_type).1,
        decreases 30 - row,
    {
        let line = face[row];
        if line != 0 {
            let ghost fr = face@;
            let ghost qr = quads@;
            let ghost r = greedy_row(fr, row as int, line, 0, depth, dir, *block_type);
            let mut y: u32 = 0;
            while y < 30
                invariant
                    row < 30,
                    line == face@[row as int],
                    face@.len() == 30,
                    y <= 62,
                    qr + r.0 == quads@ + greedy_row(face@, row as int, line, y as int, depth, dir, *block_type).0,
                    r.1 == greedy_row(face@, row as int, line, y as int, depth, dir, *block_type).1,
                decreases 64 - y,
            {
                let shifted = face[row] >> y;
                proof {
                    lemma_trailing_zeros_bits(shifted);
                }
                let t = shifted.trailing_zeros();
                y += t;
                if y > 30 {
                    continue;
                }
                let run = line >> y;
                proof {
                    lemma_shr_bit(line, (y - t) as u32, t);
                    lemma_shr_bit(line, y, 0);
                    lemma_trailing_ones_bits(run);
                }
                let h = run.trailing_ones();
                assert(h >= 1);
                let h_mask = match checked_shl(1, h) {
                    Some(v) => {
                        assert((1u32 << h) >= 1) by (bit_vector)
                            requires
                                h < 32,
                        ;
                        v - 1
                    },
                    None => !0u32,
                };
                assert(h_mask == low_mask(h)) by {
                    if h >= 32 {
                        assert(!0u32 == 0xFFFF_FFFFu32) by (bit_vector);
                    }
                }
                let mask = h_mask << y;
                let ghost fe = face@;
                let mut w: usize = 1;
                while row + w < 30
                    invariant
                        row < 30,
                        1 <= w,
                        row + w <= 30,
                        face@.len() == 30,
                        line == face@[row as int],
                        y <= 30,
                        greedy_extend(fe, row as int, y, h_mask, mask, 1) == greedy_extend(face@, row as int, y, h_mask, mask, w as int),
                    ensures
                        greedy_extend(fe, row as int, y, h_mask, mask, 1) == (w as int, face@),
                        1 <= w,
                        row + w <= 30,
                        face@.len() == 30,
                        line == face@[row as int],
                    decreases 30 - row - w,
                {
                    let next_line = face[row + w];
                    let next_row = (next_line >> y) & h_mask;
                    if next_row != h_mask {
                        break;
                    }
                    face[row + w] &= !mask;
                    w += 1;
                }
                if w != 0 && h != 0 {
                    quads.push(GreedyFace {
                        x: row as u8,
                        y: y as u8,
                        z: depth,
                        dir,
                        width: w as u8 - 1,
                        height: h as u8 - 1,
                        block_type: *block_type,
                    });
                }
                y += h;
            }
            assert(quads@ == qr + r.0);
        }
        row = row + 1;
    }
    assert(quads@ == g.0);
    into_boxed_slice(quads)
}

/// The faces `culled_face` emits for the depths below `n` of a face grid, depth by depth.
pub open spec fn culled_grid(grid: FaceGrid, dir: Dir, bt: BlockType, n: int) -> Seq<GreedyFace>
    decreases n,
{
    if n <= 0 {
        Seq::empty()
    } else {
        culled_grid(grid, dir, bt, n - 1) + culled_rows(grid@[n - 1]@, (n - 1) as u8, dir, bt, 30)
    }
}

/// The faces of the block slots below `n` of one direction, slot by slot.
pub open spec fn culled_dir(grids: BlockGrids, dir: Dir, n: int) -> Seq<GreedyFace>
    decreases n,
{
    if n <= 0 {
        Seq::empty()
    } else {
        culled_dir(grids, dir, n - 1) + culled_grid(grids@[n - 1], dir, slot_block(n - 1), 30)
    }
}

/// The faces of the directions below `n`, direction by direction.
pub open spec fn culled_all(t: [BlockGrids; 6], n: int) -> Seq<GreedyFace>
    decreases n,
{
    if n <= 0 {
        Seq::empty()
    } else {
        culled_all(t, n - 1) + culled_dir(t@[n - 1], dir_of_index((n - 1) as nat), 5)
    }
}

/// The rectangles `greedy_face` finds for the depths below `n` of a face grid.
pub open spec fn greedy_grid(grid: FaceGrid, dir: Dir, bt: BlockType, n: int) -> Seq<GreedyFace>
    decreases n,
{
    if n <= 0 {
        Seq::empty()
    } else {
        greedy_grid(grid, dir, bt, n - 1) + greedy_rows(grid@[n - 1]@, 0, (n - 1) as u8, dir, bt).0
    }
}

/// The rectangles of the block slots below `n` of one direction.
pub open spec fn greedy_dir(grids: BlockGrids, dir: Dir, n: int) -> Seq<GreedyFace>
    decreases n,
{
    if n <= 0 {
        Seq::empty()
    } else {
        greedy_dir(grids, dir, n - 1) + greedy_grid(grids@[n - 1], dir, slot_block(n - 1), 30)
    }
}

/// The rectangles of the directions below `n`.
pub open spec fn greedy_all(t: [BlockGrids; 6], n: int) -> Seq<GreedyFace>
    decreases n,
{
    if n <= 0 {
        Seq::empty()
    } else {
        greedy_all(t, n - 1) + greedy_dir(t@[n - 1], dir_of_index((n - 1) as nat), 5)
    }
}

fn block_of_slot(s: usize) -> (b: BlockType)
    requires
        s < 5,
    ensures
        b == slot_block(s as int),
{
    match s {
        0 => BlockType::Invalid,
        1 => BlockType::Air,
        2 => BlockType::Grass,
        3 => BlockType::Stone,
        _ => BlockType::Snow,
    }
}

/// Every face of every grid, one per set bit, direction by direction, block type by block
/// type, depth by depth.
pub fn culled_faces(faces: TransformedBlockDepths) -> (culled: Vec<GreedyFace>)
    ensures
        culled@ == culled_all(*faces, 6),
{
    let mut culled: Vec<GreedyFace> = Vec::new();
    let dirs = Dir::all();
    let mut d: usize = 0;
    while d < 6
        invariant
            d <= 6,
            forall|i: int| 0 <= i < 6 ==> dir_index(#[trigger] dirs@[i]) == i,
            culled@ == culled_all(*faces, d as int),
        decreases 6 - d,
    {
        let dir = dirs[d];
        assert(dir == dir_of_index(d as nat)) by {
            assert(dir_index(dir) == d);
        }
        let ghost before = culled@;
        let mut s: usize = 0;
        while s < 5
            invariant
                d < 6,
                s <= 5,
                dir == dir_of_index(d as nat),
                culled@ == before + culled_dir(faces@[d as int], dir, s as int),
            decreases 5 - s,
        {
            let block_type = block_of_slot(s);
            let ghost before_s = culled@;
            let mut depth: usize = 0;
            while depth < 30
                invariant
                    d < 6,
                    s < 5,
                    depth <= 30,
                    block_type == slot_block(s as int),
                    culled@ == before_s + culled_grid(faces@[d as int]@[s as int], dir, block_type, depth as int),
                decreases 30 - depth,
            {
                let mut quads = culled_face(&faces[d][s][depth], depth as u8, dir, &block_type);
                culled.append(&mut quads);
                depth = depth + 1;
            }
            s = s + 1;
        }
        d = d + 1;
    }
    culled
}

/// Every face of every grid merged into rectangles, direction by direction, block type by
/// block type, depth by depth.
pub fn greedy_faces(depths: TransformedBlockDepths) -> (greedy: Vec<GreedyFace>)
    ensures
        greedy@ == greedy_all(*depths, 6),
{
    let mut depths = depths;
    let ghost t0 = *depths;
    let mut greedy: Vec<GreedyFace> = Vec::new();
    let dirs = Dir::all();
    let mut d: usize = 0;
    while d < 6
        invariant
            d <= 6,
            forall|i: int| 0 <= i < 6 ==> dir_index(#[trigger] dirs@[i]) == i,
            forall|i: int| d <= i < 6 ==> #[trigger] depths@[i] == t0@[i],
            greedy@ == greedy_all(t0, d as int),
        decreases 6 - d,
    {
        let dir = dirs[d];
        assert(dir == dir_of_index(d as nat)) by {
            assert(dir_index(dir) == d);
        }
        let ghost before = greedy@;
        let mut s: usize = 0;
        while s < 5
            invariant
                d < 6,
                s <= 5,
                dir == dir_of_index(d as nat),
                forall|i: int| d < i < 6 ==> #[trigger] depths@[i] == t0@[i],
                forall|j: int| s <= j < 5 ==> #[trigger] depths@[d as int]@[j] == t0@[d as int]@[j],
                greedy@ == before + greedy_dir(t0@[d as int], dir, s as int),
            decreases 5 - s,
        {
            let block_type = block_of_slot(s);
            let ghost before_s = greedy@;
            let mut depth: usize = 0;
            while depth < 30
                invariant
                    d < 6,
                    s < 5,
                    depth <= 30,
                    block_type == slot_block(s as int),
                    forall|i: int| d < i < 6 ==> #[trigger] depths@[i] == t0@[i],
                    forall|j: int| s < j < 5 ==> #[trigger] depths@[d as int]@[j] == t0@[d as int]@[j],
                    forall|k: int| depth <= k < 30 ==> #[trigger] depths@[d as int]@[s as int]@[k] == t0@[d as int]@[s as int]@[k],
                    greedy@ == before_s + greedy_grid(t0@[d as int]@[s as int], dir, block_type, depth as int),
                decreases 30 - depth,
            {
                let quads = greedy_face(&mut depths[d][s][depth], depth as u8, dir, &block_type);
                let mut v = quads.into_vec();
                greedy.append(&mut v);
                depth = depth + 1;
            }
            s = s + 1;
        }
        d = d + 1;
    }
    greedy
}

/// `c` holds the culled columns of `depths`, as `cull_depths` lays them out.
pub open spec fn culled_from(c: [DepthPlane; 6], depths: AxisDepths) -> bool {
    forall|a: int, i: int, j: int|
        0 <= a < 3 && 0 <= i < 32 && 0 <= j < 32 ==> #[trigger] c@[2 * a]@[i]@[j] == cull_low(
            depths@[a]@[i]@[j],
        ) && c@[2 * a + 1]@[i]@[j] == cull_high(depths@[a]@[i]@[j])
}

/// `t` holds, for every direction, the face grids of the culled columns `c` over `chunk`.
pub open spec fn grids_from(t: [BlockGrids; 6], c: [DepthPlane; 6], refs: ChunkRefs) -> bool {
    forall|dir: int| 0 <= dir < 6 ==> grids_match(#[trigger] t@[dir], c, *refs.chunk, dir)
}

/// Culls the depth masks of a chunk, sorts the faces into grids by block type and emits one
/// face per grid bit.
pub fn make_culled_faces(refs: &ChunkRefs, depths: &AxisDepths) -> (faces: Vec<GreedyFace>)
    ensures
        exists|c: [DepthPlane; 6], t: [BlockGrids; 6]|
            culled_from(c, *depths) && grids_from(t, c, *refs) && faces@ == culled_all(t, 6),
        all_faces_fit(faces@),
        voxels_valid(*refs.chunk) ==> no_invalid_faces(faces@),
        depths_match(*depths, *refs) ==> all_fit_solid(faces@),
        depths_match(*depths, *refs) ==> faces@.no_duplicates() && forall|f: GreedyFace|
            faces@.contains(f) == #[trigger] is_culled_face(*refs, f),
{
    let culled = cull_depths(depths);
    let ghost c = *culled;
    let block_faces = depths_to_faces(culled, refs);
    let ghost t = *block_faces;
    let faces = culled_faces(block_faces);
    assert(culled_from(c, *depths) && grids_from(t, c, *refs) && faces@ == culled_all(t, 6));
    proof {
        lemma_faces_fit(c, t, *refs);
        if depths_match(*depths, *refs) {
            lemma_culled_faces_valid(*depths, *refs, c, t);
            lemma_culled_faces_exact(*depths, *refs, c, t);
        }
    }
    faces
}

/// Culls the depth masks of a chunk, sorts the faces into grids by block type and merges
/// them into rectangles.
pub fn make_greedy_faces(chunks: &ChunkRefs, depths: &AxisDepths) -> (faces: Vec<GreedyFace>)
    ensures
        exists|c: [DepthPlane; 6], t: [BlockGrids; 6]|
            culled_from(c, *depths) && grids_from(t, c, *chunks) && faces@ == greedy_all(t, 6),
        all_faces_fit(faces@),
        voxels_valid(*chunks.chunk) ==> no_invalid_faces(faces@),
        depths_match(*depths, *chunks) ==> all_fit_solid(faces@),
        depths_match(*depths, *chunks) ==> faces_disjoint(faces@) && forall|f: GreedyFace|
            f.width == 0 && f.height == 0 ==> #[trigger] is_culled_face(*chunks, f) == covers_face(
                faces@,
                f.dir,
                f.block_type,
                f.z as int,
                f.x as int,
                f.y as int,
            ),
{
    let culled = cull_depths(depths);
    let ghost c = *culled;
    let block_faces = depths_to_faces(culled, chunks);
    let ghost t = *block_faces;
    let faces = greedy_faces(block_faces);
    assert(culled_from(c, *depths) && grids_from(t, c, *chunks) && faces@ == greedy_all(t, 6));
    proof {
        lemma_faces_fit(c, t, *chunks);
        if depths_match(*depths, *chunks) {
            lemma_greedy_faces_valid(*depths, *chunks, c, t);
            lemma_greedy_faces_exact(*depths, *chunks, c, t);
        }
    }
    faces
}

/// The culled columns of a depth mask are unique, so `make_culled_faces` and
/// `make_greedy_faces` name a single outcome.
pub proof fn lemma_culled_from_unique(c1: [DepthPlane; 6], c2: [DepthPlane; 6], depths: AxisDepths)
    requires
        culled_from(c1, depths),
        culled_from(c2, depths),
    ensures
        c1 == c2,
{
    assert forall|p: int| 0 <= p < 6 implies #[trigger] c1@[p] == c2@[p] by {
        let a = p / 2;
        assert forall|i: int| 0 <= i < 32 implies #[trigger] c1@[p]@[i] == c2@[p]@[i] by {
            assert forall|j: int| 0 <= j < 32 implies #[trigger] c1@[p]@[i]@[j] == c2@[p]@[i]@[j] by {
                assert(c1@[2 * a]@[i]@[j] == c2@[2 * a]@[i]@[j]);
            }
            assert(c1@[p]@[i] =~= c2@[p]@[i]);
        }
        assert(c1@[p] =~= c2@[p]);
    }
    assert(c1 =~= c2);
}

/// The face grids of culled columns are unique.
pub proof fn lemma_grids_from_unique(
    t1: [BlockGrids; 6],
    t2: [BlockGrids; 6],
    c: [DepthPlane; 6],
    refs: ChunkRefs,
)
    requires
        grids_from(t1, c, refs),
        grids_from(t2, c, refs),
    ensures
        t1 == t2,
{
    assert forall|d: int| 0 <= d < 6 implies #[trigger] t1@[d] == t2@[d] by {
        assert(grids_match(t1@[d], c, *refs.chunk, d));
        assert(grids_match(t2@[d], c, *refs.chunk, d));
        assert forall|s: int| 0 <= s < 5 implies #[trigger] t1@[d]@[s] == t2@[d]@[s] by {
            assert forall|y: int| 0 <= y < 30 implies #[trigger] t1@[d]@[s]@[y] == t2@[d]@[s]@[y] by {
                assert forall|x: int| 0 <= x < 30 implies #[trigger] t1@[d]@[s]@[y]@[x] == t2@[d]@[s]@[y]@[x] by {
                    assert forall|b: u32| b < 32 implies crate::bits::bit_set(t1@[d]@[s]@[y]@[x], b)
                        == crate::bits::bit_set(t2@[d]@[s]@[y]@[x], b) by {
                        assert(crate::bits::bit_set(t1@[d]@[s]@[y]@[x], b) == crate::meshing::face_grid_bit(c, *refs.chunk, d, s, y, x, b as int));
                        assert(crate::bits::bit_set(t2@[d]@[s]@[y]@[x], b) == crate::meshing::face_grid_bit(c, *refs.chunk, d, s, y, x, b as int));
                    }
                    crate::bits::lemma_bits_ext(t1@[d]@[s]@[y]@[x], t2@[d]@[s]@[y]@[x]);
                }
                assert(t1@[d]@[s]@[y] =~= t2@[d]@[s]@[y]);
            }
            assert(t1@[d]@[s] =~= t2@[d]@[s]);
        }
        assert(t1@[d] =~= t2@[d]);
    }
    assert(t1 =~= t2);
}

/// The culled columns at axis `a`, row `i`, column `j`.
pub proof fn lemma_culled_at(c: [DepthPlane; 6], depths: AxisDepths, a: int, i: int, j: int)
    requires
        culled_from(c, depths),
        0 <= a < 3,
        0 <= i < 32,
        0 <= j < 32,
    ensures
        c@[2 * a]@[i]@[j] == cull_low(depths@[a]@[i]@[j]),
        c@[2 * a + 1]@[i]@[j] == cull_high(depths@[a]@[i]@[j]),
{
    assert(c@[2 * a]@[i]@[j] == cull_low(depths@[a]@[i]@[j]));
}

} // verus!
