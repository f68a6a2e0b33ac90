use vstd::prelude::*;

use crate::bits::{bit_set, lemma_bit_or, lemma_bit_zero, lemma_bits_ext};
use vstd::std_specs::bits::{axiom_u32_trailing_zeros, u32_trailing_zeros};
use crate::block::{block_is_solid, BasicVoxel, BlockType};
use crate::directions::Dir;

verus! {

/// The side length of a chunk, in voxels.
pub const CHUNK_SIZE: usize = 30;

/// The side length of a chunk with one voxel of padding on each side.
pub const CHUNK_SIZE_P: usize = 32;

/// The voxels of a chunk, indexed `[x][y][z]`.
pub type VoxelArray = [[[BasicVoxel; 30]; 30]; 30];

/// One plane of depth columns: a word per column, one bit per padded voxel along it.
pub type DepthPlane = [[u32; 32]; 32];

/// The solidity of the padded chunk along each axis. Plane X is indexed `[y][z]` with a bit
/// per x, plane Y `[z][x]` with a bit per y, plane Z `[y][x]` with a bit per z.
pub type AxisDepths = [DepthPlane; 3];

/// The faces found along each axis: for each direction, a plane laid out as the axis plane
/// it was culled from, with a bit where a face lies.
pub type FaceDepths = Box<[DepthPlane; 6]>;

/// A face grid: `[depth][row]`, with a bit per column of the face plane.
pub type FaceGrid = [[u32; 30]; 30];

/// The face grids of one direction, one per block type (by `block_slot`).
pub type BlockGrids = [FaceGrid; 5];

/// The face grids of every direction and block type.
pub type TransformedBlockDepths = Box<[BlockGrids; 6]>;

/// A chunk and its six neighbours, by the side of the chunk they were read from.
pub struct ChunkRefs<'a> {
    pub chunk: &'a VoxelArray,
    pub x_pos: &'a VoxelArray,
    pub y_pos: &'a VoxelArray,
    pub z_pos: &'a VoxelArray,
    pub x_neg: &'a VoxelArray,
    pub y_neg: &'a VoxelArray,
    pub z_neg: &'a VoxelArray,
}

/// Whether the voxel at `[x][y][z]` of `a` is solid.
pub open spec fn voxel_solid(a: VoxelArray, x: int, y: int, z: int) -> bool {
    block_is_solid(a@[x]@[y]@[z].block_type)
}

/// The block type at `[x][y][z]` of `a`.
pub open spec fn voxel_type(a: VoxelArray, x: int, y: int, z: int) -> BlockType {
    a@[x]@[y]@[z].block_type
}

/// Whether a padded coordinate lies inside the chunk (padded 1 to 30 are the chunk's
/// 0 to 29).
pub open spec fn inner(p: int) -> bool {
    1 <= p <= 30
}

/// The solidity of the padded chunk at padded coordinates `(px, py, pz)`: the chunk inside,
/// one face layer of a neighbour on each side, and empty edges and corners. Padded 0 takes
/// the first layer of the `pos` neighbour and padded 31 the last layer of the `neg`
/// neighbour: each border copy sits at the side opposite the neighbour it comes from.
pub open spec fn padded_solid(refs: ChunkRefs, px: int, py: int, pz: int) -> bool {
    if inner(px) && inner(py) && inner(pz) {
        voxel_solid(*refs.chunk, px - 1, py - 1, pz - 1)
    } else if inner(py) && inner(pz) && px == 0 {
        voxel_solid(*refs.x_pos, 0, py - 1, pz - 1)
    } else if inner(py) && inner(pz) && px == 31 {
        voxel_solid(*refs.x_neg, 29, py - 1, pz - 1)
    } else if inner(px) && inner(py) && pz == 0 {
        voxel_solid(*refs.z_pos, px - 1, py - 1, 0)
    } else if inner(px) && inner(py) && pz == 31 {
        voxel_solid(*refs.z_neg, px - 1, py - 1, 29)
    } else if inner(px) && inner(pz) && py == 0 {
        voxel_solid(*refs.y_pos, px - 1, 0, pz - 1)
    } else if inner(px) && inner(pz) && py == 31 {
        voxel_solid(*refs.y_neg, px - 1, 29, pz - 1)
    } else {
        false
    }
}

/// What bit `k` of the depth word `[a][i][j]` holds: the padded solidity of the voxel that
/// the word's axis, row and column, and the bit, name.
pub open spec fn depth_bit(refs: ChunkRefs, a: int, i: int, j: int, k: int) -> bool {
    if a == 0 {
        padded_solid(refs, k, i, j)
    } else if a == 1 {
        padded_solid(refs, j, k, i)
    } else {
        padded_solid(refs, j, i, k)
    }
}

/// `d` holds, for every axis, row, column and bit, what `depth_bit` says.
pub open spec fn depths_match(d: AxisDepths, refs: ChunkRefs) -> bool {
    forall|a: int, i: int, j: int, k: u32|
        0 <= a < 3 && 0 <= i < 32 && 0 <= j < 32 && k < 32 ==> #[trigger] bit_set(
            d@[a]@[i]@[j],
            k,
        ) == depth_bit(refs, a, i, j, k as int)
}

/// What each bit of a depth mask tells, read off the arrays themselves. The three planes
/// agree on each padded point `(px, py, pz)`: bit `px` of word `[0][py][pz]`, bit `py` of
/// `[1][pz][px]` and bit `pz` of `[2][py][px]`. Inside, that is the solidity of the chunk's
/// voxel `[px - 1][py - 1][pz - 1]`; padded 0 along an axis is the first layer of the
/// neighbour on that axis's `pos` side and padded 31 the last layer of the one on its `neg`
/// side; the edges and corners of the padded cube are empty.
pub open spec fn mask_reads_sides(
    d: AxisDepths,
    chunk: VoxelArray,
    x_pos: VoxelArray,
    y_pos: VoxelArray,
    z_pos: VoxelArray,
    x_neg: VoxelArray,
    y_neg: VoxelArray,
    z_neg: VoxelArray,
) -> bool {
    &&& forall|px: int, py: int, pz: int|
        0 <= px < 32 && 0 <= py < 32 && 0 <= pz < 32 ==> {
            &&& #[trigger] bit_set(d[0][py][pz], px as u32) == bit_set(d[1][pz][px], py as u32)
            &&& bit_set(d[0][py][pz], px as u32) == bit_set(d[2][py][px], pz as u32)
        }
    &&& forall|px: int, py: int, pz: int|
        1 <= px <= 30 && 1 <= py <= 30 && 1 <= pz <= 30 ==> #[trigger] bit_set(d[0][py][pz], px as u32)
            == block_is_solid(chunk[px - 1][py - 1][pz - 1].block_type)
    &&& forall|i: int, j: int|
        1 <= i <= 30 && 1 <= j <= 30 ==> {
            &&& #[trigger] bit_set(d[0][i][j], 0) == block_is_solid(x_pos[0][i - 1][j - 1].block_type)
            &&& bit_set(d[0][i][j], 31) == block_is_solid(x_neg[29][i - 1][j - 1].block_type)
            &&& bit_set(d[1][i][j], 0) == block_is_solid(y_pos[j - 1][0][i - 1].block_type)
            &&& bit_set(d[1][i][j], 31) == block_is_solid(y_neg[j - 1][29][i - 1].block_type)
            &&& bit_set(d[2][i][j], 0) == block_is_solid(z_pos[j - 1][i - 1][0].block_type)
            &&& bit_set(d[2][i][j], 31) == block_is_solid(z_neg[j - 1][i - 1][29].block_type)
        }
    &&& forall|px: int, py: int, pz: int|
        0 <= px < 32 && 0 <= py < 32 && 0 <= pz < 32 && ((!(1 <= px <= 30) && !(1 <= py <= 30)) || (!(1 <= px <= 30)
            && !(1 <= pz <= 30)) || (!(1 <= py <= 30) && !(1 <= pz <= 30))) ==> !#[trigger] bit_set(d[0][py][pz], px as u32)
}

/// A depth mask that matches a padded chunk reads each voxel from where it belongs: the
/// chunk inside, the first layer of each `pos` neighbour at padded 0, the last layer of each
/// `neg` neighbour at padded 31, nothing on the edges (see `mask_reads_sides`).
pub proof fn lemma_mask_reads_sides(d: AxisDepths, refs: ChunkRefs)
    requires
        depths_match(d, refs),
    ensures
        mask_reads_sides(d, *refs.chunk, *refs.x_pos, *refs.y_pos, *refs.z_pos, *refs.x_neg, *refs.y_neg, *refs.z_neg),
{
    assert forall|px: int, py: int, pz: int|
        0 <= px < 32 && 0 <= py < 32 && 0 <= pz < 32 implies {
            &&& #[trigger] bit_set(d[0][py][pz], px as u32) == bit_set(d[1][pz][px], py as u32)
            &&& bit_set(d[0][py][pz], px as u32) == bit_set(d[2][py][px], pz as u32)
        } by {
        assert(bit_set(d@[0]@[py]@[pz], px as u32) == depth_bit(refs, 0, py, pz, px));
        assert(bit_set(d@[1]@[pz]@[px], py as u32) == depth_bit(refs, 1, pz, px, py));
        assert(bit_set(d@[2]@[py]@[px], pz as u32) == depth_bit(refs, 2, py, px, pz));
    }
    assert forall|i: int, j: int|
        1 <= i <= 30 && 1 <= j <= 30 implies {
            &&& #[trigger] bit_set(d[0][i][j], 0) == block_is_solid((*refs.x_pos)[0][i - 1][j - 1].block_type)
            &&& bit_set(d[0][i][j], 31) == block_is_solid((*refs.x_neg)[29][i - 1][j - 1].block_type)
            &&& bit_set(d[1][i][j], 0) == block_is_solid((*refs.y_pos)[j - 1][0][i - 1].block_type)
            &&& bit_set(d[1][i][j], 31) == block_is_solid((*refs.y_neg)[j - 1][29][i - 1].block_type)
            &&& bit_set(d[2][i][j], 0) == block_is_solid((*refs.z_pos)[j - 1][i - 1][0].block_type)
            &&& bit_set(d[2][i][j], 31) == block_is_solid((*refs.z_neg)[j - 1][i - 1][29].block_type)
        } by {
        assert(bit_set(d@[0]@[i]@[j], 0) == depth_bit(refs, 0, i, j, 0));
        assert(bit_set(d@[0]@[i]@[j], 31) == depth_bit(refs, 0, i, j, 31));
        assert(bit_set(d@[1]@[i]@[j], 0) == depth_bit(refs, 1, i, j, 0));
        assert(bit_set(d@[1]@[i]@[j], 31) == depth_bit(refs, 1, i, j, 31));
        assert(bit_set(d@[2]@[i]@[j], 0) == depth_bit(refs, 2, i, j, 0));
        assert(bit_set(d@[2]@[i]@[j], 31) == depth_bit(refs, 2, i, j, 31));
    }
    assert forall|px: int, py: int, pz: int|
        0 <= px < 32 && 0 <= py < 32 && 0 <= pz < 32 implies #[trigger] bit_set(d[0][py][pz], px as u32)
            == padded_solid(refs, px, py, pz) by {
        assert(bit_set(d@[0]@[py]@[pz], px as u32) == depth_bit(refs, 0, py, pz, px));
    }
}

fn solid(a: &VoxelArray, x: usize, y: usize, z: usize) -> (r: bool)
    requires
        x < 30,
        y < 30,
        z < 30,
    ensures
        r == voxel_solid(*a, x as int, y as int, z as int),
{
    a[x][y][z].block_type.is_solid()
}

fn padded_solid_at(refs: &ChunkRefs, px: usize, py: usize, pz: usize) -> (r: bool)
    requires
        px < 32,
        py < 32,
        pz < 32,
    ensures
        r == padded_solid(*refs, px as int, py as int, pz as int),
{
    let ix = 1 <= px && px <= 30;
    let iy = 1 <= py && py <= 30;
    let iz = 1 <= pz && pz <= 30;
    if ix && iy && iz {
        solid(refs.chunk, px - 1, py - 1, pz - 1)
    } else if iy && iz && px == 0 {
        solid(refs.x_pos, 0, py - 1, pz - 1)
    } else if iy && iz && px == 31 {
        solid(refs.x_neg, 29, py - 1, pz - 1)
    } else if ix && iy && pz == 0 {
        solid(refs.z_pos, px - 1, py - 1, 0)
    } else if ix && iy && pz == 31 {
        solid(refs.z_neg, px - 1, py - 1, 29)
    } else if ix && iz && py == 0 {
        solid(refs.y_pos, px - 1, 0, pz - 1)
    } else if ix && iz && py == 31 {
        solid(refs.y_neg, px - 1, 29, pz - 1)
    } else {
        false
    }
}

fn depth_column(refs: &ChunkRefs, a: usize, i: usize, j: usize) -> (w: u32)
    requires
        a < 3,
        i < 32,
        j < 32,
    ensures
        forall|k: u32| k < 32 ==> #[trigger] bit_set(w, k) == depth_bit(
            *refs,
            a as int,
            i as int,
            j as int,
            k as int,
        ),
{
    let mut w: u32 = 0;
    let mut k: u32 = 0;
    assert forall|b: u32| b < 32 implies !#[trigger] bit_set(w, b) by {
        lemma_bit_zero(b);
    }
    while k < 32
        invariant
            a < 3,
            i < 32,
            j < 32,
            k <= 32,
            forall|b: u32| b < 32 ==> #[trigger] bit_set(w, b) == (b < k && depth_bit(
                *refs,
                a as int,
                i as int,
                j as int,
                b as int,
            )),
        decreases 32 - k,
    {
        let ku = k as usize;
        let s = if a == 0 {
            padded_solid_at(refs, ku, i, j)
        } else if a == 1 {
            padded_solid_at(refs, j, ku, i)
        } else {
            padded_solid_at(refs, j, i, ku)
        };
        let ghost old_w = w;
        if s {
            w = w | (1u32 << k);
        }
        assert forall|b: u32| b < 32 implies #[trigger] bit_set(w, b) == (b < k + 1
            && depth_bit(*refs, a as int, i as int, j as int, b as int)) by {
            if s {
                lemma_bit_or(old_w, k, b);
            }
        }
        k = k + 1;
    }
    w
}

fn depth_plane(refs: &ChunkRefs, a: usize) -> (p: DepthPlane)
    requires
        a < 3,
    ensures
        forall|i: int, j: int, k: u32|
            0 <= i < 32 && 0 <= j < 32 && k < 32 ==> #[trigger] bit_set(p@[i]@[j], k)
                == depth_bit(*refs, a as int, i, j, k as int),
{
    let mut p: DepthPlane = [[0u32; 32]; 32];
    let mut i: usize = 0;
    while i < 32
        invariant
            a < 3,
            i <= 32,
            forall|i2: int, j: int, k: u32|
                0 <= i2 < i && 0 <= j < 32 && k < 32 ==> #[trigger] bit_set(p@[i2]@[j], k)
                    == depth_bit(*refs, a as int, i2, j, k as int),
        decreases 32 - i,
    {
        let mut row = [0u32; 32];
        let mut j: usize = 0;
        while j < 32
            invariant
                a < 3,
                i < 32,
                j <= 32,
                forall|j2: int, k: u32|
                    0 <= j2 < j && k < 32 ==> #[trigger] bit_set(row@[j2], k) == depth_bit(
                        *refs,
                        a as int,
                        i as int,
                        j2,
                        k as int,
                    ),
            decreases 32 - j,
        {
            row[j] = depth_column(refs, a, i, j);
            j = j + 1;
        }
        p[i] = row;
        i = i + 1;
    }
    p
}

/// Builds the depth masks of a chunk: for each axis, a word per column of the padded chunk
/// with a bit set where that padded voxel is solid.
pub fn build_depths(chunks: &ChunkRefs) -> (d: Box<AxisDepths>)
    ensures
        depths_match(*d, *chunks),
{
    let x = depth_plane(chunks, 0);
    let y = depth_plane(chunks, 1);
    let z = depth_plane(chunks, 2);
    Box::new([x, y, z])
}

/// The faces towards the low end of a column: the solid bits whose lower neighbour is empty.
pub open spec fn cull_low(col: u32) -> u32 {
    col & !(col << 1u32)
}

/// The faces towards the high end of a column: the solid bits whose upper neighbour is empty.
pub open spec fn cull_high(col: u32) -> u32 {
    col & !(col >> 1u32)
}

/// A bit of `cull_low` is set where the column's bit is set and the bit below is not.
pub proof fn lemma_cull_low_bit(col: u32, k: u32)
    requires
        k < 32,
    ensures
        bit_set(cull_low(col), k) == (bit_set(col, k) && (k == 0 || !bit_set(
            col,
            (k - 1) as u32,
        ))),
{
    if k == 0 {
        assert((((col & !(col << 1u32)) >> 0u32) & 1 == 1) == ((col >> 0u32) & 1 == 1))
            by (bit_vector);
    } else {
        assert((((col & !(col << 1u32)) >> k) & 1 == 1) == (((col >> k) & 1 == 1) && !((col >> (
        (k - 1) as u32)) & 1 == 1))) by (bit_vector)
            requires
                0 < k < 32,
        ;
    }
}

/// A bit of `cull_high` is set where the column's bit is set and the bit above is not.
pub proof fn lemma_cull_high_bit(col: u32, k: u32)
    requires
        k < 32,
    ensures
        bit_set(cull_high(col), k) == (bit_set(col, k) && (k == 31 || !bit_set(
            col,
            (k + 1) as u32,
        ))),
{
    if k == 31 {
        assert((((col & !(col >> 1u32)) >> 31u32) & 1 == 1) == ((col >> 31u32) & 1 == 1))
            by (bit_vector);
    } else {
        assert((((col & !(col >> 1u32)) >> k) & 1 == 1) == (((col >> k) & 1 == 1) && !((col >> (
        (k + 1) as u32)) & 1 == 1))) by (bit_vector)
            requires
                k < 31,
        ;
    }
}

fn cull_plane(plane: &DepthPlane, low: bool) -> (p: DepthPlane)
    ensures
        forall|i: int, j: int|
            0 <= i < 32 && 0 <= j < 32 ==> #[trigger] p@[i]@[j] == if low {
                cull_low(plane@[i]@[j])
            } else {
                cull_high(plane@[i]@[j])
            },
{
    let mut p: DepthPlane = [[0u32; 32]; 32];
    let mut i: usize = 0;
    while i < 32
        invariant
            i <= 32,
            forall|i2: int, j: int|
                0 <= i2 < i && 0 <= j < 32 ==> #[trigger] p@[i2]@[j] == if low {
                    cull_low(plane@[i2]@[j])
                } else {
                    cull_high(plane@[i2]@[j])
                },
        decreases 32 - i,
    {
        let mut row = [0u32; 32];
        let mut j: usize = 0;
        while j < 32
            invariant
                i < 32,
                j <= 32,
                forall|j2: int|
                    0 <= j2 < j ==> #[trigger] row@[j2] == if low {
                        cull_low(plane@[i as int]@[j2])
                    } else {
                        cull_high(plane@[i as int]@[j2])
                    },
            decreases 32 - j,
        {
            let col = plane[i][j];
            row[j] = if low {
                col & !(col << 1)
            } else {
                col & !(col >> 1)
            };
            j = j + 1;
        }
        p[i] = row;
        i = i + 1;
    }
    p
}

/// Finds the faces along each axis: where a solid voxel meets an empty one, looking down the
/// axis (even planes, the faces on the low side) or up it (odd planes, the high side).
pub fn cull_depths(depths: &AxisDepths) -> (f: FaceDepths)
    ensures
        forall|a: int, i: int, j: int|
            0 <= a < 3 && 0 <= i < 32 && 0 <= j < 32 ==> #[trigger] f@[2 * a]@[i]@[j]
                == cull_low(depths@[a]@[i]@[j]) && f@[2 * a + 1]@[i]@[j] == cull_high(
                depths@[a]@[i]@[j],
            ),
{
    let l = cull_plane(&depths[0], true);
    let r = cull_plane(&depths[0], false);
    let u = cull_plane(&depths[1], true);
    let d = cull_plane(&depths[1], false);
    let fw = cull_plane(&depths[2], true);
    let bw = cull_plane(&depths[2], false);
    let f: FaceDepths = Box::new([l, r, u, d, fw, bw]);
    assert forall|a: int, i: int, j: int|
        0 <= a < 3 && 0 <= i < 32 && 0 <= j < 32 implies #[trigger] f@[2 * a]@[i]@[j]
            == cull_low(depths@[a]@[i]@[j]) && f@[2 * a + 1]@[i]@[j] == cull_high(
            depths@[a]@[i]@[j],
        ) by {
        if a == 0 {
        } else if a == 1 {
        } else {
        }
    }
    f
}

/// The slot of a block type among a direction's face grids.
pub open spec fn block_slot(b: BlockType) -> int {
    match b {
        BlockType::Invalid => 0,
        BlockType::Air => 1,
        BlockType::Grass => 2,
        BlockType::Stone => 3,
        BlockType::Snow => 4,
    }
}

/// The block type of a face grid slot.
pub open spec fn slot_block(s: int) -> BlockType {
    if s == 0 {
        BlockType::Invalid
    } else if s == 1 {
        BlockType::Air
    } else if s == 2 {
        BlockType::Grass
    } else if s == 3 {
        BlockType::Stone
    } else {
        BlockType::Snow
    }
}

fn slot_of(b: BlockType) -> (s: usize)
    ensures
        s == block_slot(b),
        s < 5,
{
    match b {
        BlockType::Invalid => 0,
        BlockType::Air => 1,
        BlockType::Grass => 2,
        BlockType::Stone => 3,
        BlockType::Snow => 4,
    }
}

/// The block type of the voxel behind a face of direction `dir` at grid position depth `y`,
/// row `x`, column `z`.
pub open spec fn face_voxel(chunk: VoxelArray, dir: int, x: int, y: int, z: int) -> BlockType {
    if dir == 2 || dir == 3 {
        voxel_type(chunk, x, y, z)
    } else if dir == 0 || dir == 1 {
        voxel_type(chunk, y, z, x)
    } else {
        voxel_type(chunk, x, z, y)
    }
}

/// Bit `z` of the face grid word `[slot][y][x]` of direction `dir`: set where the culled
/// column `[z + 1][x + 1]` has a face at padded depth `y + 1` and the voxel behind it has the
/// slot's block type.
pub open spec fn face_grid_bit(
    faces: [DepthPlane; 6],
    chunk: VoxelArray,
    dir: int,
    s: int,
    y: int,
    x: int,
    z: int,
) -> bool {
    &&& y < 30
    &&& x < 30
    &&& z < 30
    &&& bit_set(faces@[dir]@[z + 1]@[x + 1], (y + 1) as u32)
    &&& block_slot(face_voxel(chunk, dir, x, y, z)) == s
}

/// `grids` holds for direction `dir` exactly the bits that `face_grid_bit` says.
pub open spec fn grids_match(
    grids: BlockGrids,
    faces: [DepthPlane; 6],
    chunk: VoxelArray,
    dir: int,
) -> bool {
    forall|s: int, y: int, x: int, z: u32|
        0 <= s < 5 && 0 <= y < 30 && 0 <= x < 30 && z < 32 ==> #[trigger] bit_set(
            grids@[s]@[y]@[x],
            z,
        ) == face_grid_bit(faces, chunk, dir, s, y, x, z as int)
}

proof fn lemma_lowest_bit_clear(c: u32, t: u32, b: u32)
    requires
        t < 32,
        b < 32,
        (c >> t) & 1 == 1,
        c & (((1u32 << t) - 1) as u32) == 0,
    ensures
        bit_set(c & ((c - 1) as u32), b) == (bit_set(c, b) && b != t),
        c & ((c - 1) as u32) < c,
{
    assert((((c & ((c - 1) as u32)) >> b) & 1 == 1) == (((c >> b) & 1 == 1) && b != t))
        by (bit_vector)
        requires
            t < 32,
            b < 32,
            (c >> t) & 1 == 1,
            c & (((1u32 << t) - 1) as u32) == 0,
    ;
    assert(c & ((c - 1) as u32) < c) by (bit_vector)
        requires
            (c >> t) & 1 == 1,
            t < 32,
    ;
}

proof fn lemma_trailing_zeros(c: u32)
    requires
        c != 0,
    ensures
        u32_trailing_zeros(c) < 32,
        bit_set(c, u32_trailing_zeros(c)),
        c & (((1u32 << u32_trailing_zeros(c)) - 1) as u32) == 0,
{
    axiom_u32_trailing_zeros(c);
    let t = u32_trailing_zeros(c);
    let m = c & (((1u32 << t) - 1) as u32);
    assert forall|b: u32| b < 32 implies bit_set(m, b) == bit_set(0u32, b) by {
        lemma_bit_zero(b);
        if b < t {
            assert((c >> b) & 1u32 == 0u32);
            assert(((c >> b) & 1u32 == 0u32) ==> (((c & (((1u32 << t) - 1) as u32)) >> b) & 1
                == 0)) by (bit_vector)
                requires
                    t < 32,
                    b < t,
            ;
        } else {
            assert(((c & (((1u32 << t) - 1) as u32)) >> b) & 1 == 0) by (bit_vector)
                requires
                    t < 32,
                    b >= t,
                    b < 32,
            ;
        }
    }
    lemma_bits_ext(m, 0u32);
}

fn face_type(chunk: &VoxelArray, dir: usize, x: usize, y: usize, z: usize) -> (b: BlockType)
    requires
        dir < 6,
        x < 30,
        y < 30,
        z < 30,
    ensures
        b == face_voxel(*chunk, dir as int, x as int, y as int, z as int),
{
    if dir == 2 || dir == 3 {
        chunk[x][y][z].block_type
    } else if dir == 0 || dir == 1 {
        chunk[y][z][x].block_type
    } else {
        chunk[x][z][y].block_type
    }
}

/// Records in `grids` the faces of one culled column `w` at row `x` and column `z`.
fn scan_column(
    grids: &mut BlockGrids,
    w: u32,
    dir: usize,
    x: usize,
    z: usize,
    chunk: &VoxelArray,
)
    requires
        dir < 6,
        x < 30,
        z < 30,
    ensures
        forall|s: int, y: int, x2: int|
            0 <= s < 5 && 0 <= y < 30 && 0 <= x2 < 30 ==> #[trigger] final(grids)@[s]@[y]@[x2]
                == if x2 == x && bit_set(w, (y + 1) as u32) && block_slot(
                face_voxel(*chunk, dir as int, x as int, y, z as int),
            ) == s {
                old(grids)@[s]@[y]@[x2] | (1u32 << z as u32)
            } else {
                old(grids)@[s]@[y]@[x2]
            },
{
    let mut col = w >> 1;
    col &= !(1u32 << 30);
    let ghost col0 = col;
    let ghost g0 = *grids;
    assert forall|y: u32| y < 32 implies #[trigger] bit_set(col0, y) == (y < 30 && bit_set(
        w,
        (y + 1) as u32,
    )) by {
        assert((((((w >> 1u32) & !(1u32 << 30u32)) >> y) & 1 == 1) == (y < 30 && ((w >> ((y
            + 1) as u32)) & 1 == 1)))) by (bit_vector)
            requires
                y < 32,
        ;
    }
    while col != 0
        invariant
            dir < 6,
            x < 30,
            z < 30,
            forall|y: u32| y < 32 ==> #[trigger] bit_set(col0, y) == (y < 30 && bit_set(
                w,
                (y + 1) as u32,
            )),
            forall|b: u32| b < 32 && #[trigger] bit_set(col, b) ==> bit_set(col0, b),
            forall|s: int, y: int, x2: int|
                0 <= s < 5 && 0 <= y < 30 && 0 <= x2 < 30 ==> #[trigger] grids@[s]@[y]@[x2]
                    == if x2 == x && bit_set(col0, y as u32) && !bit_set(col, y as u32)
                    && block_slot(face_voxel(*chunk, dir as int, x as int, y, z as int)) == s {
                    g0@[s]@[y]@[x2] | (1u32 << z as u32)
                } else {
                    g0@[s]@[y]@[x2]
                },
        decreases col,
    {
        proof {
            lemma_trailing_zeros(col);
        }
        let y = col.trailing_zeros();
        let ghost old_col = col;
        let ghost old_grids = *grids;
        col &= col - 1;
        proof {
            assert forall|b: u32| b < 32 implies #[trigger] bit_set(col, b) == (bit_set(
                old_col,
                b,
            ) && b != y) by {
                lemma_lowest_bit_clear(old_col, y, b);
            }
            lemma_lowest_bit_clear(old_col, y, 0);
            assert(bit_set(col0, y));
        }
        let yu = y as usize;
        let bt = face_type(chunk, dir, x, yu, z);
        let s = slot_of(bt);
        grids[s][yu][x] |= 1u32 << (z as u32);
        assert forall|s2: int, y2: int, x2: int|
            0 <= s2 < 5 && 0 <= y2 < 30 && 0 <= x2 < 30 implies #[trigger] grids@[s2]@[y2]@[x2]
                == if x2 == x && bit_set(col0, y2 as u32) && !bit_set(col, y2 as u32)
                && block_slot(face_voxel(*chunk, dir as int, x as int, y2, z as int)) == s2 {
                g0@[s2]@[y2]@[x2] | (1u32 << z as u32)
            } else {
                g0@[s2]@[y2]@[x2]
            } by {
            assert(bit_set(col, y2 as u32) == (bit_set(old_col, y2 as u32) && y2 != y));
        }
    }
    assert forall|s: int, y: int, x2: int|
        0 <= s < 5 && 0 <= y < 30 && 0 <= x2 < 30 implies #[trigger] grids@[s]@[y]@[x2] == if x2
            == x && bit_set(w, (y + 1) as u32) && block_slot(
            face_voxel(*chunk, dir as int, x as int, y, z as int),
        ) == s {
            g0@[s]@[y]@[x2] | (1u32 << z as u32)
        } else {
            g0@[s]@[y]@[x2]
        } by {
        lemma_bit_zero(y as u32);
        assert(bit_set(col0, y as u32) == bit_set(w, (y + 1) as u32));
    }
}

fn faces_for_dir(faces: &[DepthPlane; 6], dir: usize, chunk: &VoxelArray) -> (g: BlockGrids)
    requires
        dir < 6,
    ensures
        grids_match(g, *faces, *chunk, dir as int),
{
    let mut g: BlockGrids = [[[0u32; 30]; 30]; 5];
    assert forall|s: int, y: int, x: int, b: u32|
        0 <= s < 5 && 0 <= y < 30 && 0 <= x < 30 && b < 32 implies !#[trigger] bit_set(
            g@[s]@[y]@[x],
            b,
        ) by {
        lemma_bit_zero(b);
    }
    let mut z: usize = 0;
    while z < 30
        invariant
            dir < 6,
            z <= 30,
            forall|s: int, y: int, x: int, b: u32|
                0 <= s < 5 && 0 <= y < 30 && 0 <= x < 30 && b < 32 ==> #[trigger] bit_set(
                    g@[s]@[y]@[x],
                    b,
                ) == (b < z && face_grid_bit(*faces, *chunk, dir as int, s, y, x, b as int)),
        decreases 30 - z,
    {
        let mut x: usize = 0;
        while x < 30
            invariant
                dir < 6,
                z < 30,
                x <= 30,
                forall|s: int, y: int, x2: int, b: u32|
                    0 <= s < 5 && 0 <= y < 30 && 0 <= x2 < 30 && b < 32 ==> #[trigger] bit_set(
                        g@[s]@[y]@[x2],
                        b,
                    ) == ((b < z || (b == z && x2 < x)) && face_grid_bit(
                        *faces,
                        *chunk,
                        dir as int,
                        s,
                        y,
                        x2,
                        b as int,
                    )),
            decreases 30 - x,
        {
            let ghost old_g = g;
            let w = faces[dir][z + 1][x + 1];
            scan_column(&mut g, w, dir, x, z, chunk);
            assert forall|s: int, y: int, x2: int, b: u32|
                0 <= s < 5 && 0 <= y < 30 && 0 <= x2 < 30 && b < 32 implies #[trigger] bit_set(
                    g@[s]@[y]@[x2],
                    b,
                ) == ((b < z || (b == z && x2 < x + 1)) && face_grid_bit(
                    *faces,
                    *chunk,
                    dir as int,
                    s,
                    y,
                    x2,
                    b as int,
                )) by {
                if x2 == x && bit_set(w, (y + 1) as u32) && block_slot(
                    face_voxel(*chunk, dir as int, x as int, y, z as int),
                ) == s {
                    lemma_bit_or(old_g@[s]@[y]@[x2], z as u32, b);
                }
                assert(bit_set(old_g@[s]@[y]@[x2], b) == ((b < z || (b == z && x2 < x))
                    && face_grid_bit(*faces, *chunk, dir as int, s, y, x2, b as int)));
            }
            x = x + 1;
        }
        z = z + 1;
    }
    g
}

/// Turns culled columns into face grids: for each direction and block type, a grid indexed
/// by depth and row with a bit per column, set where a face of that block type lies.
pub fn depths_to_faces(depths: FaceDepths, chunks: &ChunkRefs) -> (t: TransformedBlockDepths)
    ensures
        forall|dir: int| 0 <= dir < 6 ==> grids_match(#[trigger] t@[dir], *depths, *chunks.chunk, dir),
{
    let g0 = faces_for_dir(&depths, 0, chunks.chunk);
    let g1 = faces_for_dir(&depths, 1, chunks.chunk);
    let g2 = faces_for_dir(&depths, 2, chunks.chunk);
    let g3 = faces_for_dir(&depths, 3, chunks.chunk);
    let g4 = faces_for_dir(&depths, 4, chunks.chunk);
    let g5 = faces_for_dir(&depths, 5, chunks.chunk);
    let t: TransformedBlockDepths = Box::new([g0, g1, g2, g3, g4, g5]);
    assert forall|dir: int| 0 <= dir < 6 implies grids_match(#[trigger] t@[dir], *depths, *chunks.chunk, dir) by {
        if dir == 0 {} else if dir == 1 {} else if dir == 2 {} else if dir == 3 {} else if dir == 4 {} else {}
    }
    t
}

} // verus!
