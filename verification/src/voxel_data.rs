use vstd::prelude::*;

use crate::bits::{bit_set, lemma_bit_clear, lemma_bit_or};
use crate::block::{block_is_solid, BlockType};
use crate::meshing::{
    build_depths, depth_bit, depths_match, padded_solid, voxel_solid, AxisDepths, ChunkRefs,
    VoxelArray,
};
use crate::position::IVec3;

verus! {

/// The voxels of a chunk and, once built, their depth masks.
pub struct VoxelData {
    pub voxels: Box<VoxelArray>,
    pub depth_mask: Option<Box<AxisDepths>>,
}

/// The word of a depth mask with bit `k` set or cleared.
pub open spec fn with_bit(w: u32, k: u32, on: bool) -> u32 {
    if on {
        w | (1u32 << k)
    } else {
        w & !(1u32 << k)
    }
}

/// Whether `pos` lies inside a chunk.
pub open spec fn in_chunk(pos: IVec3) -> bool {
    0 <= pos.x < 30 && 0 <= pos.y < 30 && 0 <= pos.z < 30
}

/// The depth mask after `set` marks the padded voxel `(px, py, pz)` solid or empty: the three
/// words through it have its bit set or cleared, and no other word changes.
pub open spec fn mask_after_set(
    old_m: AxisDepths,
    new_m: AxisDepths,
    px: int,
    py: int,
    pz: int,
    on: bool,
) -> bool {
    forall|a: int, i: int, j: int|
        0 <= a < 3 && 0 <= i < 32 && 0 <= j < 32 ==> #[trigger] new_m@[a]@[i]@[j] == if a == 0
            && i == py && j == pz {
            with_bit(old_m@[a]@[i]@[j], px as u32, on)
        } else if a == 1 && i == pz && j == px {
            with_bit(old_m@[a]@[i]@[j], py as u32, on)
        } else if a == 2 && i == py && j == px {
            with_bit(old_m@[a]@[i]@[j], pz as u32, on)
        } else {
            old_m@[a]@[i]@[j]
        }
}

/// The voxel array after `set`: the voxel at `pos` has the new block type when `pos` is in
/// the chunk, and no other voxel changes.
pub open spec fn voxels_after_set(
    old_v: VoxelArray,
    new_v: VoxelArray,
    pos: IVec3,
    block_type: BlockType,
) -> bool {
    forall|x: int, y: int, z: int|
        0 <= x < 30 && 0 <= y < 30 && 0 <= z < 30 ==> #[trigger] new_v@[x]@[y]@[z]
            == if in_chunk(pos) && x == pos.x && y == pos.y && z == pos.z {
            crate::block::BasicVoxel { block_type }
        } else {
            old_v@[x]@[y]@[z]
        }
}

fn set_word(w: &mut u32, k: usize, on: bool)
    requires
        k < 32,
    ensures
        *final(w) == with_bit(*old(w), k as u32, on),
{
    if on {
        *w |= 1u32 << k;
    } else {
        *w &= !(1u32 << k);
    }
}

/// Voxel data `b` is `a` with the block type at `pos` set, inside the chunk, and a built
/// depth mask kept up to date at padded position `pos + 1`.
pub open spec fn data_after_set(a: VoxelData, b: VoxelData, pos: IVec3, block_type: BlockType) -> bool {
    &&& voxels_after_set(*a.voxels, *b.voxels, pos, block_type)
    &&& a.depth_mask is None ==> b.depth_mask is None
    &&& a.depth_mask is Some ==> b.depth_mask is Some && mask_after_set(
        *a.depth_mask.unwrap(),
        *b.depth_mask.unwrap(),
        pos.x + 1,
        pos.y + 1,
        pos.z + 1,
        crate::block::block_is_solid(block_type),
    )
}

impl VoxelData {
    /// Voxels with no depth mask built yet.
    pub fn new(voxels: Box<VoxelArray>) -> (d: Self)
        ensures
            d.voxels == voxels,
            d.depth_mask is None,
    {
        Self { voxels, depth_mask: None }
    }

    /// Drops the depth mask, so that the next `build_depths` builds it again.
    pub fn invalidate(&mut self)
        ensures
            final(self).voxels == old(self).voxels,
            final(self).depth_mask is None,
    {
        self.depth_mask = None;
    }

    /// Sets the block type at `pos` when `pos` lies in the chunk, and keeps a built depth
    /// mask up to date at padded position `pos + 1`, which may lie one step outside the
    /// chunk (a neighbour's border voxel). With a mask, every coordinate must be within one
    /// step of the chunk.
    pub fn set(&mut self, pos: &IVec3, block_type: &BlockType)
        requires
            old(self).depth_mask is Some ==> -1 <= pos.x <= 30 && -1 <= pos.y <= 30 && -1
                <= pos.z <= 30,
        ensures
            data_after_set(*old(self), *final(self), *pos, *block_type),
    {
        let inside = pos.x >= 0 && pos.x < 30 && pos.y >= 0 && pos.y < 30 && pos.z >= 0
            && pos.z < 30;
        if inside {
            let x = pos.x as usize;
            let y = pos.y as usize;
            let z = pos.z as usize;
            self.voxels[x][y][z].block_type = *block_type;
        }
        let solid = block_type.is_solid();
        match &mut self.depth_mask {
            Some(mask) => {
                let x = (pos.x + 1) as usize;
                let y = (pos.y + 1) as usize;
                let z = (pos.z + 1) as usize;
                set_word(&mut mask[0][y][z], x, solid);
                set_word(&mut mask[1][z][x], y, solid);
                set_word(&mut mask[2][y][x], z, solid);
            },
            None => {},
        }
    }
}

impl VoxelData {
    /// Builds the depth mask from these voxels and the six neighbours, unless one is built.
    pub fn build_depths(
        &mut self,
        x_pos: &VoxelArray,
        y_pos: &VoxelArray,
        z_pos: &VoxelArray,
        x_neg: &VoxelArray,
        y_neg: &VoxelArray,
        z_neg: &VoxelArray,
    )
        ensures
            final(self).voxels == old(self).voxels,
            old(self).depth_mask is Some ==> final(self).depth_mask == old(self).depth_mask,
            old(self).depth_mask is None ==> final(self).depth_mask is Some && depths_match(
                *final(self).depth_mask.unwrap(),
                ChunkRefs { chunk: &*final(self).voxels, x_pos, y_pos, z_pos, x_neg, y_neg, z_neg },
            ),
    {
        if self.depth_mask.is_none() {
            let mask = {
                let refs = ChunkRefs {
                    chunk: &self.voxels,
                    x_pos,
                    y_pos,
                    z_pos,
                    x_neg,
                    y_neg,
                    z_neg,
                };
                build_depths(&refs)
            };
            self.depth_mask = Some(mask);
        }
    }
}

/// Setting a voxel inside the chunk keeps a depth mask that matched the chunk matching it:
/// the mask `set` leaves is the one `build_depths` would build from the changed voxels.
pub proof fn lemma_set_keeps_depths<'a>(
    refs: ChunkRefs<'a>,
    new_chunk: &'a VoxelArray,
    old_m: AxisDepths,
    new_m: AxisDepths,
    pos: IVec3,
    block_type: BlockType,
)
    requires
        depths_match(old_m, refs),
        in_chunk(pos),
        voxels_after_set(*refs.chunk, *new_chunk, pos, block_type),
        mask_after_set(old_m, new_m, pos.x + 1, pos.y + 1, pos.z + 1, block_is_solid(block_type)),
    ensures
        depths_match(
            new_m,
            ChunkRefs {
                chunk: new_chunk,
                x_pos: refs.x_pos,
                y_pos: refs.y_pos,
                z_pos: refs.z_pos,
                x_neg: refs.x_neg,
                y_neg: refs.y_neg,
                z_neg: refs.z_neg,
            },
        ),
{
    let nrefs = ChunkRefs {
        chunk: new_chunk,
        x_pos: refs.x_pos,
        y_pos: refs.y_pos,
        z_pos: refs.z_pos,
        x_neg: refs.x_neg,
        y_neg: refs.y_neg,
        z_neg: refs.z_neg,
    };
    let px = pos.x + 1;
    let py = pos.y + 1;
    let pz = pos.z + 1;
    let on = block_is_solid(block_type);
    assert forall|qx: int, qy: int, qz: int|
        0 <= qx < 32 && 0 <= qy < 32 && 0 <= qz < 32 implies #[trigger] padded_solid(nrefs, qx, qy, qz)
            == if qx == px && qy == py && qz == pz {
            on
        } else {
            padded_solid(refs, qx, qy, qz)
        } by {
        if 1 <= qx <= 30 && 1 <= qy <= 30 && 1 <= qz <= 30 {
            assert(new_chunk@[qx - 1]@[qy - 1]@[qz - 1] == if qx == px && qy == py && qz == pz {
                crate::block::BasicVoxel { block_type }
            } else {
                refs.chunk@[qx - 1]@[qy - 1]@[qz - 1]
            });
        }
    }
    lemma_mask_tracks_point(refs, nrefs, old_m, new_m, px, py, pz, on);
}

/// A depth mask that matched the padded chunk, with the three words through one padded
/// point updated for that point's new solidity (as `set` updates them), matches the padded
/// chunk in which only that point changed.
pub proof fn lemma_mask_tracks_point(
    refs: ChunkRefs,
    nrefs: ChunkRefs,
    old_m: AxisDepths,
    new_m: AxisDepths,
    px: int,
    py: int,
    pz: int,
    on: bool,
)
    requires
        depths_match(old_m, refs),
        0 <= px < 32 && 0 <= py < 32 && 0 <= pz < 32,
        forall|qx: int, qy: int, qz: int|
            0 <= qx < 32 && 0 <= qy < 32 && 0 <= qz < 32 ==> #[trigger] padded_solid(nrefs, qx, qy, qz)
                == if qx == px && qy == py && qz == pz {
                on
            } else {
                padded_solid(refs, qx, qy, qz)
            },
        mask_after_set(old_m, new_m, px, py, pz, on),
    ensures
        depths_match(new_m, nrefs),
{
    assert forall|a: int, i: int, j: int, k: u32|
        0 <= a < 3 && 0 <= i < 32 && 0 <= j < 32 && k < 32 implies #[trigger] bit_set(
            new_m@[a]@[i]@[j],
            k,
        ) == depth_bit(nrefs, a, i, j, k as int) by {
        let w = old_m@[a]@[i]@[j];
        assert(bit_set(w, k) == depth_bit(refs, a, i, j, k as int));
        if a == 0 && i == py && j == pz {
            if on {
                lemma_bit_or(w, px as u32, k);
            } else {
                lemma_bit_clear(w, px as u32, k);
            }
        } else if a == 1 && i == pz && j == px {
            if on {
                lemma_bit_or(w, py as u32, k);
            } else {
                lemma_bit_clear(w, py as u32, k);
            }
        } else if a == 2 && i == py && j == px {
            if on {
                lemma_bit_or(w, pz as u32, k);
            } else {
                lemma_bit_clear(w, pz as u32, k);
            }
        }
        if a == 0 {
            assert(padded_solid(nrefs, k as int, i, j) == if k == px && i == py && j == pz { on } else { padded_solid(refs, k as int, i, j) });
        } else if a == 1 {
            assert(padded_solid(nrefs, j, k as int, i) == if j == px && k == py && i == pz { on } else { padded_solid(refs, j, k as int, i) });
        } else {
            assert(padded_solid(nrefs, j, i, k as int) == if j == px && i == py && k == pz { on } else { padded_solid(refs, j, i, k as int) });
        }
    }
}

} // verus!
