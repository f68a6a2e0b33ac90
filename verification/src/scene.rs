use vstd::prelude::*;

use crate::block::BlockType;

verus! {

/// The block of a noise-scene column at height `y` for a scene of depth `depth`: snow in the
/// top three layers below the depth, grass above half the depth (rounded towards zero),
/// stone below.
pub open spec fn column_block_of(y: int, depth: int) -> BlockType {
    let half = if depth >= 0 { depth / 2 } else { -((-depth) / 2) };
    if y > depth - 3 {
        BlockType::Snow
    } else if y > half {
        BlockType::Grass
    } else {
        BlockType::Stone
    }
}

/// The block of a noise-scene column at height `y` (see `column_block_of`).
pub fn column_block(y: i32, depth: i32) -> (b: BlockType)
    requires
        depth >= i32::MIN + 3,
    ensures
        b == column_block_of(y as int, depth as int),
{
    let half: i32 = if depth >= 0 {
        depth / 2
    } else if depth == i32::MIN {
        -0x4000_0000
    } else {
        -((-depth) / 2)
    };
    if y > depth - 3 {
        BlockType::Snow
    } else if y > half {
        BlockType::Grass
    } else {
        BlockType::Stone
    }
}

/// The voxels of one noise-scene column at `(x, z)` from height 0 up to `height`, in order
/// of height, each with the block `column_block` gives.
pub fn noise_column(x: i32, z: i32, height: i32, depth: i32) -> (v: Vec<((i32, i32, i32), BlockType)>)
    requires
        depth >= i32::MIN + 3,
    ensures
        v@.len() == if height >= 0 { height + 1 } else { 0 },
        forall|k: int| 0 <= k < v@.len() ==> #[trigger] v@[k] == ((x, k as i32, z), column_block_of(k, depth as int)),
{
    let mut v: Vec<((i32, i32, i32), BlockType)> = Vec::new();
    if height < 0 {
        return v;
    }
    let mut y: i32 = 0;
    loop
        invariant
            depth >= i32::MIN + 3,
            0 <= y <= height,
            v@.len() == y,
            forall|k: int| 0 <= k < v@.len() ==> #[trigger] v@[k] == ((x, k as i32, z), column_block_of(k, depth as int)),
        decreases height - y,
    {
        v.push(((x, y, z), column_block(y, depth)));
        if y == height {
            return v;
        }
        y = y + 1;
    }
}

/// The single-voxel scene: one grass voxel at `(0, 30, -5)`.
pub fn single_scene() -> (v: Vec<((i32, i32, i32), BlockType)>)
    ensures
        v@ == seq![((0i32, 30i32, -5i32), BlockType::Grass)],
{
    let mut v: Vec<((i32, i32, i32), BlockType)> = Vec::new();
    v.push(((0, 30, -5), BlockType::Grass));
    assert(v@ =~= seq![((0i32, 30i32, -5i32), BlockType::Grass)]);
    v
}

/// The cube scene: grass at every `(x, y, z)` with `x` and `y` from 0 to 31 and `z` from 32
/// to 63, in order of `x`, then `y`, then `z`.
pub fn cube_scene() -> (v: Vec<((i32, i32, i32), BlockType)>)
    ensures
        v@.len() == 32 * 32 * 32,
        forall|k: int| 0 <= k < v@.len() ==> #[trigger] v@[k] == (((k / 1024) as i32, ((k / 32) % 32) as i32, (32 + k % 32) as i32), BlockType::Grass),
{
    let mut v: Vec<((i32, i32, i32), BlockType)> = Vec::new();
    let mut x: i32 = 0;
    while x < 32
        invariant
            0 <= x <= 32,
            v@.len() == x * 1024,
            forall|k: int| 0 <= k < v@.len() ==> #[trigger] v@[k] == (((k / 1024) as i32, ((k / 32) % 32) as i32, (32 + k % 32) as i32), BlockType::Grass),
        decreases 32 - x,
    {
        let mut y: i32 = 0;
        while y < 32
            invariant
                0 <= x < 32,
                0 <= y <= 32,
                v@.len() == x * 1024 + y * 32,
                forall|k: int| 0 <= k < v@.len() ==> #[trigger] v@[k] == (((k / 1024) as i32, ((k / 32) % 32) as i32, (32 + k % 32) as i32), BlockType::Grass),
            decreases 32 - y,
        {
            let mut z: i32 = 32;
            while z < 64
                invariant
                    0 <= x < 32,
                    0 <= y < 32,
                    32 <= z <= 64,
                    v@.len() == x * 1024 + y * 32 + (z - 32),
                    forall|k: int| 0 <= k < v@.len() ==> #[trigger] v@[k] == (((k / 1024) as i32, ((k / 32) % 32) as i32, (32 + k % 32) as i32), BlockType::Grass),
                decreases 64 - z,
            {
                let ghost k = v@.len() as int;
                assert(k / 1024 == x && (k / 32) % 32 == y && k % 32 == z - 32) by (nonlinear_arith)
                    requires
                        k == x * 1024 + y * 32 + (z - 32),
                        0 <= y < 32,
                        32 <= z < 64,
                        0 <= x,
                ;
                v.push(((x, y, z), BlockType::Grass));
                z = z + 1;
            }
            y = y + 1;
        }
        x = x + 1;
    }
    v
}

} // verus!
