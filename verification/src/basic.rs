use vstd::prelude::*;

use crate::block::BlockType;
use crate::position::IVec3;
use crate::programs::basic_voxel::Vertex;

verus! {

/// A voxel drawn on its own: its position and block type.
pub struct Voxel {
    pub position: IVec3,
    pub block_type: BlockType,
}

/// The corners of the unit cube, front face (z = 0) first, each face's corners from the
/// bottom left going up and round.
pub open spec fn cube_corners() -> Seq<Seq<i32>> {
    seq![
        seq![0i32, 0, 0],
        seq![0i32, 1, 0],
        seq![1i32, 1, 0],
        seq![1i32, 0, 0],
        seq![0i32, 0, 1],
        seq![0i32, 1, 1],
        seq![1i32, 1, 1],
        seq![1i32, 0, 1],
    ]
}

/// Two triangles per face of the cube over `cube_corners`: front, back, left, right, top,
/// bottom.
pub open spec fn cube_indices() -> Seq<u32> {
    seq![
        0u32, 1, 2, 2, 3, 0,
        7, 6, 5, 5, 4, 7,
        4, 5, 1, 1, 0, 4,
        3, 2, 6, 6, 7, 3,
        1, 5, 6, 6, 2, 1,
        4, 0, 3, 3, 7, 4,
    ]
}

impl Voxel {
    /// A voxel at `position` of the given block type.
    pub fn new(position: IVec3, block_type: BlockType) -> (v: Self)
        ensures
            v.position == position,
            v.block_type == block_type,
    {
        Self { position, block_type }
    }

    /// The eight corners of the unit cube (see `cube_corners`).
    pub fn get_vertices() -> (v: Vec<Vertex>)
        ensures
            v@.len() == 8,
            forall|i: int| 0 <= i < 8 ==> (#[trigger] v@[i]).position@ == cube_corners()[i],
    {
        let fbl = Vertex::new(0, 0, 0);
        let ftl = Vertex::new(0, 1, 0);
        let ftr = Vertex::new(1, 1, 0);
        let fbr = Vertex::new(1, 0, 0);
        let bbl = Vertex::new(0, 0, 1);
        let btl = Vertex::new(0, 1, 1);
        let btr = Vertex::new(1, 1, 1);
        let bbr = Vertex::new(1, 0, 1);
        let v = vec![fbl, ftl, ftr, fbr, bbl, btl, btr, bbr];
        assert forall|i: int| 0 <= i < 8 implies (#[trigger] v@[i]).position@ == cube_corners()[i] by {
            assert(cube_corners()[i] =~= v@[i].position@);
        }
        v
    }

    /// The triangle indices of the unit cube (see `cube_indices`).
    pub fn get_indices() -> (v: Vec<u32>)
        ensures
            v@ == cube_indices(),
    {
        let v = vec![
            0, 1, 2, 2, 3, 0,
            7, 6, 5, 5, 4, 7,
            4, 5, 1, 1, 0, 4,
            3, 2, 6, 6, 7, 3,
            1, 5, 6, 6, 2, 1,
            4, 0, 3, 3, 7, 4,
        ];
        assert(v@ =~= cube_indices());
        v
    }

    /// The position of the voxel.
    pub fn get_position(&self) -> (p: IVec3)
        ensures
            p == self.position,
    {
        self.position
    }
}

} // verus!
