use vstd::prelude::*;

use crate::block::{block_code, block_is_solid, BasicVoxel, BlockType, Voxel};
use crate::meshing::{depths_match, mask_reads_sides, voxel_type, AxisDepths, ChunkRefs, DepthPlane, VoxelArray, BlockGrids};
use crate::position::IVec3;
use crate::quads::{culled_all, culled_from, greedy_all, grids_from, make_culled_faces, make_greedy_faces};
use crate::voxel_data::{data_after_set, in_chunk, mask_after_set, voxels_after_set, VoxelData};
use crate::directions::dir_index;
use crate::instance::{pack, rotated, InstanceData};
use crate::mesh_laws::{all_faces_fit, all_fit_solid, face_fits, no_invalid_faces, voxels_valid};
use crate::programs::culled_voxel::Instance;
use crate::quads::GreedyFace;

verus! {

/// The packed form of a face, before rotation.
pub open spec fn face_data(f: GreedyFace) -> InstanceData {
    InstanceData(
        pack(
            f.x as u32,
            f.y as u32,
            f.z as u32,
            dir_index(f.dir) as u32,
            f.width as u32,
            f.height as u32,
            block_code(f.block_type),
        ),
    )
}

/// Packs each face of a chunk and rotates it onto its direction, as a chunk's update does
/// after meshing. Every face must fit the chunk (meshing gives such faces) and be of a
/// block type other than the invalid marker, which no instance can hold.
pub fn face_instances(faces: &Vec<GreedyFace>) -> (instances: Vec<Instance>)
    requires
        all_faces_fit(faces@),
        no_invalid_faces(faces@),
    ensures
        instances@.len() == faces@.len(),
        forall|i: int| 0 <= i < faces@.len() ==> (#[trigger] instances@[i]).data == rotated(
            face_data(faces@[i]),
        ).0,
{
    let mut instances: Vec<Instance> = Vec::new();
    let mut i: usize = 0;
    while i < faces.len()
        invariant
            i <= faces@.len(),
            all_faces_fit(faces@),
            no_invalid_faces(faces@),
            instances@.len() == i,
            forall|j: int| 0 <= j < i ==> (#[trigger] instances@[j]).data == rotated(
                face_data(faces@[j]),
            ).0,
        decreases faces@.len() - i,
    {
        let face = faces[i];
        assert(face_fits(faces@[i as int]));
        assert(faces@[i as int].block_type != crate::block::BlockType::Invalid);
        let data = InstanceData::new(
            face.x,
            face.y,
            face.z,
            face.dir,
            face.width,
            face.height,
            face.block_type,
        ).rotate_on_dir();
        instances.push(Instance { data: data.into() });
        i = i + 1;
    }
    instances
}

/// `faces` are what meshing the chunk and neighbours `refs` with the depth mask `depths`
/// gives: greedy rectangles or culled unit faces.
pub open spec fn meshed_faces(faces: Seq<GreedyFace>, refs: ChunkRefs, depths: AxisDepths, greedy: bool) -> bool {
    exists|c: [DepthPlane; 6], t: [BlockGrids; 6]|
        culled_from(c, depths) && grids_from(t, c, refs) && faces == if greedy {
            greedy_all(t, 6)
        } else {
            culled_all(t, 6)
        }
}

/// Meshes a chunk with its neighbours, greedily or face by face.
pub fn make_faces(refs: &ChunkRefs, depths: &AxisDepths, greedy: bool) -> (faces: Vec<GreedyFace>)
    ensures
        meshed_faces(faces@, *refs, *depths, greedy),
        all_faces_fit(faces@),
        voxels_valid(*refs.chunk) ==> no_invalid_faces(faces@),
        depths_match(*depths, *refs) ==> all_fit_solid(faces@),
{
    if greedy {
        make_greedy_faces(refs, depths)
    } else {
        make_culled_faces(refs, depths)
    }
}

/// `inst` holds, in order, the rotated packed form of each face of `faces`.
pub open spec fn instances_of(faces: Seq<GreedyFace>, inst: Seq<Instance>) -> bool {
    &&& inst.len() == faces.len()
    &&& forall|i: int| 0 <= i < faces.len() ==> (#[trigger] inst[i]).data == rotated(face_data(faces[i])).0
}

/// The voxels and meshing state of a chunk: its voxels with their depth mask, the face
/// instances of its last mesh, whether it meshes greedily, whether it must be meshed again,
/// whether its mesh must be uploaded, and whether it is frustum culled.
pub struct Chunk {
    pub voxels: VoxelData,
    pub instances: Vec<Instance>,
    pub greedy: bool,
    pub needs_update: bool,
    pub needs_mesh_written: bool,
    pub frustum_cull: bool,
}

/// The edits a change at `pos` of the chunk at `cp` makes to the neighbours' border copies:
/// for each axis where `pos` is on the low face, the neighbour below gets the voxel at its
/// padded coordinate 30; on the high face, the neighbour above gets it at -1.
pub open spec fn neighbour_edits(pos: IVec3, cp: IVec3) -> Seq<(IVec3, IVec3)> {
    let xs = if pos.x == 0 {
        seq![(IVec3 { x: (cp.x - 1) as i32, ..cp }, IVec3 { x: 30, ..pos })]
    } else if pos.x == 29 {
        seq![(IVec3 { x: (cp.x + 1) as i32, ..cp }, IVec3 { x: -1i32, ..pos })]
    } else {
        Seq::empty()
    };
    let ys = if pos.y == 0 {
        seq![(IVec3 { y: (cp.y - 1) as i32, ..cp }, IVec3 { y: 30, ..pos })]
    } else if pos.y == 29 {
        seq![(IVec3 { y: (cp.y + 1) as i32, ..cp }, IVec3 { y: -1i32, ..pos })]
    } else {
        Seq::empty()
    };
    let zs = if pos.z == 0 {
        seq![(IVec3 { z: (cp.z - 1) as i32, ..cp }, IVec3 { z: 30, ..pos })]
    } else if pos.z == 29 {
        seq![(IVec3 { z: (cp.z + 1) as i32, ..cp }, IVec3 { z: -1i32, ..pos })]
    } else {
        Seq::empty()
    };
    xs + ys + zs
}

/// The neighbour chunk positions that `neighbour_edits` names all exist as `i32`s.
pub open spec fn neighbours_in_range(pos: IVec3, cp: IVec3) -> bool {
    &&& pos.x == 0 ==> cp.x > i32::MIN
    &&& pos.x == 29 ==> cp.x < i32::MAX
    &&& pos.y == 0 ==> cp.y > i32::MIN
    &&& pos.y == 29 ==> cp.y < i32::MAX
    &&& pos.z == 0 ==> cp.z > i32::MIN
    &&& pos.z == 29 ==> cp.z < i32::MAX
}

pub(crate) fn filled_array(block_type: BlockType) -> (v: Box<VoxelArray>)
    ensures
        forall|x: int, y: int, z: int|
            0 <= x < 30 && 0 <= y < 30 && 0 <= z < 30 ==> #[trigger] v@[x]@[y]@[z] == (BasicVoxel { block_type }),
{
    let voxel = BasicVoxel::new(block_type);
    let row = [voxel; 30];
    let plane = [row; 30];
    let cube = [plane; 30];
    assert forall|x: int, y: int, z: int|
        0 <= x < 30 && 0 <= y < 30 && 0 <= z < 30 implies #[trigger] cube@[x]@[y]@[z] == (BasicVoxel { block_type }) by {
        assert(cube@[x] == plane);
        assert(plane@[y] == row);
        assert(row@[z] == voxel);
    }
    Box::new(cube)
}

/// Chunk `b` is chunk `a` with the block type at `pos` set (see `data_after_set`) and marked
/// for meshing.
pub open spec fn chunk_after_set(a: Chunk, b: Chunk, pos: IVec3, block_type: BlockType) -> bool {
    &&& data_after_set(a.voxels, b.voxels, pos, block_type)
    &&& b.instances == a.instances
    &&& b.greedy == a.greedy
    &&& b.needs_update
    &&& b.needs_mesh_written == a.needs_mesh_written
    &&& b.frustum_cull == a.frustum_cull
}

impl Chunk {
    /// A chunk of the given voxels that must be meshed, with no instances yet.
    pub fn new(voxels: Box<VoxelArray>, greedy: bool, frustum_cull: bool) -> (c: Self)
        ensures
            c.voxels.voxels == voxels,
            c.voxels.depth_mask is None,
            c.instances@.len() == 0,
            c.greedy == greedy,
            c.needs_update,
            !c.needs_mesh_written,
            c.frustum_cull == frustum_cull,
    {
        Self {
            voxels: VoxelData::new(voxels),
            instances: Vec::new(),
            greedy,
            needs_update: true,
            needs_mesh_written: false,
            frustum_cull,
        }
    }

    /// A new chunk (see `new`) whose every voxel is of `block_type`.
    pub fn fill(block_type: BlockType, greedy: bool, frustum_cull: bool) -> (c: Self)
        ensures
            forall|x: int, y: int, z: int|
                0 <= x < 30 && 0 <= y < 30 && 0 <= z < 30 ==> #[trigger] voxel_type(*c.voxels.voxels, x, y, z) == block_type,
            c.voxels.depth_mask is None,
            c.instances@.len() == 0,
            c.greedy == greedy,
            c.needs_update,
            !c.needs_mesh_written,
            c.frustum_cull == frustum_cull,
    {
        let voxels = filled_array(block_type);
        let c = Self::new(voxels, greedy, frustum_cull);
        assert forall|x: int, y: int, z: int|
            0 <= x < 30 && 0 <= y < 30 && 0 <= z < 30 implies #[trigger] voxel_type(*c.voxels.voxels, x, y, z) == block_type by {
            assert(c.voxels.voxels@[x]@[y]@[z] == (BasicVoxel { block_type }));
        }
        c
    }

    /// The block type at `(x, y, z)` of the chunk.
    pub fn get(&self, x: usize, y: usize, z: usize) -> (b: BlockType)
        requires
            x < 30,
            y < 30,
            z < 30,
        ensures
            b == voxel_type(*self.voxels.voxels, x as int, y as int, z as int),
    {
        self.voxels.voxels[x][y][z].get_type()
    }

    /// Marks the chunk for meshing again.
    pub fn invalidate(&mut self)
        ensures
            *final(self) == (Chunk { needs_update: true, ..*old(self) }),
    {
        self.needs_update = true;
    }

    /// The voxels of the chunk.
    pub fn voxels(&self) -> (v: &VoxelData)
        ensures
            *v == self.voxels,
    {
        &self.voxels
    }

    /// The face instances of the chunk's last mesh.
    pub fn instances(&self) -> (v: &Vec<Instance>)
        ensures
            *v == self.instances,
    {
        &self.instances
    }

    /// Sets the block type at `pos`, keeps the depth mask up to date and marks the chunk for
    /// meshing. Outside the chunk nothing changes. With `set_neighbours`, gives the edits
    /// that the neighbours' border copies need (see `neighbour_edits`), for the caller to
    /// apply to the neighbours that exist; without it, none.
    pub fn set(&mut self, pos: IVec3, block_type: BlockType, chunk_pos: &IVec3, set_neighbours: bool) -> (edits: Vec<(IVec3, IVec3)>)
        requires
            set_neighbours && in_chunk(pos) ==> neighbours_in_range(pos, *chunk_pos),
        ensures
            !in_chunk(pos) ==> *final(self) == *old(self) && edits@.len() == 0,
            in_chunk(pos) ==> {
                &&& chunk_after_set(*old(self), *final(self), pos, block_type)
                &&& edits@ == if set_neighbours {
                    neighbour_edits(pos, *chunk_pos)
                } else {
                    Seq::empty()
                }
            },
    {
        let mut edits: Vec<(IVec3, IVec3)> = Vec::new();
        if pos.x >= 30 || pos.y >= 30 || pos.z >= 30 || pos.x < 0 || pos.y < 0 || pos.z < 0 {
            return edits;
        }
        self.voxels.set(&pos, &block_type);
        if set_neighbours {
            let cp = *chunk_pos;
            if pos.x == 0 {
                edits.push((IVec3 { x: cp.x - 1, ..cp }, IVec3 { x: 30, ..pos }));
            } else if pos.x == 29 {
                edits.push((IVec3 { x: cp.x + 1, ..cp }, IVec3 { x: -1, ..pos }));
            }
            if pos.y == 0 {
                edits.push((IVec3 { y: cp.y - 1, ..cp }, IVec3 { y: 30, ..pos }));
            } else if pos.y == 29 {
                edits.push((IVec3 { y: cp.y + 1, ..cp }, IVec3 { y: -1, ..pos }));
            }
            if pos.z == 0 {
                edits.push((IVec3 { z: cp.z - 1, ..cp }, IVec3 { z: 30, ..pos }));
            } else if pos.z == 29 {
                edits.push((IVec3 { z: cp.z + 1, ..cp }, IVec3 { z: -1, ..pos }));
            }
            assert(edits@ =~= neighbour_edits(pos, cp));
        }
        self.invalidate();
        edits
    }
}

/// `update` can mesh chunk `a` with these neighbours: it need not mesh, it builds a fresh
/// depth mask, or the kept mask gives no face of an invalid voxel.
pub open spec fn update_fits(
    a: Chunk,
    x_pos: &VoxelArray,
    y_pos: &VoxelArray,
    z_pos: &VoxelArray,
    x_neg: &VoxelArray,
    y_neg: &VoxelArray,
    z_neg: &VoxelArray,
) -> bool {
    a.needs_update && a.voxels.depth_mask is Some ==> faces_encodable(
        ChunkRefs { chunk: &*a.voxels.voxels, x_pos, y_pos, z_pos, x_neg, y_neg, z_neg },
        *a.voxels.depth_mask.unwrap(),
        a.greedy,
    )
}

/// Chunk `b` is chunk `a` after `update` with these neighbours: unchanged if it need not be
/// meshed; else with the same voxels, a depth mask (the kept one, or one built to match), the
/// instances of the faces that meshing with that mask gives, and marked as meshed and to be
/// uploaded.
pub open spec fn chunk_updated(
    a: Chunk,
    b: Chunk,
    x_pos: &VoxelArray,
    y_pos: &VoxelArray,
    z_pos: &VoxelArray,
    x_neg: &VoxelArray,
    y_neg: &VoxelArray,
    z_neg: &VoxelArray,
) -> bool {
    if !a.needs_update {
        b == a
    } else {
        &&& b.voxels.voxels == a.voxels.voxels
        &&& a.voxels.depth_mask is Some ==> b.voxels.depth_mask == a.voxels.depth_mask
        &&& a.voxels.depth_mask is None ==> b.voxels.depth_mask is Some && depths_match(
            *b.voxels.depth_mask.unwrap(),
            ChunkRefs { chunk: &*b.voxels.voxels, x_pos, y_pos, z_pos, x_neg, y_neg, z_neg },
        )
        &&& b.voxels.depth_mask is Some
        &&& exists|faces: Seq<GreedyFace>| meshed_faces(
            faces,
            ChunkRefs { chunk: &*b.voxels.voxels, x_pos, y_pos, z_pos, x_neg, y_neg, z_neg },
            *b.voxels.depth_mask.unwrap(),
            a.greedy,
        ) && #[trigger] instances_of(faces, b.instances@)
        &&& b.greedy == a.greedy
        &&& !b.needs_update
        &&& b.needs_mesh_written
        &&& b.frustum_cull == a.frustum_cull
    }
}

impl Chunk {
    /// Meshes the chunk again if it must be: builds the depth mask when there is none (from
    /// the voxels and the six neighbours' voxels), meshes with it, keeps the rotated packed
    /// faces as the instances and marks the mesh for upload; gives whether it meshed. A
    /// depth mask kept from before must not give a face of an invalid voxel, which no
    /// instance can hold (`can_update` tells).
    pub fn update(
        &mut self,
        x_pos: &VoxelArray,
        y_pos: &VoxelArray,
        z_pos: &VoxelArray,
        x_neg: &VoxelArray,
        y_neg: &VoxelArray,
        z_neg: &VoxelArray,
    ) -> (updated: bool)
        requires
            update_fits(*old(self), x_pos, y_pos, z_pos, x_neg, y_neg, z_neg),
        ensures
            updated == old(self).needs_update,
            chunk_updated(*old(self), *final(self), x_pos, y_pos, z_pos, x_neg, y_neg, z_neg),
            updated && old(self).voxels.depth_mask is None ==> mask_reads_sides(
                *final(self).voxels.depth_mask.unwrap(),
                *old(self).voxels.voxels,
                *x_pos,
                *y_pos,
                *z_pos,
                *x_neg,
                *y_neg,
                *z_neg,
            ),
    {
        if !self.needs_update {
            return false;
        }
        self.voxels.build_depths(x_pos, y_pos, z_pos, x_neg, y_neg, z_neg);
        let faces = match &self.voxels.depth_mask {
            Some(mask) => {
                let refs = ChunkRefs { chunk: &self.voxels.voxels, x_pos, y_pos, z_pos, x_neg, y_neg, z_neg };
                let faces = make_faces(&refs, mask, self.greedy);
                proof {
                    if !depths_match(**mask, refs) {
                        assert(faces_encodable(refs, **mask, self.greedy));
                        assert(no_invalid_faces(faces@));
                    }
                }
                faces
            },
            None => Vec::new(),
        };
        let ghost refs = ChunkRefs { chunk: &self.voxels.voxels, x_pos, y_pos, z_pos, x_neg, y_neg, z_neg };
        assert(meshed_faces(faces@, refs, *self.voxels.depth_mask.unwrap(), self.greedy));
        let instances = face_instances(&faces);
        self.instances = instances;
        self.needs_update = false;
        self.needs_mesh_written = true;
        assert(instances_of(faces@, self.instances@));
        proof {
            if old(self).voxels.depth_mask is None {
                lemma_update_reads_its_sides(*old(self), *self, x_pos, y_pos, z_pos, x_neg, y_neg, z_neg);
            }
        }
        true
    }
}

/// Meshing a chunk that has no depth mask yet builds one from its own voxels and the six
/// neighbours it is given, each on its own side: the first layer of `x_pos`, `y_pos` and
/// `z_pos` at padded 0, the last layer of `x_neg`, `y_neg` and `z_neg` at padded 31 (see
/// `mask_reads_sides`).
pub proof fn lemma_update_reads_its_sides(
    a: Chunk,
    b: Chunk,
    x_pos: &VoxelArray,
    y_pos: &VoxelArray,
    z_pos: &VoxelArray,
    x_neg: &VoxelArray,
    y_neg: &VoxelArray,
    z_neg: &VoxelArray,
)
    requires
        chunk_updated(a, b, x_pos, y_pos, z_pos, x_neg, y_neg, z_neg),
        a.needs_update,
        a.voxels.depth_mask is None,
    ensures
        b.voxels.depth_mask is Some,
        mask_reads_sides(*b.voxels.depth_mask.unwrap(), *a.voxels.voxels, *x_pos, *y_pos, *z_pos, *x_neg, *y_neg, *z_neg),
{
    crate::meshing::lemma_mask_reads_sides(
        *b.voxels.depth_mask.unwrap(),
        ChunkRefs { chunk: &*b.voxels.voxels, x_pos, y_pos, z_pos, x_neg, y_neg, z_neg },
    );
}

/// Setting a voxel on a face of the chunk, with `set_neighbours`, asks for exactly one edit
/// per axis on whose low or high face it lies: on the low face (coordinate 0) to the
/// neighbour one step down that axis, at the voxel's position with that coordinate 30; on
/// the high face (coordinate 29) to the neighbour one step up, with that coordinate -1.
/// Every edit is one of these.
pub proof fn lemma_edits_per_axis(pos: IVec3, cp: IVec3)
    requires
        in_chunk(pos),
    ensures
        ({
            let es = neighbour_edits(pos, cp);
            let down_x = (IVec3 { x: (cp.x - 1) as i32, y: cp.y, z: cp.z }, IVec3 { x: 30, y: pos.y, z: pos.z });
            let up_x = (IVec3 { x: (cp.x + 1) as i32, y: cp.y, z: cp.z }, IVec3 { x: -1i32, y: pos.y, z: pos.z });
            let down_y = (IVec3 { x: cp.x, y: (cp.y - 1) as i32, z: cp.z }, IVec3 { x: pos.x, y: 30, z: pos.z });
            let up_y = (IVec3 { x: cp.x, y: (cp.y + 1) as i32, z: cp.z }, IVec3 { x: pos.x, y: -1i32, z: pos.z });
            let down_z = (IVec3 { x: cp.x, y: cp.y, z: (cp.z - 1) as i32 }, IVec3 { x: pos.x, y: pos.y, z: 30 });
            let up_z = (IVec3 { x: cp.x, y: cp.y, z: (cp.z + 1) as i32 }, IVec3 { x: pos.x, y: pos.y, z: -1i32 });
            &&& (pos.x == 0) == es.contains(down_x)
            &&& (pos.x == 29) == es.contains(up_x)
            &&& (pos.y == 0) == es.contains(down_y)
            &&& (pos.y == 29) == es.contains(up_y)
            &&& (pos.z == 0) == es.contains(down_z)
            &&& (pos.z == 29) == es.contains(up_z)
            &&& es.len() == (if pos.x == 0 || pos.x == 29 { 1int } else { 0int }) + (if pos.y == 0 || pos.y == 29 {
                1int
            } else {
                0int
            }) + (if pos.z == 0 || pos.z == 29 { 1int } else { 0int })
            &&& es.no_duplicates()
            &&& forall|e: (IVec3, IVec3)| #[trigger] es.contains(e) ==> e == down_x || e == up_x || e == down_y || e == up_y
                || e == down_z || e == up_z
        }),
{
    let es = neighbour_edits(pos, cp);
    let down_x = (IVec3 { x: (cp.x - 1) as i32, y: cp.y, z: cp.z }, IVec3 { x: 30, y: pos.y, z: pos.z });
    let up_x = (IVec3 { x: (cp.x + 1) as i32, y: cp.y, z: cp.z }, IVec3 { x: -1i32, y: pos.y, z: pos.z });
    let down_y = (IVec3 { x: cp.x, y: (cp.y - 1) as i32, z: cp.z }, IVec3 { x: pos.x, y: 30, z: pos.z });
    let up_y = (IVec3 { x: cp.x, y: (cp.y + 1) as i32, z: cp.z }, IVec3 { x: pos.x, y: -1i32, z: pos.z });
    let down_z = (IVec3 { x: cp.x, y: cp.y, z: (cp.z - 1) as i32 }, IVec3 { x: pos.x, y: pos.y, z: 30 });
    let up_z = (IVec3 { x: cp.x, y: cp.y, z: (cp.z + 1) as i32 }, IVec3 { x: pos.x, y: pos.y, z: -1i32 });
    let xs: Seq<(IVec3, IVec3)> = if pos.x == 0 {
        seq![down_x]
    } else if pos.x == 29 {
        seq![up_x]
    } else {
        Seq::empty()
    };
    let ys: Seq<(IVec3, IVec3)> = if pos.y == 0 {
        seq![down_y]
    } else if pos.y == 29 {
        seq![up_y]
    } else {
        Seq::empty()
    };
    let zs: Seq<(IVec3, IVec3)> = if pos.z == 0 {
        seq![down_z]
    } else if pos.z == 29 {
        seq![up_z]
    } else {
        Seq::empty()
    };
    assert(es =~= xs + ys + zs);
    assert forall|e: (IVec3, IVec3)| es.contains(e) <==> (xs.contains(e) || ys.contains(e) || zs.contains(e)) by {
        if es.contains(e) {
            let k = choose|k: int| 0 <= k < es.len() && es[k] == e;
            if k < xs.len() {
                assert(xs[k] == e);
            } else if k < xs.len() + ys.len() {
                assert(ys[k - xs.len()] == e);
            } else {
                assert(zs[k - xs.len() - ys.len()] == e);
            }
        }
        if xs.contains(e) {
            let k = choose|k: int| 0 <= k < xs.len() && xs[k] == e;
            assert(es[k] == e);
        }
        if ys.contains(e) {
            let k = choose|k: int| 0 <= k < ys.len() && ys[k] == e;
            assert(es[xs.len() + k] == e);
        }
        if zs.contains(e) {
            let k = choose|k: int| 0 <= k < zs.len() && zs[k] == e;
            assert(es[xs.len() + ys.len() + k] == e);
        }
    }
    assert(seq![down_x][0] == down_x && seq![up_x][0] == up_x);
    assert(seq![down_y][0] == down_y && seq![up_y][0] == up_y);
    assert(seq![down_z][0] == down_z && seq![up_z][0] == up_z);
    assert(seq![down_x].contains(down_x) && seq![up_x].contains(up_x));
    assert(seq![down_y].contains(down_y) && seq![up_y].contains(up_y));
    assert(seq![down_z].contains(down_z) && seq![up_z].contains(up_z));
    assert(es.no_duplicates()) by {
        assert forall|p: int, q: int| 0 <= p < es.len() && 0 <= q < es.len() && p != q implies es[p] != es[q] by {
            if p < q {
                assert(es[p].1 != es[q].1);
            } else {
                assert(es[p].1 != es[q].1);
            }
        }
    }
}

/// Meshing the chunk and neighbours `refs` with the depth mask `depths` gives no face of
/// an invalid voxel.
pub open spec fn faces_encodable(refs: ChunkRefs, depths: AxisDepths, greedy: bool) -> bool {
    forall|faces: Seq<GreedyFace>| #[trigger] meshed_faces(faces, refs, depths, greedy) ==> no_invalid_faces(faces)
}

/// Meshing gives one outcome.
pub proof fn lemma_meshed_unique(f1: Seq<GreedyFace>, f2: Seq<GreedyFace>, refs: ChunkRefs, depths: AxisDepths, greedy: bool)
    requires
        meshed_faces(f1, refs, depths, greedy),
        meshed_faces(f2, refs, depths, greedy),
    ensures
        f1 == f2,
{
    let (c1, t1) = choose|c: [DepthPlane; 6], t: [BlockGrids; 6]|
        culled_from(c, depths) && grids_from(t, c, refs) && f1 == if greedy {
            greedy_all(t, 6)
        } else {
            culled_all(t, 6)
        };
    let (c2, t2) = choose|c: [DepthPlane; 6], t: [BlockGrids; 6]|
        culled_from(c, depths) && grids_from(t, c, refs) && f2 == if greedy {
            greedy_all(t, 6)
        } else {
            culled_all(t, 6)
        };
    crate::quads::lemma_culled_from_unique(c1, c2, depths);
    crate::quads::lemma_grids_from_unique(t1, t2, c1, refs);
}

impl Chunk {
    /// Whether `update` can run with these neighbours: it need not mesh, it builds a fresh
    /// depth mask, or the kept mask gives no face of an invalid voxel.
    pub fn can_update(
        &self,
        x_pos: &VoxelArray,
        y_pos: &VoxelArray,
        z_pos: &VoxelArray,
        x_neg: &VoxelArray,
        y_neg: &VoxelArray,
        z_neg: &VoxelArray,
    ) -> (r: bool)
        ensures
            r == update_fits(*self, x_pos, y_pos, z_pos, x_neg, y_neg, z_neg),
    {
        if !self.needs_update {
            return true;
        }
        match &self.voxels.depth_mask {
            None => true,
            Some(mask) => {
                let refs = ChunkRefs { chunk: &self.voxels.voxels, x_pos, y_pos, z_pos, x_neg, y_neg, z_neg };
                let faces = make_faces(&refs, mask, self.greedy);
                let n = faces.len();
                let mut ok = true;
                let mut i: usize = 0;
                while i < n
                    invariant
                        n == faces@.len(),
                        i <= n,
                        ok == forall|j: int| 0 <= j < i ==> (#[trigger] faces@[j]).block_type != BlockType::Invalid,
                    decreases n - i,
                {
                    if faces[i].block_type == BlockType::Invalid {
                        ok = false;
                    }
                    i = i + 1;
                }
                if !ok {
                    proof {
                        assert(!no_invalid_faces(faces@));
                        assert(!faces_encodable(refs, **mask, self.greedy));
                    }
                    return false;
                }
                proof {
                    assert forall|f: Seq<GreedyFace>| #[trigger] meshed_faces(f, refs, **mask, self.greedy) implies no_invalid_faces(f) by {
                        lemma_meshed_unique(f, faces@, refs, **mask, self.greedy);
                    }
                }
                true
            },
        }
    }
}

/// Greedy and culled meshing of the same chunk with the same depth mask agree, whatever
/// the mask: the greedy rectangles are disjoint and cover exactly the faces that culled
/// meshing emits, so there are never more rectangles than faces.
pub proof fn lemma_greedy_matches_culled(
    greedy: Seq<GreedyFace>,
    culled: Seq<GreedyFace>,
    refs: ChunkRefs,
    depths: AxisDepths,
)
    requires
        meshed_faces(greedy, refs, depths, true),
        meshed_faces(culled, refs, depths, false),
    ensures
        crate::greedy_law::faces_disjoint(greedy),
        forall|f: GreedyFace|
            f.width == 0 && f.height == 0 ==> #[trigger] culled.contains(f) == crate::greedy_law::covers_face(
                greedy,
                f.dir,
                f.block_type,
                f.z as int,
                f.x as int,
                f.y as int,
            ),
        greedy.len() <= culled.len(),
{
    let (c1, t1) = choose|c: [DepthPlane; 6], t: [BlockGrids; 6]|
        culled_from(c, depths) && grids_from(t, c, refs) && greedy == greedy_all(t, 6);
    let (c2, t2) = choose|c: [DepthPlane; 6], t: [BlockGrids; 6]|
        culled_from(c, depths) && grids_from(t, c, refs) && culled == culled_all(t, 6);
    crate::quads::lemma_culled_from_unique(c1, c2, depths);
    crate::quads::lemma_grids_from_unique(t1, t2, c1, refs);
    crate::greedy_law::lemma_greedy_covers_culled(depths, refs, c1, t1);
    crate::mesh_laws::lemma_all_grids_fit(t2, c2, refs);
    crate::culled_law::lemma_all_exact(t2, 6);
    crate::greedy_law::lemma_cover_no_longer(greedy, culled);
}

} // verus!
