use engine::block::{BasicVoxel, BlockType};
use engine::chunk::Chunk;
use engine::meshing::VoxelArray;
use engine::position::IVec3;
use engine::voxel_data::VoxelData;

fn filled(b: BlockType) -> Box<VoxelArray> {
    Box::new([[[BasicVoxel::new(b); 30]; 30]; 30])
}

#[test]
fn voxel_data_set_changes_the_voxel() {
    let mut d = VoxelData::new(filled(BlockType::Air));
    assert!(d.depth_mask.is_none());
    d.set(&IVec3::new(1, 2, 3), &BlockType::Snow);
    assert_eq!(d.voxels[1][2][3].block_type, BlockType::Snow);
    assert!(d.depth_mask.is_none());
    d.set(&IVec3::new(30, 2, 3), &BlockType::Snow);
    assert_eq!(d.voxels[29][2][3].block_type, BlockType::Air);
}

#[test]
fn voxel_data_set_keeps_the_mask_up_to_date() {
    let air = filled(BlockType::Air);
    let mut d = VoxelData::new(filled(BlockType::Air));
    d.build_depths(&air, &air, &air, &air, &air, &air);
    d.set(&IVec3::new(3, 4, 5), &BlockType::Grass);
    {
        let m = d.depth_mask.as_ref().unwrap();
        assert_eq!(m[0][5][6], 1 << 4);
        assert_eq!(m[1][6][4], 1 << 5);
        assert_eq!(m[2][5][4], 1 << 6);
    }
    d.set(&IVec3::new(-1, 4, 5), &BlockType::Stone);
    assert_eq!(d.depth_mask.as_ref().unwrap()[0][5][6], (1 << 4) | 1);
    d.set(&IVec3::new(3, 4, 5), &BlockType::Air);
    assert_eq!(d.depth_mask.as_ref().unwrap()[0][5][6], 1);
    d.invalidate();
    assert!(d.depth_mask.is_none());
}

#[test]
fn set_mask_matches_a_fresh_build() {
    let air = filled(BlockType::Air);
    let mut d = VoxelData::new(filled(BlockType::Air));
    d.build_depths(&air, &air, &air, &air, &air, &air);
    d.set(&IVec3::new(10, 0, 29), &BlockType::Grass);
    let mut fresh = VoxelData::new(d.voxels.clone());
    fresh.build_depths(&air, &air, &air, &air, &air, &air);
    assert_eq!(d.depth_mask, fresh.depth_mask);
}

#[test]
fn chunk_fill_and_get() {
    let c = Chunk::fill(BlockType::Stone, true, false);
    assert_eq!(c.get(0, 0, 0), BlockType::Stone);
    assert_eq!(c.get(29, 29, 29), BlockType::Stone);
    assert!(c.needs_update);
    assert!(!c.needs_mesh_written);
    assert!(c.instances().is_empty());
}

#[test]
fn chunk_set_reports_neighbour_edits() {
    let mut c = Chunk::fill(BlockType::Air, false, false);
    let cp = IVec3::new(2, -1, 7);
    let edits = c.set(IVec3::new(0, 5, 29), BlockType::Grass, &cp, true);
    assert_eq!(c.get(0, 5, 29), BlockType::Grass);
    assert_eq!(
        edits,
        vec![
            (IVec3::new(1, -1, 7), IVec3::new(30, 5, 29)),
            (IVec3::new(2, -1, 8), IVec3::new(0, 5, -1)),
        ]
    );
    let none = c.set(IVec3::new(15, 15, 15), BlockType::Grass, &cp, true);
    assert!(none.is_empty());
    let quiet = c.set(IVec3::new(0, 0, 0), BlockType::Grass, &cp, false);
    assert!(quiet.is_empty());
}

#[test]
fn chunk_set_outside_changes_nothing() {
    let mut c = Chunk::fill(BlockType::Air, false, false);
    c.needs_update = false;
    let edits = c.set(IVec3::new(30, 0, 0), BlockType::Grass, &IVec3::new(0, 0, 0), true);
    assert!(edits.is_empty());
    assert!(!c.needs_update);
}

#[test]
fn chunk_update_meshes_once() {
    let air = filled(BlockType::Air);
    let mut c = Chunk::fill(BlockType::Air, false, false);
    c.set(IVec3::new(5, 6, 7), BlockType::Stone, &IVec3::new(0, 0, 0), false);
    assert!(c.update(&air, &air, &air, &air, &air, &air));
    assert_eq!(c.instances().len(), 6);
    assert!(c.needs_mesh_written);
    assert!(!c.needs_update);
    assert!(!c.update(&air, &air, &air, &air, &air, &air));
    c.invalidate();
    c.set(IVec3::new(6, 6, 7), BlockType::Stone, &IVec3::new(0, 0, 0), false);
    assert!(c.update(&air, &air, &air, &air, &air, &air));
    assert_eq!(c.instances().len(), 10);
}

#[test]
fn greedy_chunk_update_merges_faces() {
    let air = filled(BlockType::Air);
    let mut c = Chunk::fill(BlockType::Grass, true, false);
    assert!(c.update(&air, &air, &air, &air, &air, &air));
    assert_eq!(c.instances().len(), 6);
}

#[test]
fn neighbour_edit_and_fresh_build_use_opposite_sides() {
    let air = filled(BlockType::Air);
    let mut above = Chunk::fill(BlockType::Air, false, false);
    let mut below = VoxelData::new(filled(BlockType::Air));
    below.build_depths(&above.voxels.voxels, &air, &air, &air, &air, &air);
    let edits = above.set(IVec3::new(0, 5, 6), BlockType::Grass, &IVec3::new(1, 0, 0), true);
    assert_eq!(edits, vec![(IVec3::new(0, 0, 0), IVec3::new(30, 5, 6))]);
    below.set(&edits[0].1, &BlockType::Grass);
    assert_eq!(below.depth_mask.as_ref().unwrap()[0][6][7], 1 << 31);
    let mut fresh = VoxelData::new(below.voxels.clone());
    fresh.build_depths(&above.voxels.voxels, &air, &air, &air, &air, &air);
    assert_eq!(fresh.depth_mask.as_ref().unwrap()[0][6][7], 1);
}

#[test]
fn can_update_refuses_a_stale_mask_over_an_invalid_voxel() {
    let air = filled(BlockType::Air);
    let mut c = Chunk::fill(BlockType::Air, false, false);
    c.set(IVec3::new(5, 5, 5), BlockType::Stone, &IVec3::new(0, 0, 0), false);
    assert!(c.can_update(&air, &air, &air, &air, &air, &air));
    assert!(c.update(&air, &air, &air, &air, &air, &air));
    c.voxels.voxels[5][5][5] = BasicVoxel::new(BlockType::Invalid);
    c.needs_update = true;
    assert!(!c.can_update(&air, &air, &air, &air, &air, &air));
    let mut fresh = Chunk::fill(BlockType::Invalid, false, false);
    assert!(fresh.can_update(&air, &air, &air, &air, &air, &air));
    assert!(fresh.update(&air, &air, &air, &air, &air, &air));
    assert!(fresh.instances().is_empty());
}
