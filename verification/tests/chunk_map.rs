use dashmap::DashMap;
use engine::block::BlockType;
use engine::chunk::Chunk;
use engine::chunk_map::{chunk_data, get_block_at, mesh_chunks, neighbours, set_block};
use engine::position::IVec3;

fn all_of(v: &[[[engine::block::BasicVoxel; 30]; 30]; 30], b: BlockType) -> bool {
    v.iter().flatten().flatten().all(|x| x.block_type == b)
}

#[test]
fn missing_neighbours_are_air() {
    let chunks: DashMap<(i32, i32, i32), Chunk> = DashMap::new();
    chunks.insert((0, 0, 0), Chunk::fill(BlockType::Grass, false, false));
    chunks.insert((1, 0, 0), Chunk::fill(BlockType::Stone, false, false));
    chunks.insert((0, 0, -1), Chunk::fill(BlockType::Snow, false, false));
    let n = neighbours(&chunks, (0, 0, 0));
    assert!(all_of(&n.x_pos, BlockType::Stone));
    assert!(all_of(&n.z_neg, BlockType::Snow));
    assert!(all_of(&n.y_pos, BlockType::Air));
    assert!(all_of(&n.z_pos, BlockType::Air));
    assert!(all_of(&n.x_neg, BlockType::Air));
    assert!(all_of(&n.y_neg, BlockType::Air));
}

#[test]
fn scene_voxels_are_sorted_into_chunks() {
    let data: DashMap<(i32, i32, i32), BlockType> = DashMap::new();
    data.insert((-1, 5, 31), BlockType::Stone);
    data.insert((2, 3, 4), BlockType::Grass);
    data.insert((29, 0, 0), BlockType::Snow);
    let mut chunks: DashMap<(i32, i32, i32), Chunk> = DashMap::new();
    chunk_data(&data, true, false, &mut chunks);
    assert_eq!(chunks.len(), 2);
    {
        let c = chunks.get(&(-1, 0, 1)).unwrap();
        assert_eq!(c.get(28, 5, 1), BlockType::Stone);
        assert_eq!(c.get(29, 5, 1), BlockType::Air);
        assert!(c.greedy && !c.frustum_cull && c.needs_update);
        assert!(c.voxels.depth_mask.is_none());
    }
    {
        let c = chunks.get(&(0, 0, 0)).unwrap();
        assert_eq!(c.get(2, 3, 4), BlockType::Grass);
        assert_eq!(c.get(29, 0, 0), BlockType::Snow);
        assert_eq!(c.get(0, 0, 0), BlockType::Air);
    }
    assert_eq!(get_block_at(&chunks, &IVec3::new(-1, 5, 31)), BlockType::Stone);
    assert_eq!(get_block_at(&chunks, &IVec3::new(2, 3, 4)), BlockType::Grass);
    assert_eq!(get_block_at(&chunks, &IVec3::new(2, 3, 5)), BlockType::Air);
    assert_eq!(get_block_at(&chunks, &IVec3::new(500, 0, 0)), BlockType::Air);
}

#[test]
fn meshing_the_map_meshes_each_chunk_once() {
    let mut chunks: DashMap<(i32, i32, i32), Chunk> = DashMap::new();
    chunks.insert((0, 0, 0), Chunk::fill(BlockType::Stone, false, false));
    chunks.insert((1, 0, 0), Chunk::fill(BlockType::Stone, false, false));
    assert!(mesh_chunks(&mut chunks));
    for e in chunks.iter() {
        assert!(!e.value().needs_update);
        assert!(e.value().needs_mesh_written);
        // Five sides of 30 x 30 faces each show; one is hidden by the other chunk.
        assert_eq!(e.value().instances.len(), 5 * 900);
    }
    assert!(!mesh_chunks(&mut chunks));
}

#[test]
fn setting_a_border_voxel_edits_the_neighbour_mask_only() {
    let mut chunks: DashMap<(i32, i32, i32), Chunk> = DashMap::new();
    chunks.insert((0, 0, 0), Chunk::fill(BlockType::Air, false, false));
    chunks.insert((-1, 0, 0), Chunk::fill(BlockType::Air, false, false));
    assert!(mesh_chunks(&mut chunks));
    let before = chunks.get(&(-1, 0, 0)).unwrap().voxels.depth_mask.clone().unwrap();
    set_block(&mut chunks, &IVec3::new(0, 0, 0), IVec3::new(0, 3, 4), BlockType::Stone, true);
    {
        let c = chunks.get(&(0, 0, 0)).unwrap();
        assert_eq!(c.get(0, 3, 4), BlockType::Stone);
        assert!(c.needs_update);
    }
    let n = chunks.get(&(-1, 0, 0)).unwrap();
    assert!(!n.needs_update);
    assert!(all_of(&n.voxels.voxels, BlockType::Air));
    let after = n.voxels.depth_mask.clone().unwrap();
    assert_eq!(before[0][4][5], 0);
    assert_eq!(after[0][4][5], 1 << 31);
}

#[test]
fn setting_outside_or_in_a_missing_chunk_changes_nothing() {
    let mut chunks: DashMap<(i32, i32, i32), Chunk> = DashMap::new();
    chunks.insert((0, 0, 0), Chunk::fill(BlockType::Air, false, false));
    set_block(&mut chunks, &IVec3::new(0, 0, 0), IVec3::new(30, 0, 0), BlockType::Stone, true);
    set_block(&mut chunks, &IVec3::new(5, 0, 0), IVec3::new(1, 1, 1), BlockType::Stone, true);
    assert_eq!(chunks.len(), 1);
    assert!(all_of(&chunks.get(&(0, 0, 0)).unwrap().voxels.voxels, BlockType::Air));
}

#[test]
fn sorting_into_a_meshed_chunk_keeps_its_mask_up_to_date() {
    let mut chunks: DashMap<(i32, i32, i32), Chunk> = DashMap::new();
    chunks.insert((0, 0, 0), Chunk::fill(BlockType::Air, false, true));
    assert!(mesh_chunks(&mut chunks));
    let data: DashMap<(i32, i32, i32), BlockType> = DashMap::new();
    data.insert((3, 4, 5), BlockType::Grass);
    chunk_data(&data, true, false, &mut chunks);
    let c = chunks.get(&(0, 0, 0)).unwrap();
    assert!(c.needs_update && !c.greedy && c.frustum_cull);
    assert_eq!(c.get(3, 4, 5), BlockType::Grass);
    let m = c.voxels.depth_mask.as_ref().unwrap();
    assert_eq!(m[0][5][6], 1 << 4);
    assert_eq!(m[1][6][4], 1 << 5);
    assert_eq!(m[2][5][4], 1 << 6);
}
