use dashmap::DashMap;
use engine::block::BlockType;
use engine::svt64::Node;
use engine::svt64_tree::{generate_tree, tree_from_scale, tree_scale};

#[test]
fn tree_scale_rounds_a_quarter_up_to_even() {
    assert_eq!(tree_scale(0), 2);
    assert_eq!(tree_scale(1), 2);
    assert_eq!(tree_scale(8), 2);
    assert_eq!(tree_scale(9), 4);
    assert_eq!(tree_scale(16), 4);
    assert_eq!(tree_scale(17), 6);
    assert_eq!(tree_scale(100), 26);
}

#[test]
fn single_tile_tree() {
    let voxels: DashMap<(i32, i32, i32), BlockType> = DashMap::new();
    voxels.insert((-9, -1, 0), BlockType::Stone);
    voxels.insert((-9, 0, 0), BlockType::Snow);
    let (nodes, data) = generate_tree(&voxels).unwrap();
    assert_eq!(nodes, vec![Node { data_offset: 0, mask_lower: 0, mask_upper: 1 << 8 }]);
    assert_eq!(data, vec![2, 3]);
}

#[test]
fn leaf_only_tree_has_no_nodes() {
    let voxels: DashMap<(i32, i32, i32), BlockType> = DashMap::new();
    voxels.insert((0, 0, 0), BlockType::Grass);
    assert_eq!(generate_tree(&voxels), None);
    let empty: DashMap<(i32, i32, i32), BlockType> = DashMap::new();
    assert_eq!(generate_tree(&empty), None);
}

#[test]
fn half_filled_tiles_are_dropped() {
    let voxels: DashMap<(i32, i32, i32), BlockType> = DashMap::new();
    voxels.insert((-9, 0, 0), BlockType::Snow);
    voxels.insert((-10, 1, 0), BlockType::Snow);
    assert_eq!(tree_from_scale(&voxels, 4), None);
}

#[test]
fn too_large_scale_gives_no_tree() {
    let voxels: DashMap<(i32, i32, i32), BlockType> = DashMap::new();
    voxels.insert((-9, -1, 0), BlockType::Stone);
    assert_eq!(tree_from_scale(&voxels, 32), None);
}

#[test]
fn lowest_coordinate_gives_no_tree() {
    let voxels: DashMap<(i32, i32, i32), BlockType> = DashMap::new();
    voxels.insert((-9, -1, 0), BlockType::Stone);
    voxels.insert((i32::MIN, 0, 0), BlockType::Stone);
    assert_eq!(generate_tree(&voxels), None);
}
