use engine::basic::Voxel;
use engine::block::BlockType;
use engine::position::IVec3;

#[test]
fn cube_vertices_and_indices() {
    let v = Voxel::get_vertices();
    assert_eq!(v.len(), 8);
    assert_eq!(v[0].position, [0, 0, 0]);
    assert_eq!(v[2].position, [1, 1, 0]);
    assert_eq!(v[6].position, [1, 1, 1]);
    let i = Voxel::get_indices();
    assert_eq!(i.len(), 36);
    assert!(i.iter().all(|x| (*x as usize) < v.len()));
    assert_eq!(&i[0..6], &[0, 1, 2, 2, 3, 0]);
}

#[test]
fn voxel_keeps_its_position() {
    let v = Voxel::new(IVec3::new(1, -2, 3), BlockType::Stone);
    assert_eq!(v.get_position(), IVec3::new(1, -2, 3));
    assert_eq!(v.block_type, BlockType::Stone);
}
