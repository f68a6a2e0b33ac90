use engine::block::{BasicVoxel, BlockType, Voxel};

#[test]
fn solid_block_types() {
    assert!(!BlockType::Air.is_solid());
    assert!(!BlockType::Invalid.is_solid());
    assert!(BlockType::Grass.is_solid());
    assert!(BlockType::Stone.is_solid());
    assert!(BlockType::Snow.is_solid());
}

#[test]
fn block_codes_round_trip() {
    let all = [BlockType::Invalid, BlockType::Air, BlockType::Grass, BlockType::Stone, BlockType::Snow];
    for b in all {
        let code: u32 = b.into();
        assert_eq!(code, b.code());
        assert_eq!(BlockType::try_from(code), Ok(b));
        assert_eq!(BlockType::from_code(code), Ok(b));
    }
    assert_eq!(u32::from(BlockType::Invalid), u32::MAX);
    assert_eq!(u32::from(BlockType::Air), 0);
    assert_eq!(u32::from(BlockType::Snow), 3);
}

#[test]
fn unknown_block_code_is_refused() {
    assert_eq!(BlockType::try_from(4u32), Err(()));
    assert_eq!(BlockType::from_code(17), Err(()));
}

#[test]
fn default_block_type_is_invalid() {
    assert_eq!(BlockType::default(), BlockType::Invalid);
}

#[test]
fn basic_voxel_keeps_its_type() {
    let mut v = BasicVoxel::new(BlockType::Grass);
    assert_eq!(v.get_type(), BlockType::Grass);
    v.set_type(BlockType::Snow);
    assert_eq!(v.get_type(), BlockType::Snow);
}
