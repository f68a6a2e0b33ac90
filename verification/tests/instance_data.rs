use engine::block::BlockType;
use engine::directions::Dir;
use engine::instance::InstanceData;

#[test]
fn instance_data_fields_round_trip() {
    let d = InstanceData::new(1, 2, 3, Dir::Up, 4, 5, BlockType::Stone);
    assert_eq!(d.x(), 1);
    assert_eq!(d.y(), 2);
    assert_eq!(d.z(), 3);
    assert_eq!(d.dir(), Dir::Up);
    assert_eq!(d.width(), 4);
    assert_eq!(d.height(), 5);
    assert_eq!(d.block_type(), BlockType::Stone);
    assert_eq!(
        d.as_int(),
        (1 << 10) | (2 << 5) | 3 | (2 << 15) | (4 << 18) | (5 << 23) | (2 << 28)
    );
}

#[test]
fn rotation_swaps_depth_onto_z() {
    let up = InstanceData::new(1, 2, 3, Dir::Up, 4, 5, BlockType::Grass).rotate_on_dir();
    assert_eq!((up.x(), up.y(), up.z()), (1, 3, 2));
    let left = InstanceData::new(1, 2, 3, Dir::Left, 4, 5, BlockType::Grass).rotate_on_dir();
    assert_eq!((left.x(), left.y(), left.z()), (3, 2, 1));
    let fwd = InstanceData::new(1, 2, 3, Dir::Forward, 4, 5, BlockType::Grass).rotate_on_dir();
    assert_eq!((fwd.x(), fwd.y(), fwd.z()), (1, 2, 3));
    assert_eq!(up.width(), 4);
    assert_eq!(up.height(), 5);
    assert_eq!(up.dir(), Dir::Up);
}

#[test]
fn rotating_twice_gives_the_face_back() {
    for d in Dir::all() {
        let f = InstanceData::new(7, 11, 29, d, 0, 28, BlockType::Snow);
        assert_eq!(f.rotate_on_dir().rotate_on_dir(), f);
    }
}

#[test]
fn instance_data_converts_to_and_from_u32() {
    let f = InstanceData::new(0, 0, 0, Dir::Backward, 0, 0, BlockType::Air);
    let n: u32 = f.into();
    assert_eq!(n, 5 << 15);
    assert_eq!(InstanceData::from(n), f);
    assert_eq!(f.as_int(), n);
}
