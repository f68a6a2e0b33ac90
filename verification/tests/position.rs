use engine::position::{seperate_global_pos, IVec3};

#[test]
fn positive_positions_split_by_thirty() {
    let (c, i) = seperate_global_pos(&IVec3::new(31, 0, 59));
    assert_eq!(c, IVec3::new(1, 0, 1));
    assert_eq!(i, IVec3::new(1, 0, 29));
}

#[test]
fn negative_positions_are_mirrored() {
    let (c, i) = seperate_global_pos(&IVec3::new(-1, -30, -29));
    assert_eq!(c, IVec3::new(-1, -2, -1));
    assert_eq!(i, IVec3::new(28, 29, 0));
}

#[test]
fn separation_gives_the_position_back() {
    for v in [-95, -61, -60, -31, -30, -1, 0, 1, 29, 30, 89] {
        let (c, i) = seperate_global_pos(&IVec3::new(v, v, v));
        assert!(i.x >= 0 && i.x < 30);
        let back = if c.x >= 0 { c.x * 30 + i.x } else { c.x * 30 + i.x + 1 };
        assert_eq!(back, v);
    }
}
