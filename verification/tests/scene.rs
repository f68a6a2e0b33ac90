use engine::block::BlockType;
use engine::scene::{column_block, cube_scene, noise_column, single_scene};

#[test]
fn column_layers_by_height() {
    assert_eq!(column_block(19, 20), BlockType::Snow);
    assert_eq!(column_block(18, 20), BlockType::Snow);
    assert_eq!(column_block(17, 20), BlockType::Grass);
    assert_eq!(column_block(11, 20), BlockType::Grass);
    assert_eq!(column_block(10, 20), BlockType::Stone);
    assert_eq!(column_block(0, -5), BlockType::Snow);
    assert_eq!(column_block(-9, -5), BlockType::Stone);
    assert_eq!(column_block(-8, -5), BlockType::Stone);
    assert_eq!(column_block(-7, -5), BlockType::Snow);
}

#[test]
fn column_runs_from_zero_to_its_height() {
    let c = noise_column(3, -4, 4, 6);
    assert_eq!(
        c,
        vec![
            ((3, 0, -4), BlockType::Stone),
            ((3, 1, -4), BlockType::Stone),
            ((3, 2, -4), BlockType::Stone),
            ((3, 3, -4), BlockType::Stone),
            ((3, 4, -4), BlockType::Snow),
        ]
    );
    assert!(noise_column(0, 0, -1, 6).is_empty());
}

#[test]
fn fixed_scenes() {
    assert_eq!(single_scene(), vec![((0, 30, -5), BlockType::Grass)]);
    let cube = cube_scene();
    assert_eq!(cube.len(), 32 * 32 * 32);
    assert_eq!(cube[0], ((0, 0, 32), BlockType::Grass));
    assert_eq!(cube[32 * 32 * 32 - 1], ((31, 31, 63), BlockType::Grass));
}
