use engine::block::{BasicVoxel, BlockType};
use engine::chunk::{face_instances, make_faces};
use engine::directions::Dir;
use engine::instance::InstanceData;
use engine::meshing::{build_depths, cull_depths, ChunkRefs, VoxelArray};
use engine::quads::{culled_face, greedy_face, make_culled_faces, make_greedy_faces, GreedyFace};

fn filled(b: BlockType) -> Box<VoxelArray> {
    Box::new([[[BasicVoxel::new(b); 30]; 30]; 30])
}

fn refs<'a>(chunk: &'a VoxelArray, around: &'a VoxelArray) -> ChunkRefs<'a> {
    ChunkRefs {
        chunk,
        x_pos: around,
        y_pos: around,
        z_pos: around,
        x_neg: around,
        y_neg: around,
        z_neg: around,
    }
}

#[test]
fn culled_face_emits_one_face_per_bit() {
    let mut face = [0u32; 30];
    face[4] = 0b101;
    let quads = culled_face(&face, 7, Dir::Right, &BlockType::Stone);
    let expected = vec![
        GreedyFace { x: 4, y: 0, z: 7, dir: Dir::Right, width: 0, height: 0, block_type: BlockType::Stone },
        GreedyFace { x: 4, y: 2, z: 7, dir: Dir::Right, width: 0, height: 0, block_type: BlockType::Stone },
    ];
    assert_eq!(quads, expected);
}

#[test]
fn greedy_face_merges_a_full_plane_into_one_rectangle() {
    let mut face = [0x3FFF_FFFFu32; 30];
    let quads = greedy_face(&mut face, 3, Dir::Up, &BlockType::Grass);
    assert_eq!(quads.len(), 1);
    assert_eq!(
        quads[0],
        GreedyFace { x: 0, y: 0, z: 3, dir: Dir::Up, width: 29, height: 29, block_type: BlockType::Grass }
    );
}

#[test]
fn greedy_face_keeps_separate_runs_apart() {
    let mut face = [0u32; 30];
    face[0] = 0b0110;
    face[1] = 0b0110;
    face[5] = 0b1;
    let quads = greedy_face(&mut face, 0, Dir::Down, &BlockType::Snow);
    assert_eq!(quads.len(), 2);
    assert_eq!((quads[0].x, quads[0].y, quads[0].width, quads[0].height), (0, 1, 1, 1));
    assert_eq!((quads[1].x, quads[1].y, quads[1].width, quads[1].height), (5, 0, 0, 0));
}

#[test]
fn empty_chunk_has_no_faces() {
    let air = filled(BlockType::Air);
    let r = refs(&air, &air);
    let depths = build_depths(&r);
    assert!(make_culled_faces(&r, &depths).is_empty());
    assert!(make_greedy_faces(&r, &depths).is_empty());
}

#[test]
fn buried_chunk_has_no_faces() {
    let grass = filled(BlockType::Grass);
    let r = refs(&grass, &grass);
    let depths = build_depths(&r);
    assert!(make_faces(&r, &depths, false).is_empty());
    assert!(make_faces(&r, &depths, true).is_empty());
}

#[test]
fn exposed_full_chunk_meshes_each_side() {
    let stone = filled(BlockType::Stone);
    let air = filled(BlockType::Air);
    let r = refs(&stone, &air);
    let depths = build_depths(&r);
    let culled = make_culled_faces(&r, &depths);
    assert_eq!(culled.len(), 6 * 30 * 30);
    let greedy = make_greedy_faces(&r, &depths);
    assert_eq!(greedy.len(), 6);
    for f in greedy.iter() {
        assert_eq!((f.width, f.height), (29, 29));
        assert_eq!(f.block_type, BlockType::Stone);
    }
}

#[test]
fn single_voxel_has_six_faces_at_its_position() {
    let mut chunk = filled(BlockType::Air);
    chunk[5][6][7] = BasicVoxel::new(BlockType::Stone);
    let air = filled(BlockType::Air);
    let r = refs(&chunk, &air);
    let depths = build_depths(&r);
    for greedy in [false, true] {
        let faces = make_faces(&r, &depths, greedy);
        assert_eq!(faces.len(), 6);
        let instances = face_instances(&faces);
        let mut dirs = vec![];
        for inst in instances.iter() {
            let d = InstanceData::from(inst.data);
            assert_eq!((d.x(), d.y(), d.z()), (5, 6, 7));
            assert_eq!((d.width(), d.height()), (0, 0));
            assert_eq!(d.block_type(), BlockType::Stone);
            dirs.push(d.dir().index());
        }
        dirs.sort();
        assert_eq!(dirs, vec![0, 1, 2, 3, 4, 5]);
    }
}

#[test]
fn depth_mask_has_a_bit_per_solid_voxel() {
    let mut chunk = filled(BlockType::Air);
    chunk[2][3][4] = BasicVoxel::new(BlockType::Grass);
    let air = filled(BlockType::Air);
    let depths = build_depths(&refs(&chunk, &air));
    assert_eq!(depths[0][4][5], 1 << 3);
    assert_eq!(depths[1][5][3], 1 << 4);
    assert_eq!(depths[2][4][3], 1 << 5);
    assert_eq!(depths[0][0][0], 0);
}

#[test]
fn culling_keeps_only_the_ends_of_runs() {
    let mut chunk = filled(BlockType::Air);
    for x in 3..6 {
        chunk[x][0][0] = BasicVoxel::new(BlockType::Grass);
    }
    let air = filled(BlockType::Air);
    let depths = build_depths(&refs(&chunk, &air));
    assert_eq!(depths[0][1][1], 0b111 << 4);
    let culled = cull_depths(&depths);
    assert_eq!(culled[0][1][1], 1 << 4);
    assert_eq!(culled[1][1][1], 1 << 6);
}

#[test]
fn neighbour_layers_sit_opposite_their_side() {
    let air = filled(BlockType::Air);
    let mut below = filled(BlockType::Air);
    below[29][3][4] = BasicVoxel::new(BlockType::Stone);
    let mut above = filled(BlockType::Air);
    above[0][3][4] = BasicVoxel::new(BlockType::Stone);
    let r = ChunkRefs {
        chunk: &air,
        x_pos: &above,
        y_pos: &air,
        z_pos: &air,
        x_neg: &below,
        y_neg: &air,
        z_neg: &air,
    };
    let depths = build_depths(&r);
    assert_eq!(depths[0][4][5], 1 | (1 << 31));
    let mut low_y = filled(BlockType::Air);
    low_y[3][29][4] = BasicVoxel::new(BlockType::Grass);
    let r = ChunkRefs { y_neg: &low_y, ..refs(&air, &air) };
    assert_eq!(build_depths(&r)[1][5][4], 1 << 31);
    let mut high_z = filled(BlockType::Air);
    high_z[3][4][0] = BasicVoxel::new(BlockType::Grass);
    let r = ChunkRefs { z_pos: &high_z, ..refs(&air, &air) };
    assert_eq!(build_depths(&r)[2][5][4], 1);
}

#[test]
fn border_voxel_is_culled_against_the_layer_beside_it() {
    let mut chunk = filled(BlockType::Air);
    chunk[0][10][10] = BasicVoxel::new(BlockType::Stone);
    let air = filled(BlockType::Air);
    let stone = filled(BlockType::Stone);
    let r = ChunkRefs { x_pos: &stone, ..refs(&chunk, &air) };
    let faces = make_culled_faces(&r, &build_depths(&r));
    assert_eq!(faces.len(), 5);
    let r = ChunkRefs { x_neg: &stone, ..refs(&chunk, &air) };
    assert_eq!(make_culled_faces(&r, &build_depths(&r)).len(), 6);
}

#[test]
fn greedy_covers_culled_with_a_stale_mask() {
    let mut chunk = filled(BlockType::Air);
    for x in 2..7 {
        for z in 3..5 {
            chunk[x][4][z] = BasicVoxel::new(BlockType::Grass);
        }
    }
    chunk[20][20][20] = BasicVoxel::new(BlockType::Snow);
    let air = filled(BlockType::Air);
    let mut other = filled(BlockType::Air);
    other[2][4][3] = BasicVoxel::new(BlockType::Grass);
    other[9][9][9] = BasicVoxel::new(BlockType::Stone);
    let stale = build_depths(&refs(&other, &air));
    let r = refs(&chunk, &air);
    let culled = make_culled_faces(&r, &stale);
    let greedy = make_greedy_faces(&r, &stale);
    let mut covered = vec![];
    for q in greedy.iter() {
        for x in q.x..=q.x + q.width {
            for y in q.y..=q.y + q.height {
                covered.push(GreedyFace { x, y, width: 0, height: 0, ..*q });
            }
        }
    }
    let mut expected = culled.clone();
    expected.sort_by_key(|f| (f.dir.index(), f.block_type.code(), f.z, f.x, f.y));
    covered.sort_by_key(|f| (f.dir.index(), f.block_type.code(), f.z, f.x, f.y));
    assert_eq!(covered, expected);
}
