use engine::multidraw::setup_multidraw;
use engine::position::IVec3;
use engine::render_types::DrawArraysIndirectCommand;

#[test]
fn skipped_chunks_still_count_toward_later_instances() {
    let order = vec![(IVec3::new(0, 0, 0), 5), (IVec3::new(1, 0, 0), 3), (IVec3::new(-1, 2, 0), 4)];
    let drawn = vec![true, false, true];
    let (corners, params) = setup_multidraw(&order, &drawn, false);
    assert_eq!(corners, vec![IVec3::new(0, 0, 0), IVec3::new(-30, 60, 0)]);
    assert_eq!(
        params,
        vec![
            DrawArraysIndirectCommand { vertex_count: 4, instance_count: 5, first: 0, base_instance: 0 },
            DrawArraysIndirectCommand { vertex_count: 4, instance_count: 4, first: 0, base_instance: 8 },
        ]
    );
}

#[test]
fn pulled_vertices_draw_six_per_face() {
    let order = vec![(IVec3::new(0, 0, 0), 5), (IVec3::new(1, 0, 0), 3)];
    let (_, params) = setup_multidraw(&order, &vec![true, true], true);
    assert_eq!(
        params,
        vec![
            DrawArraysIndirectCommand { vertex_count: 30, instance_count: 1, first: 0, base_instance: 0 },
            DrawArraysIndirectCommand { vertex_count: 18, instance_count: 1, first: 30, base_instance: 0 },
        ]
    );
}

#[test]
fn nothing_drawn() {
    let (corners, params) = setup_multidraw(&vec![], &vec![], false);
    assert!(corners.is_empty() && params.is_empty());
}

#[test]
fn undrawn_entries_need_no_room_for_six_vertices() {
    let order = vec![(IVec3::new(0, 0, 0), 2), (IVec3::new(1, 0, 0), 1_000_000_000)];
    let (corners, params) = setup_multidraw(&order, &vec![true, false], true);
    assert_eq!(corners, vec![IVec3::new(0, 0, 0)]);
    assert_eq!(
        params,
        vec![DrawArraysIndirectCommand { vertex_count: 12, instance_count: 1, first: 0, base_instance: 0 }]
    );
}
