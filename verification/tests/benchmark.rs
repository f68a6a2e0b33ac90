use engine::bench_report::ReportRow;
use engine::bench_stats::{draw_call_stats, duration_averages, duration_stats};
use engine::benchmark::Benchmark;

#[test]
fn disabled_benchmark_gives_empty_handles() {
    let mut b = Benchmark::new("root");
    let a = b.start("frame");
    assert!(a.bench.is_none());
    assert_eq!(b.nodes.len(), 1);
    a.end(&mut b);
    assert_eq!(b.end(), 0);
}

#[test]
fn start_and_end_record_a_duration() {
    let mut b = Benchmark::new("root");
    b.enable();
    let a = b.start("frame");
    assert_eq!(a.bench, Some(1));
    assert_eq!(b.nodes[1].name, "frame");
    assert!(b.nodes[1].enabled && !b.nodes[1].ended);
    assert_eq!(b.nodes[0].finished, vec![1]);
    assert_eq!(b.nodes[0].active, Some(1));
    a.end(&mut b);
    assert!(b.nodes[1].ended);
    assert_eq!(b.nodes[1].durations.len(), 1);
    assert_eq!(b.nodes[1].durations[0].len(), 1);
}

#[test]
fn starting_an_ended_name_again_reuses_its_timer() {
    let mut b = Benchmark::new("root");
    b.enable();
    let a = b.start("frame");
    a.end(&mut b);
    let again = b.start("frame");
    assert_eq!(again.bench, Some(1));
    assert_eq!(b.nodes.len(), 2);
    assert_eq!(b.nodes[1].draw_calls, vec![0]);
    b.draw();
    assert_eq!(b.nodes[0].draw_calls, vec![1]);
    assert_eq!(b.nodes[1].draw_calls, vec![1]);
    assert_eq!(b.end(), 2);
    assert!(b.nodes[0].ended && b.nodes[1].ended);
    assert_eq!(b.nodes[1].durations[0].len(), 2);
    assert_eq!(b.end(), 0);
}

#[test]
fn nested_starts_go_to_the_running_timer() {
    let mut b = Benchmark::new("root");
    b.enable();
    let outer = b.start("update");
    let inner = b.start("meshing");
    assert_eq!(outer.bench, Some(1));
    assert_eq!(inner.bench, Some(2));
    assert_eq!(b.nodes[1].finished, vec![2]);
    assert_eq!(b.get_depth(0, 0), 2);
    assert_eq!(b.get_depth(0, 3), 5);
    assert_eq!(b.get_max_name_len(0, 0), 7);
    assert_eq!(b.get_max_name_len(0, 10), 10);
    assert_eq!(b.end(), 3);
}

#[test]
fn restarting_a_parent_opens_new_sets_for_its_children() {
    let mut b = Benchmark::new("root");
    b.enable();
    let a = b.start("frame");
    a.end(&mut b);
    b.restart();
    assert_eq!(b.nodes[0].draw_calls, vec![0]);
    assert_eq!(b.nodes[1].durations.len(), 2);
    assert!(b.nodes[1].durations[1].is_empty());
}

#[test]
fn disable_stops_everything() {
    let mut b = Benchmark::new("root");
    b.enable();
    let _a = b.start("frame");
    b.disable();
    assert!(b.nodes.iter().all(|n| !n.enabled && n.ended && n.active.is_none()));
    assert_eq!(b.nodes[1].durations[0].len(), 0);
}

#[test]
fn durations_are_kept_in_nanoseconds() {
    let mut b = Benchmark::new("root");
    b.enable();
    let a = b.start("frame");
    a.end(&mut b);
    let nanos = b.nodes[1].durations_nanos();
    assert_eq!(nanos.len(), 1);
    assert_eq!(nanos[0].len(), 1);
    assert_eq!(nanos, b.nodes[1].durations);
    assert!(nanos[0][0] <= engine::bench_stats::MAX_DURATION_NANOS);
}

#[test]
fn draw_call_figures() {
    let s = draw_call_stats(&vec![3, 1, 4, 1, 5]);
    assert_eq!((s.min, s.max, s.avg), (1, 5, 2));
    let one = draw_call_stats(&vec![7]);
    assert_eq!((one.min, one.max, one.avg), (7, 7, 7));
}

#[test]
fn duration_figures() {
    let s = duration_stats(&vec![vec![5, 1], vec![], vec![3]]);
    assert_eq!((s.lowest, s.highest, s.total, s.count), (1, 5, 9, 3));
    assert_eq!((s.lowest_set_total, s.min_set_count), (0, 0));
    assert_eq!((s.highest_set_total, s.max_set_count), (6, 2));
    assert_eq!(s.set_count_total, 3);
    let t = duration_stats(&vec![vec![4], vec![2, 2], vec![1]]);
    assert_eq!((t.lowest_set_total, t.min_set_count), (1, 1));
    assert_eq!((t.highest_set_total, t.max_set_count), (4, 1));
}

#[test]
fn no_durations() {
    let s = duration_stats(&vec![vec![]]);
    assert_eq!(s.lowest, engine::bench_stats::MAX_DURATION_NANOS);
    assert_eq!((s.highest, s.total, s.count), (0, 0, 0));
    assert_eq!((s.lowest_set_total, s.min_set_count), (0, 0));
    assert_eq!((s.highest_set_total, s.max_set_count), (0, 0));
}

#[test]
fn trees_built_by_the_operations_are_well_formed() {
    let mut b = Benchmark::new("root");
    assert!(b.is_well_formed());
    b.enable();
    let a = b.start("a");
    let _c = b.start("c");
    a.end(&mut b);
    b.draw();
    assert!(b.is_well_formed());
    b.nodes[0].finished.push(0);
    assert!(!b.is_well_formed());
    b.nodes[0].finished.pop();
    b.nodes[2].durations.clear();
    assert!(!b.is_well_formed());
    let empty = Benchmark { nodes: vec![] };
    assert!(!empty.is_well_formed());
}

#[test]
fn report_rows_follow_the_tree() {
    let mut b = Benchmark::new("root");
    assert!(b.report_rows().is_empty());
    b.enable();
    let outer = b.start("update");
    let inner = b.start("meshing");
    inner.end(&mut b);
    outer.end(&mut b);
    let other = b.start("render");
    other.end(&mut b);
    let _ = b.end();
    assert_eq!(
        b.report_rows(),
        vec![
            ReportRow::Figures { id: 0, depth: 0, is_last: true, parent_last: true },
            ReportRow::Figures { id: 1, depth: 1, is_last: false, parent_last: true },
            ReportRow::Figures { id: 2, depth: 2, is_last: true, parent_last: false },
            ReportRow::Close { id: 2, depth: 2 },
            ReportRow::Figures { id: 3, depth: 1, is_last: true, parent_last: true },
            ReportRow::Close { id: 0, depth: 0 },
        ]
    );
}

#[test]
fn report_marks_running_timers() {
    let mut b = Benchmark::new("root");
    b.enable();
    let a = b.start("frame");
    a.end(&mut b);
    b.restart();
    let _running = b.start("frame");
    b.nodes[0].ended = true;
    b.nodes[0].durations[0].push(5);
    let rows = b.report_rows();
    assert_eq!(rows[1], ReportRow::NotEnded { id: 1 });
}

#[test]
fn duration_means_round_down() {
    let s = duration_stats(&vec![vec![5, 1], vec![], vec![3]]);
    let a = duration_averages(&s, 3);
    assert_eq!(a.set_count, 1);
    assert_eq!(a.set_total, 3);
    assert_eq!(a.single, 3);
    let t = duration_stats(&vec![vec![1_000_000_000, 2], vec![1]]);
    let b = duration_averages(&t, 2);
    assert_eq!(b.set_count, 1);
    assert_eq!(b.set_total, 500_000_001);
    assert_eq!(b.single, 333_333_334);
}

#[test]
fn record_adds_to_the_last_set() {
    let mut b = Benchmark::new("root");
    b.enable();
    b.restart();
    let a = b.start("frame");
    a.end(&mut b);
    b.restart();
    let node = &mut b.nodes[1];
    let sets = node.durations.len();
    let before = node.durations[sets - 1].clone();
    node.record(42);
    assert_eq!(node.durations.len(), sets);
    let mut expected = before;
    expected.push(42);
    assert_eq!(node.durations[sets - 1], expected);
    assert_eq!(node.durations[0].len(), 1);
}

#[test]
fn starting_a_name_twice_keeps_one_child_of_that_name() {
    let mut b = Benchmark::new("root");
    b.enable();
    for _ in 0..3 {
        let a = b.start("frame");
        a.end(&mut b);
        let c = b.start("cull");
        c.end(&mut b);
    }
    assert_eq!(b.nodes[0].finished, vec![1, 2]);
    assert_eq!(b.nodes[1].name, "frame");
    assert_eq!(b.nodes[2].name, "cull");
}
