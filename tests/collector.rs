use rogic_memory::Collector;
use rogic_memory::CollectorState;
use rogic_memory::GraySlices;
use rogic_memory::Value;

#[test]
fn collector_runs_phases_in_order() {
    let mut collector = Collector::new();
    assert_eq!(collector.get_state(), CollectorState::Free);
    assert_eq!(collector.get_base_color(), 0);
    assert!(collector.request_to_collect());
    assert_eq!(collector.get_state(), CollectorState::Pending);
    assert!(!collector.request_to_collect());
    let phases = [
        CollectorState::MarkingRoots,
        CollectorState::MarkingGrays,
        CollectorState::RemarkingGrays,
        CollectorState::Sweeping,
        CollectorState::Refragmenting,
        CollectorState::Free,
    ];
    for phase in phases.iter() {
        collector.advance();
        assert_eq!(collector.get_state(), *phase);
    }
    assert_eq!(collector.get_base_color(), 3);
    collector.advance();
    assert_eq!(collector.get_state(), CollectorState::Free);
}

#[test]
fn collector_barrier_only_while_marking_grays() {
    let mut collector = Collector::new();
    assert!(!collector.capture_by_barrier(Value::make_object(1, 1)));
    collector.request_to_collect();
    collector.advance();
    collector.advance();
    assert!(collector.is_barrier_active());
    assert!(collector.capture_by_barrier(Value::make_object(1, 2)));
    assert!(collector.capture_by_barrier(Value::make_object(1, 3)));
    collector.advance();
    assert!(!collector.is_barrier_active());
    assert!(!collector.capture_by_barrier(Value::make_object(1, 4)));
    collector.drain_barrier();
    let grays = collector.list_grays(10);
    assert_eq!(grays.len(), 2);
    assert!(grays.contains(&Value::make_object(1, 2)));
    assert!(grays.contains(&Value::make_object(1, 3)));
    assert_eq!(collector.list_grays(10).len(), 0);
}

#[test]
fn gray_slices_hand_out_bounded_batches() {
    let mut grays = GraySlices::new();
    assert!(grays.is_empty());
    let mut slice: Vec<Value> = (0..5).map(|i| Value::make_integer(i)).collect();
    grays.flush_slice(&mut slice);
    assert!(slice.is_empty());
    let mut slice_2: Vec<Value> = (5..8).map(|i| Value::make_integer(i)).collect();
    grays.flush_slice(&mut slice_2);
    let mut empty: Vec<Value> = Vec::new();
    grays.flush_slice(&mut empty);
    assert!(!grays.is_empty());

    let first = grays.list_grays(4);
    assert_eq!(first.len(), 4);
    let second = grays.list_grays(4);
    assert_eq!(second.len(), 4);
    assert!(grays.is_empty());
    assert_eq!(grays.list_grays(4).len(), 0);

    let mut all: Vec<i32> = first.iter().chain(second.iter()).map(|v| v.extract_integer(-1)).collect();
    all.sort();
    assert_eq!(all, (0..8).collect::<Vec<i32>>());
}
