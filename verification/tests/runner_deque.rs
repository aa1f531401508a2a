use bughunt_rust::deque_runner::DequeFailureKind;
use bughunt_rust::deque_runner::run_deque_buffer;
use bughunt_rust::deque_runner::run_deque_ops;
use bughunt_rust::vec_deque::Op;

#[test]
fn deque_empty_op_list_passes() {
    let report = run_deque_ops(&Vec::new(), 0);
    assert!(report.failure.is_none());
    assert_eq!(report.ops_run, 0);
}

#[test]
fn push_pop_round_trip_passes_against_std() {
    // push_back(5), push_front(9): the pops return 9 then 5, and both sides
    // agree they are empty afterwards; the final PopBack on the empty state
    // must agree on None too.
    let ops = vec![Op::PushBack(5), Op::PushFront(9), Op::PopFront, Op::PopBack, Op::PopBack];
    let report = run_deque_ops(&ops, 2);
    assert!(report.failure.is_none());
    assert_eq!(report.ops_run, 5);
}

#[test]
fn deque_mixed_workload_passes_against_std() {
    let mut ops = Vec::new();
    for t in 0..100u8 {
        ops.push(Op::PushBack(t));
        if t % 3 == 0 {
            ops.push(Op::PushFront(t));
        }
        if t % 7 == 0 {
            ops.push(Op::PopBack);
        }
    }
    ops.push(Op::Remove(4));
    ops.push(Op::Remove(100_000));
    ops.push(Op::Insert(0, 42));
    ops.push(Op::ShrinkToFit);
    ops.push(Op::Clear);
    ops.push(Op::PopFront);
    let report = run_deque_ops(&ops, 8);
    assert!(report.failure.is_none());
    assert_eq!(report.ops_run, ops.len());
}

#[test]
fn out_of_range_insert_is_skipped_on_both_sides() {
    let ops = vec![Op::PushBack(1), Op::Insert(50, 9), Op::PopBack];
    let report = run_deque_ops(&ops, 0);
    assert!(report.failure.is_none());
    assert_eq!(report.ops_run, 3);
}

#[test]
fn swap_remove_back_in_bounds_agrees_with_std() {
    let ops = vec![
        Op::PushBack(1),
        Op::PushBack(2),
        Op::PushBack(3),
        Op::SwapRemoveBack(0),
        Op::PopFront,
        Op::PopBack,
    ];
    let report = run_deque_ops(&ops, 0);
    assert!(report.failure.is_none());
}

#[test]
fn swap_remove_back_single_element_divergence_is_reported() {
    // The model treats swap_remove_back on a one-element deque as pop_back
    // whatever the index is; the standard library refuses an out-of-bounds
    // index even then.  The engine must catch that divergence as a
    // discrepancy at the offending operation.
    let ops = vec![Op::PushBack(7), Op::SwapRemoveBack(3)];
    let report = run_deque_ops(&ops, 0);
    let failure = report.failure.expect("the divergence must be reported");
    assert_eq!(failure.position, 1);
    assert_eq!(failure.op, Op::SwapRemoveBack(3));
    assert!(matches!(
        failure.kind,
        DequeFailureKind::Discrepancy { model: Some(7), sut: None }
    ));
    assert_eq!(report.ops_run, 2);
}

#[test]
fn deque_clear_and_shrink_pass_on_every_state() {
    let ops = vec![
        Op::Clear,
        Op::ShrinkToFit,
        Op::PushBack(1),
        Op::PushFront(2),
        Op::Clear,
        Op::Clear,
        Op::ShrinkToFit,
        Op::ShrinkToFit,
    ];
    let report = run_deque_ops(&ops, 100);
    assert!(report.failure.is_none());
}

#[test]
fn deque_buffer_run_decodes_header_then_streams() {
    // capacity 4, then PushBack(5), PushFront(9), PopFront, PopBack.
    let data = vec![4, 0, 5, 2, 9, 3, 1];
    let report = run_deque_buffer(data, 64).unwrap();
    assert!(report.failure.is_none());
    assert_eq!(report.ops_run, 4);
}

#[test]
fn deque_buffer_too_short_for_header_ends_cleanly() {
    assert!(run_deque_buffer(vec![], 64).is_none());
    assert!(run_deque_buffer(vec![1], 0).is_none());
}

#[test]
fn deque_replaying_the_same_buffer_gives_the_same_outcome() {
    let data: Vec<u8> = (0..300u16).map(|i| (i.wrapping_mul(23) % 201) as u8).collect();
    let first = run_deque_buffer(data.clone(), 65_563).unwrap();
    let second = run_deque_buffer(data, 65_563).unwrap();
    assert_eq!(first.ops_run, second.ops_run);
    assert_eq!(first.failure.is_none(), second.failure.is_none());
    if let (Some(f1), Some(f2)) = (&first.failure, &second.failure) {
        assert_eq!(f1.position, f2.position);
        assert_eq!(f1.op, f2.op);
    }
}
