use bughunt_rust::hash_map::Op;
use bughunt_rust::map_runner::MapFailureKind;
use bughunt_rust::map_runner::run_map_buffer;
use bughunt_rust::map_runner::run_map_buffer_cyclic;
use bughunt_rust::map_runner::run_map_ops;

#[test]
fn map_empty_op_list_passes() {
    let report = run_map_ops(&Vec::new(), 0, 0);
    assert!(report.failure.is_none());
    assert_eq!(report.ops_run, 0);
}

#[test]
fn insert_overwrite_get_passes_against_std() {
    // The model and std's HashMap agree on overwrite semantics: the second
    // insert returns the first value, the lookup sees the second.
    let ops = vec![
        Op::Insert { k: 1, v: 10 },
        Op::Insert { k: 1, v: 20 },
        Op::Get { k: 1 },
    ];
    let report = run_map_ops(&ops, 0, 4);
    assert!(report.failure.is_none());
    assert_eq!(report.ops_run, 3);
}

#[test]
fn map_mixed_workload_passes_against_std() {
    let mut ops = Vec::new();
    for k in 0..50u16 {
        ops.push(Op::Insert { k, v: k.wrapping_mul(3) });
    }
    ops.push(Op::Get { k: 25 });
    ops.push(Op::ShrinkToFit);
    ops.push(Op::Clear);
    ops.push(Op::Get { k: 25 });
    ops.push(Op::Insert { k: 10, v: 30 });
    ops.push(Op::Remove { k: 10 });
    ops.push(Op::Get { k: 10 });
    let report = run_map_ops(&ops, 7, 2);
    if let Some(f) = report.failure {
        panic!("unexpected failure: {:?}", f);
    }
    assert_eq!(report.ops_run, ops.len());
}

#[test]
fn clear_after_remove_reports_a_capacity_change() {
    // A removal can leave a tombstone in the hash table, which lowers the
    // reported capacity by one until the table is rebuilt; `clear` rebuilds
    // the control bytes and restores the full capacity.  The capacity is
    // then not the same across the `Clear`, and the engine must report
    // exactly that, at exactly that operation.
    let mut ops = Vec::new();
    for k in 0..50u16 {
        ops.push(Op::Insert { k, v: k.wrapping_mul(3) });
    }
    ops.push(Op::Get { k: 25 });
    ops.push(Op::Remove { k: 10 });
    ops.push(Op::Get { k: 10 });
    ops.push(Op::ShrinkToFit);
    ops.push(Op::Clear);
    let report = run_map_ops(&ops, 7, 2);
    let failure = report.failure.expect("the capacity change must be reported");
    assert_eq!(failure.position, 54);
    assert_eq!(failure.op, Op::Clear);
    assert!(matches!(failure.kind, MapFailureKind::ClearChangedCapacity));
    assert_eq!(report.ops_run, 55);
}

#[test]
fn degenerate_hasher_forces_collisions_and_still_passes() {
    // Every key hashes into a tiny range, so the container under test works
    // through collision chains the whole time; behaviour must not change.
    let mut ops = Vec::new();
    for k in 0..200u16 {
        ops.push(Op::Insert { k, v: k });
    }
    for k in 0..200u16 {
        ops.push(Op::Get { k });
    }
    for seed in [0u8, 1, 7, 255] {
        let report = run_map_ops(&ops, seed, 0);
        assert!(report.failure.is_none());
    }
}

#[test]
fn overflowing_reserve_is_skipped_and_passes() {
    // A reservation that would overflow the capacity representation is
    // skipped on both sides; a passing run certifies the capacity was left
    // unchanged.
    let ops = vec![
        Op::Insert { k: 1, v: 1 },
        Op::Reserve { n: usize::MAX },
        Op::Get { k: 1 },
    ];
    let report = run_map_ops(&ops, 0, 0);
    assert!(report.failure.is_none());
    assert_eq!(report.ops_run, 3);
}

#[test]
fn modest_reserve_is_applied_and_passes() {
    let ops = vec![Op::Reserve { n: 100 }, Op::Insert { k: 1, v: 1 }];
    let report = run_map_ops(&ops, 0, 0);
    assert!(report.failure.is_none());
}

#[test]
fn map_clear_and_shrink_pass_on_every_state() {
    let ops = vec![
        Op::Clear,
        Op::ShrinkToFit,
        Op::Insert { k: 9, v: 9 },
        Op::Clear,
        Op::Clear,
        Op::ShrinkToFit,
        Op::ShrinkToFit,
    ];
    let report = run_map_ops(&ops, 3, 100);
    assert!(report.failure.is_none());
}

#[test]
fn map_buffer_run_decodes_header_then_streams() {
    // seed 1, capacity 4, then Insert { k: 1, v: 10 } and Get { k: 1 }.
    let data = vec![1, 4, 0, 1, 0, 10, 0, 2, 1, 0];
    let report = run_map_buffer(data, 64).unwrap();
    assert!(report.failure.is_none());
    assert_eq!(report.ops_run, 2);
}

#[test]
fn map_buffer_too_short_for_header_ends_cleanly() {
    assert!(run_map_buffer(vec![], 64).is_none());
    assert!(run_map_buffer(vec![1], 64).is_none());
    assert!(run_map_buffer(vec![1, 2], 0).is_none());
}

#[test]
fn cyclic_run_refuses_an_empty_buffer() {
    assert!(run_map_buffer_cyclic(vec![], 5).is_none());
}

#[test]
fn map_replaying_the_same_buffer_gives_the_same_outcome() {
    let data: Vec<u8> = (0..200u16).map(|i| (i.wrapping_mul(37) % 251) as u8).collect();
    let first = run_map_buffer(data.clone(), 4048).unwrap();
    let second = run_map_buffer(data, 4048).unwrap();
    assert_eq!(first.ops_run, second.ops_run);
    assert_eq!(first.failure.is_none(), second.failure.is_none());
    if let (Some(f1), Some(f2)) = (&first.failure, &second.failure) {
        assert_eq!(f1.position, f2.position);
        assert_eq!(f1.op, f2.op);
    }
}

#[test]
fn cyclic_replay_gives_the_same_outcome() {
    let data = vec![0, 8, 0, 1, 5, 2, 9, 3];
    let first = run_map_buffer_cyclic(data.clone(), 64).unwrap();
    let second = run_map_buffer_cyclic(data, 64).unwrap();
    assert_eq!(first.ops_run, second.ops_run);
    assert_eq!(first.failure.is_none(), second.failure.is_none());
}
