use bughunt_rust::ByteStream;
use bughunt_rust::ExhaustionPolicy;
use bughunt_rust::hash_map::Op as MapOp;
use bughunt_rust::map_runner::decode_map_ops;
use bughunt_rust::map_runner::run_map_buffer_cyclic;
use bughunt_rust::vec_deque::Op as DequeOp;

#[test]
fn bounded_stream_reads_bytes_in_order() {
    let mut s = ByteStream::new_bounded(vec![10, 20, 30], 16);
    assert!(matches!(s.policy(), ExhaustionPolicy::Bounded));
    assert_eq!(s.next_byte(), Some(10));
    assert_eq!(s.next_byte(), Some(20));
    assert_eq!(s.next_byte(), Some(30));
    assert_eq!(s.next_byte(), None);
    assert_eq!(s.next_byte(), None);
}

#[test]
fn bounded_stream_honours_its_byte_budget() {
    let mut s = ByteStream::new_bounded(vec![1, 2, 3, 4], 2);
    assert_eq!(s.next_byte(), Some(1));
    assert_eq!(s.next_byte(), Some(2));
    assert_eq!(s.next_byte(), None);
}

#[test]
fn u16_is_little_endian() {
    let mut s = ByteStream::new_bounded(vec![0x34, 0x12], 16);
    assert_eq!(s.next_u16(), Some(0x1234));
}

#[test]
fn u16_with_one_byte_left_reports_exhaustion_cleanly() {
    let mut s = ByteStream::new_bounded(vec![9], 16);
    assert_eq!(s.next_u16(), None);
    // the lone byte was not consumed by the failed read
    assert_eq!(s.next_byte(), Some(9));
}

#[test]
fn cyclic_stream_wraps_indefinitely() {
    let mut s = ByteStream::new_cyclic(vec![1, 2]).unwrap();
    assert!(matches!(s.policy(), ExhaustionPolicy::Cyclic));
    for _ in 0..5 {
        assert_eq!(s.next_byte(), Some(1));
        assert_eq!(s.next_byte(), Some(2));
    }
}

#[test]
fn cyclic_stream_refuses_an_empty_buffer() {
    assert!(ByteStream::new_cyclic(Vec::new()).is_none());
}

#[test]
fn map_op_discriminants_follow_the_reduction_rule() {
    // discriminant byte modulo 6 selects the variant; payload fields follow
    // in declared order, keys and values little-endian.
    let mut s = ByteStream::new_bounded(
        vec![
            0, 1, 0, 10, 0, // Insert { k: 1, v: 10 }
            1, 2, 0, // Remove { k: 2 }
            2, 3, 0, // Get { k: 3 }
            3,  // ShrinkToFit
            4,  // Clear
            5, 7, 0, // Reserve { n: 7 }
        ],
        64,
    );
    assert_eq!(MapOp::decode(&mut s), Some(MapOp::Insert { k: 1, v: 10 }));
    assert_eq!(MapOp::decode(&mut s), Some(MapOp::Remove { k: 2 }));
    assert_eq!(MapOp::decode(&mut s), Some(MapOp::Get { k: 3 }));
    assert_eq!(MapOp::decode(&mut s), Some(MapOp::ShrinkToFit));
    assert_eq!(MapOp::decode(&mut s), Some(MapOp::Clear));
    assert_eq!(MapOp::decode(&mut s), Some(MapOp::Reserve { n: 7 }));
    assert_eq!(MapOp::decode(&mut s), None);
}

#[test]
fn map_op_discriminant_wraps_modulo_variant_count() {
    // 9 % 6 == 3, so byte 9 selects ShrinkToFit
    let mut s = ByteStream::new_bounded(vec![9], 64);
    assert_eq!(MapOp::decode(&mut s), Some(MapOp::ShrinkToFit));
}

#[test]
fn map_op_exhausted_mid_payload_yields_nothing() {
    // Insert needs four payload bytes; only one is there.
    let mut s = ByteStream::new_bounded(vec![0, 1], 64);
    assert_eq!(MapOp::decode(&mut s), None);
}

#[test]
fn deque_op_discriminants_follow_the_reduction_rule() {
    let mut s = ByteStream::new_bounded(
        vec![
            0, 5, // PushBack(5)
            1,  // PopBack
            2, 9, // PushFront(9)
            3,  // PopFront
            4,  // Clear
            5,  // ShrinkToFit
            6, 1, 0, 8, // Insert(1, 8)
            7, 2, 0, // Remove(2)
            8, 0, 0, // SwapRemoveBack(0)
        ],
        64,
    );
    assert_eq!(DequeOp::decode(&mut s), Some(DequeOp::PushBack(5)));
    assert_eq!(DequeOp::decode(&mut s), Some(DequeOp::PopBack));
    assert_eq!(DequeOp::decode(&mut s), Some(DequeOp::PushFront(9)));
    assert_eq!(DequeOp::decode(&mut s), Some(DequeOp::PopFront));
    assert_eq!(DequeOp::decode(&mut s), Some(DequeOp::Clear));
    assert_eq!(DequeOp::decode(&mut s), Some(DequeOp::ShrinkToFit));
    assert_eq!(DequeOp::decode(&mut s), Some(DequeOp::Insert(1, 8)));
    assert_eq!(DequeOp::decode(&mut s), Some(DequeOp::Remove(2)));
    assert_eq!(DequeOp::decode(&mut s), Some(DequeOp::SwapRemoveBack(0)));
    assert_eq!(DequeOp::decode(&mut s), None);
}

#[test]
fn deque_op_discriminant_wraps_modulo_variant_count() {
    // 10 % 9 == 1, so byte 10 selects PopBack
    let mut s = ByteStream::new_bounded(vec![10], 64);
    assert_eq!(DequeOp::decode(&mut s), Some(DequeOp::PopBack));
}

#[test]
fn counted_decode_stops_cleanly_at_exhaustion() {
    // Asking for ten operations from a bounded two-byte stream yields just
    // the two that fit.
    let mut s = ByteStream::new_bounded(vec![3, 4], 64);
    let ops = decode_map_ops(&mut s, 10);
    assert_eq!(ops, vec![MapOp::ShrinkToFit, MapOp::Clear]);
}

#[test]
fn counted_decode_delivers_exactly_the_requested_count() {
    let mut s = ByteStream::new_cyclic(vec![3, 4]).unwrap();
    let ops = decode_map_ops(&mut s, 5);
    assert_eq!(
        ops,
        vec![MapOp::ShrinkToFit, MapOp::Clear, MapOp::ShrinkToFit, MapOp::Clear, MapOp::ShrinkToFit]
    );
}

#[test]
fn decode_map_ops_counts_over_a_cyclic_stream() {
    // A cyclic stream never exhausts: even a short buffer yields exactly the
    // requested number of operations.  Byte 3 decodes as ShrinkToFit over
    // and over; the two header bytes are consumed first.
    let report = run_map_buffer_cyclic(vec![3], 10).unwrap();
    assert!(report.failure.is_none());
    assert_eq!(report.ops_run, 10);
}
