use bughunt_rust::BuildTrulyAwfulHasher;
use std::hash::BuildHasher;
use std::hash::Hash;
use std::hash::Hasher;

#[test]
fn digest_starts_at_the_seed() {
    let h = BuildTrulyAwfulHasher::new(5).build_hasher();
    assert_eq!(h.finish(), 5);
}

#[test]
fn write_folds_in_the_first_byte_modulo_eight() {
    let mut h = BuildTrulyAwfulHasher::new(5).build_hasher();
    h.write(&[7]);
    assert_eq!(h.finish(), (5 + 7) % 8);
}

#[test]
fn later_bytes_of_a_write_are_ignored() {
    let mut a = BuildTrulyAwfulHasher::new(1).build_hasher();
    let mut b = BuildTrulyAwfulHasher::new(1).build_hasher();
    a.write(&[9, 200, 201, 202]);
    b.write(&[9]);
    assert_eq!(a.finish(), b.finish());
}

#[test]
fn empty_write_changes_nothing() {
    let mut h = BuildTrulyAwfulHasher::new(3).build_hasher();
    h.write(&[]);
    assert_eq!(h.finish(), 3);
}

#[test]
fn addition_wraps_before_the_reduction() {
    let mut h = BuildTrulyAwfulHasher::new(250).build_hasher();
    h.write(&[10]);
    // 250 + 10 wraps to 4; 4 % 8 == 4
    assert_eq!(h.finish(), 4);
}

#[test]
fn every_digest_lies_below_eight() {
    for seed in 0..=255u8 {
        for byte in [0u8, 1, 100, 255] {
            let mut h = BuildTrulyAwfulHasher::new(seed).build_hasher();
            h.write(&[byte]);
            assert!(h.finish() < 8);
        }
    }
}

#[test]
fn hashing_is_a_pure_function_of_seed_and_writes() {
    let mut a = BuildTrulyAwfulHasher::new(42).build_hasher();
    let mut b = BuildTrulyAwfulHasher::new(42).build_hasher();
    17u16.hash(&mut a);
    17u16.hash(&mut b);
    assert_eq!(a.finish(), b.finish());
}

#[test]
fn the_builder_anchors_the_seed() {
    let builder = BuildTrulyAwfulHasher::new(6);
    assert_eq!(builder.build_hasher().finish(), 6);
    assert_eq!(builder.build_hasher().finish(), 6);
}
