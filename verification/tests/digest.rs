use fingerprint::hash_sequence;
use std::collections::hash_map::DefaultHasher;
use std::hash::{Hash, Hasher};

fn slice_digest(values: &[i64]) -> u64 {
    let mut hasher = DefaultHasher::new();
    Hash::hash_slice(values, &mut hasher);
    hasher.finish()
}

#[test]
fn digest_is_that_of_the_slice_in_a_fresh_hasher() {
    assert_eq!(hash_sequence(&[1, 2, 3]), slice_digest(&[1, 2, 3]));
    assert_eq!(hash_sequence(&[]), slice_digest(&[]));
    let extremes: [i64; 4] = [i64::MIN, -1, 0, i64::MAX];
    assert_eq!(hash_sequence(&extremes), slice_digest(&extremes));
}

#[test]
fn equal_sequences_have_equal_digests() {
    let first: Vec<i64> = vec![5, 4, 3, 2, 1];
    let second: Vec<i64> = (1..=5).rev().collect();
    assert_eq!(hash_sequence(&first), hash_sequence(&second));
    assert_eq!(hash_sequence(&first), hash_sequence(&first));
}

#[test]
fn digest_depends_on_order() {
    assert_ne!(hash_sequence(&[1, 2, 3]), hash_sequence(&[3, 2, 1]));
    assert_ne!(hash_sequence(&[1, 2, 3]), hash_sequence(&[2, 1, 3]));
}

#[test]
fn digest_depends_on_values_and_length() {
    assert_ne!(hash_sequence(&[1, 2, 3]), hash_sequence(&[1, 2, 4]));
    assert_ne!(hash_sequence(&[1, 2, 3]), hash_sequence(&[1, 2]));
    assert_ne!(hash_sequence(&[0]), hash_sequence(&[]));
    assert_ne!(hash_sequence(&[0]), hash_sequence(&[0, 0]));
}
