//! The 64-bit digest of an ordered sequence of values.

use std::collections::hash_map::DefaultHasher;
use std::hash::{Hash, Hasher};
use vstd::prelude::*;
use vstd::std_specs::hash::DefaultHasherAdditionalSpecFns;

verus! {

/// The writes that hashing a slice of values as a whole performs on a hasher,
/// in order. The standard library does not lay down which writes these are;
/// in a given program they depend on the values and their order alone.
pub uninterp spec fn slice_writes(values: Seq<i64>) -> Seq<Seq<u8>>;

/// Feeds `values` into `state` with `Hash::hash_slice`.
///
/// Trusted: `Hash::hash_slice` does nothing to the hasher but write to it,
/// and what it writes for a slice of integers depends on nothing but the
/// integers and their order. Those writes are what [`slice_writes`] names;
/// they come after whatever was written before.
#[verifier::external_body]
fn feed_slice(values: &[i64], state: &mut DefaultHasher)
    ensures
        final(state)@ == old(state)@ + slice_writes(values@),
{
    Hash::hash_slice(values, state)
}

/// The digest of an ordered sequence of values: what a fresh default hasher
/// reports after the sequence was fed to it as one slice.
pub open spec fn sequence_digest(values: Seq<i64>) -> u64 {
    DefaultHasher::spec_finish(slice_writes(values))
}

/// Computes the digest of `values`, taken in order.
pub fn hash_sequence(values: &[i64]) -> (digest: u64)
    ensures
        digest == sequence_digest(values@),
{
    let mut hasher = DefaultHasher::new();
    feed_slice(values, &mut hasher);
    hasher.finish()
}

} // verus!
