//! Detection of repeated sub-sequences in an ordered series.
//!
//! A [`Fingerprinter`] slides a window of fixed size over the records of a
//! series, one record at a time. Each window is reduced to the sequence of
//! its records' values; the windows that the configured filter accepts are
//! recorded, as [`Occurrence`]s, under the 64-bit digest of that sequence.
//! Windows with equal digests form a group, and a group of more than one
//! occurrence is a duplicate: a content that recurred in the series.
//!
//! Equal value sequences always have equal digests. The converse is taken on
//! trust: two different sequences that happen to share a digest are reported
//! as one group.

pub mod digest;
pub mod fingerprinter;
pub mod laws;
pub mod occurrence;
pub mod projection;
pub mod windows;

pub use digest::hash_sequence;
pub use fingerprinter::{FingerprintError, Fingerprinter};
pub use occurrence::{Occurrence, OccurrenceIndex};
