//! The fingerprinter: a sliding-window scan that files every eligible window
//! of a series under the digest of its values.

use crate::digest::{hash_sequence, sequence_digest};
use crate::occurrence::{
    duplicate_digests, group_views, lists_duplicates, with_occurrence, Occurrence,
    OccurrenceIndex,
};
use crate::projection::{
    acceptance, accepts, image, images, is_filter, is_projection, lemma_result_is_image,
    lemma_verdict_is_acceptance, may_return, project_values, yields_image,
};
use crate::windows::{group_offsets, lemma_group_offsets_step, window, window_count};
use std::marker::PhantomData;
use vstd::prelude::*;
use vstd::slice::slice_subrange;
use vstd::std_specs::iter::IteratorSpec;

verus! {

/// Why a fingerprinter could not be made.
#[derive(Debug, Clone, Copy, PartialEq, Eq)]
pub enum FingerprintError {
    /// The window size is zero: there is no window of no records.
    InvalidConfiguration,
}

/// Scans series of `Data` records with a window of fixed size and keeps, for
/// the series scanned last, the occurrences of every eligible window grouped
/// by the digest of the window's values.
#[verifier::reject_recursive_types(Data)]
#[verifier::reject_recursive_types(Index)]
#[verifier::reject_recursive_types(Metadata)]
pub struct Fingerprinter<
    Data,
    Index: Eq + Ord,
    Metadata,
    GetValue: Fn(&Data) -> i64,
    GetIndex: Fn(&Data) -> Index,
    GetMeta: Fn(&Data) -> Metadata,
    SequenceFilter: Fn(&[i64]) -> bool,
> {
    get_value: GetValue,
    get_index: GetIndex,
    get_meta: GetMeta,
    window_size: usize,
    sequence_filter: SequenceFilter,
    occurrences: OccurrenceIndex<Index, Metadata>,
    records: PhantomData<Data>,
}

impl<
    Data,
    Index: Eq + Ord,
    Metadata,
    GetValue: Fn(&Data) -> i64,
    GetIndex: Fn(&Data) -> Index,
    GetMeta: Fn(&Data) -> Metadata,
    SequenceFilter: Fn(&[i64]) -> bool,
> View for Fingerprinter<Data, Index, Metadata, GetValue, GetIndex, GetMeta, SequenceFilter> {
    type V = Map<u64, Seq<Occurrence<Index, Metadata>>>;

    /// The occurrence index: the occurrences of the series scanned last, by
    /// digest.
    closed spec fn view(&self) -> Self::V {
        self.occurrences@
    }
}

impl<
    Data,
    Index: Eq + Ord,
    Metadata,
    GetValue: Fn(&Data) -> i64,
    GetIndex: Fn(&Data) -> Index,
    GetMeta: Fn(&Data) -> Metadata,
    SequenceFilter: Fn(&[i64]) -> bool,
> Fingerprinter<Data, Index, Metadata, GetValue, GetIndex, GetMeta, SequenceFilter> {
    /// The projection to the value by which windows are compared.
    pub closed spec fn value_fn(&self) -> GetValue {
        self.get_value
    }

    /// The projection to the index that occurrences report.
    pub closed spec fn index_fn(&self) -> GetIndex {
        self.get_index
    }

    /// The projection to the metadata that occurrences carry.
    pub closed spec fn meta_fn(&self) -> GetMeta {
        self.get_meta
    }

    /// The filter that decides which windows are eligible.
    pub closed spec fn filter_fn(&self) -> SequenceFilter {
        self.sequence_filter
    }

    /// The number of records in a window.
    pub closed spec fn window_size(&self) -> nat {
        self.window_size as nat
    }

    /// The window is not empty, and the index holds no empty group.
    pub open spec fn wf(&self) -> bool {
        &&& self.window_size() > 0
        &&& self@.dom().finite()
        &&& forall|digest: u64| #[trigger] self@.contains_key(digest) ==> self@[digest].len() > 0
    }

    /// The configured functions are deterministic: each may be called on
    /// every input and has one result for it.
    pub open spec fn deterministic(&self) -> bool {
        &&& is_projection(self.value_fn())
        &&& is_projection(self.index_fn())
        &&& is_projection(self.meta_fn())
        &&& is_filter(self.filter_fn())
    }

    /// `self` and `other` have the same projections, filter and window size.
    pub open spec fn same_configuration(&self, other: &Self) -> bool {
        &&& self.value_fn() == other.value_fn()
        &&& self.index_fn() == other.index_fn()
        &&& self.meta_fn() == other.meta_fn()
        &&& self.filter_fn() == other.filter_fn()
        &&& self.window_size() == other.window_size()
    }

    /// The values of the records of `data`, in order.
    pub open spec fn values(&self, data: Seq<Data>) -> Seq<i64> {
        images(self.value_fn(), data)
    }

    /// The values of the window of `data` that starts at `offset`.
    pub open spec fn window_at(&self, data: Seq<Data>, offset: int) -> Seq<i64> {
        window(self.values(data), self.window_size(), offset)
    }

    /// The occurrence of the window of `data` that starts at `offset`: index
    /// and metadata of the window's first and last record.
    pub open spec fn occurrence_at(&self, data: Seq<Data>, offset: int) -> Occurrence<
        Index,
        Metadata,
    > {
        Occurrence {
            start_index: image(self.index_fn(), data[offset]),
            start_meta: image(self.meta_fn(), data[offset]),
            end_index: image(self.index_fn(), data[offset + self.window_size() - 1]),
            end_meta: image(self.meta_fn(), data[offset + self.window_size() - 1]),
        }
    }

    /// Among the first `count` windows of `data`, the offsets of those that
    /// the filter accepts and whose values have the digest `digest`, in
    /// ascending order.
    pub open spec fn offsets_under(&self, data: Seq<Data>, digest: u64, count: nat) -> Seq<int> {
        group_offsets(
            self.values(data),
            self.window_size(),
            acceptance(self.filter_fn()),
            digest,
            count,
        )
    }

    /// The occurrences of the windows at `offsets_under(data, digest, count)`,
    /// in that order.
    pub open spec fn group(&self, data: Seq<Data>, digest: u64, count: nat) -> Seq<
        Occurrence<Index, Metadata>,
    > {
        Seq::new(
            self.offsets_under(data, digest, count).len(),
            |i: int| self.occurrence_at(data, self.offsets_under(data, digest, count)[i]),
        )
    }

    /// The index after the first `count` windows of `data`: every digest
    /// with a non-empty group, mapped to its group.
    pub open spec fn index_after(&self, data: Seq<Data>, count: nat) -> Map<
        u64,
        Seq<Occurrence<Index, Metadata>>,
    > {
        Map::new(
            |digest: u64| self.group(data, digest, count).len() > 0,
            |digest: u64| self.group(data, digest, count),
        )
    }

    /// The index of the series `data`: the index after all its windows.
    pub open spec fn index_of(&self, data: Seq<Data>) -> Map<
        u64,
        Seq<Occurrence<Index, Metadata>>,
    > {
        self.index_after(data, window_count(data.len(), self.window_size()))
    }

    /// What `index_of(data)` takes from the window at `offset` was returned
    /// by the configured functions: the filter's verdict on the window and,
    /// where it accepts, index and metadata of the first and last record.
    pub open spec fn witnessed_at(&self, data: Seq<Data>, offset: int) -> bool {
        let values = self.window_at(data, offset);
        let last = offset + self.window_size() - 1;
        &&& may_return(self.filter_fn(), values, accepts(self.filter_fn(), values))
        &&& accepts(self.filter_fn(), values) ==> {
            &&& yields_image(self.index_fn(), data[offset])
            &&& yields_image(self.meta_fn(), data[offset])
            &&& yields_image(self.index_fn(), data[last])
            &&& yields_image(self.meta_fn(), data[last])
        }
    }

    /// Everything that `index_of(data)` is built from was returned by the
    /// configured functions: the value of every record and, for every
    /// window, what `witnessed_at` lists. Nothing is asked of a series that
    /// is shorter than a window, on which no function is called.
    pub open spec fn witnessed(&self, data: Seq<Data>) -> bool {
        data.len() >= self.window_size() ==> {
            &&& forall|i: int|
                0 <= i < data.len() ==> yields_image(self.value_fn(), #[trigger] data[i])
            &&& forall|offset: int|
                0 <= offset < window_count(data.len(), self.window_size())
                    ==> #[trigger] self.witnessed_at(data, offset)
        }
    }

    /// One more window adds its occurrence to the group of its digest, if
    /// the filter accepts it, and changes nothing else.
    pub proof fn lemma_index_step(&self, data: Seq<Data>, count: nat)
        ensures
            self.index_after(data, count + 1) == if accepts(
                self.filter_fn(),
                self.window_at(data, count as int),
            ) {
                with_occurrence(
                    self.index_after(data, count),
                    sequence_digest(self.window_at(data, count as int)),
                    self.occurrence_at(data, count as int),
                )
            } else {
                self.index_after(data, count)
            },
    {
        let accepted = accepts(self.filter_fn(), self.window_at(data, count as int));
        let own = sequence_digest(self.window_at(data, count as int));
        assert forall|digest: u64|
            self.group(data, digest, count + 1) == if accepted && digest == own {
                self.group(data, digest, count).push(self.occurrence_at(data, count as int))
            } else {
                self.group(data, digest, count)
            } by {
            lemma_group_offsets_step(
                self.values(data),
                self.window_size(),
                acceptance(self.filter_fn()),
                digest,
                count,
            );
            if accepted && digest == own {
                assert(self.group(data, digest, count + 1) =~= self.group(
                    data,
                    digest,
                    count,
                ).push(self.occurrence_at(data, count as int)));
            } else {
                assert(self.group(data, digest, count + 1) =~= self.group(data, digest, count));
            }
        }
        if accepted {
            let before = self.index_after(data, count);
            let after = with_occurrence(before, own, self.occurrence_at(data, count as int));
            assert(self.group(data, own, count).len() == 0 ==> self.group(data, own, count)
                =~= Seq::empty());
            assert forall|digest: u64| #[trigger]
                after.contains_key(digest) == self.index_after(data, count + 1).contains_key(
                    digest,
                ) by {
                assert(self.group(data, digest, count + 1).len() > 0 <==> digest == own
                    || self.group(data, digest, count).len() > 0);
            }
            assert forall|digest: u64| #[trigger] after.contains_key(digest) implies after[digest]
                == self.index_after(data, count + 1)[digest] by {
                assert(self.group(data, digest, count + 1).len() > 0);
            }
            assert(self.index_after(data, count + 1) =~= after);
        } else {
            assert(self.index_after(data, count + 1) =~= self.index_after(data, count));
        }
    }

    /// Makes a fingerprinter with an empty index. A window size of zero is
    /// refused.
    pub fn new(
        get_value: GetValue,
        get_index: GetIndex,
        get_meta: GetMeta,
        window_size: usize,
        sequence_filter: SequenceFilter,
    ) -> (made: Result<Self, FingerprintError>)
        ensures
            made is Err <==> window_size == 0,
            made matches Err(error) ==> error == FingerprintError::InvalidConfiguration,
            made matches Ok(fingerprinter) ==> {
                &&& fingerprinter.wf()
                &&& fingerprinter.value_fn() == get_value
                &&& fingerprinter.index_fn() == get_index
                &&& fingerprinter.meta_fn() == get_meta
                &&& fingerprinter.filter_fn() == sequence_filter
                &&& fingerprinter.window_size() == window_size
                &&& fingerprinter@ == Map::<u64, Seq<Occurrence<Index, Metadata>>>::empty()
            },
    {
        if window_size == 0 {
            return Err(FingerprintError::InvalidConfiguration);
        }
        Ok(
            Fingerprinter {
                get_value,
                get_index,
                get_meta,
                window_size,
                sequence_filter,
                occurrences: OccurrenceIndex::new(),
                records: PhantomData,
            },
        )
    }

    /// Scans `data` and replaces the index by the index of `data`.
    ///
    /// The previous index is discarded whatever `data` holds. Every window of
    /// `window_size` consecutive records, from the one at offset 0 on, is
    /// shown to the filter; where the filter accepts, the window's
    /// occurrence is appended to the group of the digest of the window's
    /// values. A series shorter than a window has no window and leaves the
    /// index empty.
    pub fn process_series(&mut self, data: &[Data])
        requires
            old(self).wf(),
            old(self).deterministic(),
        ensures
            final(self).wf(),
            final(self).same_configuration(old(self)),
            final(self)@ == old(self).index_of(data@),
            old(self).witnessed(data@),
            data@.len() < old(self).window_size() ==> final(self)@ == Map::<
                u64,
                Seq<Occurrence<Index, Metadata>>,
            >::empty(),
    {
        let mut index: OccurrenceIndex<Index, Metadata> = OccurrenceIndex::new();
        proof {
            assert(self.index_after(data@, 0) =~= index@) by {
                assert forall|digest: u64| self.group(data@, digest, 0).len() == 0 by {
                    crate::windows::lemma_group_offsets_none(
                        self.values(data@),
                        self.window_size(),
                        acceptance(self.filter_fn()),
                        digest,
                    );
                }
            }
        }
        if data.len() >= self.window_size {
            let values = project_values(data, &self.get_value);
            proof {
                assert forall|i: int| 0 <= i < data@.len() implies values@[i] == image(
                    self.value_fn(),
                    data@[i],
                ) && yields_image(self.value_fn(), #[trigger] data@[i]) by {
                    lemma_result_is_image(self.value_fn(), data@[i], values@[i]);
                }
                assert(values@ =~= self.values(data@));
            }
            let count: usize = data.len() - self.window_size + 1;
            let mut w_start: usize = 0;
            while w_start < count
                invariant
                    self.wf(),
                    self.deterministic(),
                    index.wf(),
                    self.window_size as nat == self.window_size(),
                    data@.len() >= self.window_size(),
                    count == window_count(data@.len(), self.window_size()),
                    count + self.window_size == data.len() + 1,
                    w_start <= count,
                    values@ == self.values(data@),
                    index@ == self.index_after(data@, w_start as nat),
                    forall|offset: int|
                        0 <= offset < w_start ==> #[trigger] self.witnessed_at(data@, offset),
                decreases count - w_start,
            {
                let w_end: usize = w_start + self.window_size;
                let w_values = slice_subrange(values.as_slice(), w_start, w_end);
                assert(w_values@ == self.window_at(data@, w_start as int));
                let accepted = (self.sequence_filter)(w_values);
                proof {
                    lemma_verdict_is_acceptance(self.filter_fn(), w_values, accepted);
                    self.lemma_index_step(data@, w_start as nat);
                }
                if accepted {
                    let digest = hash_sequence(w_values);
                    let first_record = &data[w_start];
                    let last_record = &data[w_end - 1];
                    let occurrence = Occurrence {
                        start_index: (self.get_index)(first_record),
                        start_meta: (self.get_meta)(first_record),
                        end_index: (self.get_index)(last_record),
                        end_meta: (self.get_meta)(last_record),
                    };
                    proof {
                        lemma_result_is_image(
                            self.index_fn(),
                            *first_record,
                            occurrence.start_index,
                        );
                        lemma_result_is_image(self.meta_fn(), *first_record, occurrence.start_meta);
                        lemma_result_is_image(self.index_fn(), *last_record, occurrence.end_index);
                        lemma_result_is_image(self.meta_fn(), *last_record, occurrence.end_meta);
                        assert(occurrence == self.occurrence_at(data@, w_start as int));
                    }
                    index.record(digest, occurrence);
                }
                assert(self.witnessed_at(data@, w_start as int));
                w_start += 1;
            }
        }
        self.occurrences = index;
    }

    /// Looks up the digest of `sequence` in the index: the occurrences
    /// recorded under it, in the order in which the scan met them, or `None`
    /// where no window with that digest was recorded.
    ///
    /// Whether two sequences are the same is decided by their digests alone.
    /// The length of `sequence` is not held against the window size.
    pub fn matches(&self, sequence: &[i64]) -> (found: Option<
        std::slice::Iter<'_, Occurrence<Index, Metadata>>,
    >)
        ensures
            match found {
                Some(group) => {
                    &&& self@.contains_key(sequence_digest(sequence@))
                    &&& group.remaining() == self@[sequence_digest(sequence@)].as_ref()
                },
                None => !self@.contains_key(sequence_digest(sequence@)),
            },
    {
        let digest = hash_sequence(sequence);
        self.occurrences.occurrences(digest)
    }

    /// The groups of the index that hold more than one occurrence: every
    /// window content that recurred in the series scanned last, each with
    /// all its occurrences in the order in which the scan met them. The
    /// order of the groups is that of the underlying map.
    pub fn duplicates(&self) -> (found: Vec<&Vec<Occurrence<Index, Metadata>>>)
        ensures
            lists_duplicates(self@, group_views(found@)),
            found@.len() == duplicate_digests(self@).len(),
    {
        self.occurrences.duplicates()
    }
}

} // verus!
