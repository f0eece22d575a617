//! What holds of every scan, stated over the index that a scan leaves.

use crate::digest::sequence_digest;
use crate::fingerprinter::Fingerprinter;
use crate::occurrence::{
    duplicate_digests, lemma_count_of_empty, lemma_count_with_occurrence, occurrence_count,
    Occurrence,
};
use crate::projection::{acceptance, accepts, rejects_all};
use crate::windows::{
    eligible_offsets, lemma_eligible_offsets_all, lemma_eligible_offsets_step,
    lemma_group_offsets_empty, lemma_group_offsets_members, offsets, window, window_count,
};
use vstd::prelude::*;

verus! {

/// An index without digests has no duplicate group.
pub proof fn lemma_empty_index_has_no_duplicates<O>(index: Map<u64, Seq<O>>)
    requires
        index == Map::<u64, Seq<O>>::empty(),
    ensures
        duplicate_digests(index) == Set::<u64>::empty(),
        duplicate_digests(index).len() == 0,
{
    assert(duplicate_digests(index) =~= Set::<u64>::empty());
}

impl<
    Data,
    Index: Eq + Ord,
    Metadata,
    GetValue: Fn(&Data) -> i64,
    GetIndex: Fn(&Data) -> Index,
    GetMeta: Fn(&Data) -> Metadata,
    SequenceFilter: Fn(&[i64]) -> bool,
> Fingerprinter<Data, Index, Metadata, GetValue, GetIndex, GetMeta, SequenceFilter> {
    /// A series that is shorter than a window leaves the index empty:
    /// there are no duplicates, and no sequence is found.
    pub proof fn lemma_short_series_has_empty_index(&self, data: Seq<Data>)
        requires
            data.len() < self.window_size(),
        ensures
            self.index_of(data) == Map::<u64, Seq<Occurrence<Index, Metadata>>>::empty(),
            duplicate_digests(self.index_of(data)) == Set::<u64>::empty(),
            forall|sequence: Seq<i64>|
                !self.index_of(data).contains_key(#[trigger] sequence_digest(sequence)),
    {
        assert forall|digest: u64| self.offsets_under(data, digest, 0).len() == 0 by {
            lemma_group_offsets_members(
                self.values(data),
                self.window_size(),
                acceptance(self.filter_fn()),
                digest,
                0,
            );
        }
        assert(self.index_of(data) =~= Map::<u64, Seq<Occurrence<Index, Metadata>>>::empty());
        lemma_empty_index_has_no_duplicates(self.index_of(data));
    }

    /// Where the filter accepts no window of a series, the series leaves the
    /// index empty.
    pub proof fn lemma_rejected_series_has_empty_index(&self, data: Seq<Data>)
        requires
            forall|offset: int|
                0 <= offset < window_count(data.len(), self.window_size()) ==> !accepts(
                    self.filter_fn(),
                    #[trigger] self.window_at(data, offset),
                ),
        ensures
            self.index_of(data) == Map::<u64, Seq<Occurrence<Index, Metadata>>>::empty(),
            duplicate_digests(self.index_of(data)) == Set::<u64>::empty(),
    {
        let count = window_count(data.len(), self.window_size());
        assert forall|digest: u64| self.offsets_under(data, digest, count).len() == 0 by {
            assert forall|offset: int| 0 <= offset < count implies !acceptance(self.filter_fn())(
                #[trigger] window(self.values(data), self.window_size(), offset),
            ) by {
                assert(!accepts(self.filter_fn(), self.window_at(data, offset)));
            }
            lemma_group_offsets_empty(
                self.values(data),
                self.window_size(),
                acceptance(self.filter_fn()),
                digest,
                count,
            );
        }
        assert(self.index_of(data) =~= Map::<u64, Seq<Occurrence<Index, Metadata>>>::empty());
        lemma_empty_index_has_no_duplicates(self.index_of(data));
    }

    /// A filter that never accepts leaves the index empty whatever the
    /// series holds: there are no duplicates, and no sequence is found.
    pub proof fn lemma_rejecting_filter_has_empty_index(&self, data: Seq<Data>)
        requires
            rejects_all(self.filter_fn()),
        ensures
            self.index_of(data) == Map::<u64, Seq<Occurrence<Index, Metadata>>>::empty(),
            duplicate_digests(self.index_of(data)) == Set::<u64>::empty(),
            forall|sequence: Seq<i64>|
                !self.index_of(data).contains_key(#[trigger] sequence_digest(sequence)),
    {
        self.lemma_rejected_series_has_empty_index(data);
    }

    /// Two fingerprinters with the same configuration give every series the
    /// same index, whatever they scanned before: same digests, same groups,
    /// same order within each group.
    pub proof fn lemma_same_configuration_same_index(&self, other: &Self, data: Seq<Data>)
        requires
            self.same_configuration(other),
        ensures
            self.index_of(data) == other.index_of(data),
    {
        let count = window_count(data.len(), self.window_size());
        assert forall|digest: u64|
            self.group(data, digest, count) == other.group(data, digest, count) by {
            assert(self.group(data, digest, count) =~= other.group(data, digest, count));
        }
        assert(self.index_of(data) =~= other.index_of(data));
    }

    /// Every window that the filter accepts is recorded under the digest of
    /// its values: the group of that digest holds the window's occurrence,
    /// at the position that the window's offset has among the offsets of
    /// the group.
    pub proof fn lemma_accepted_window_is_recorded(
        &self,
        data: Seq<Data>,
        offset: int,
    ) -> (position: int)
        requires
            0 <= offset < window_count(data.len(), self.window_size()),
            accepts(self.filter_fn(), self.window_at(data, offset)),
        ensures
            ({
                let digest = sequence_digest(self.window_at(data, offset));
                let count = window_count(data.len(), self.window_size());
                &&& self.index_of(data).contains_key(digest)
                &&& 0 <= position < self.index_of(data)[digest].len()
                &&& self.offsets_under(data, digest, count)[position] == offset
                &&& self.index_of(data)[digest][position] == self.occurrence_at(data, offset)
            }),
    {
        let count = window_count(data.len(), self.window_size());
        let digest = sequence_digest(self.window_at(data, offset));
        let group = self.offsets_under(data, digest, count);
        lemma_group_offsets_members(
            self.values(data),
            self.window_size(),
            acceptance(self.filter_fn()),
            digest,
            count,
        );
        assert(crate::windows::files_under(
            self.values(data),
            self.window_size(),
            acceptance(self.filter_fn()),
            digest,
            offset,
        ));
        assert(group.contains(offset));
        choose|position: int| 0 <= position < group.len() && group[position] == offset
    }

    /// A group holds occurrences of accepted windows of the series only,
    /// each once, in ascending order of their offsets, and all of them have
    /// the digest of the group.
    pub proof fn lemma_group_is_ascending(&self, data: Seq<Data>, digest: u64)
        ensures
            ({
                let count = window_count(data.len(), self.window_size());
                let group = self.offsets_under(data, digest, count);
                &&& forall|i: int|
                    0 <= i < group.len() ==> {
                        &&& 0 <= #[trigger] group[i] < count
                        &&& accepts(self.filter_fn(), self.window_at(data, group[i]))
                        &&& sequence_digest(self.window_at(data, group[i])) == digest
                    }
                &&& forall|i: int, j: int|
                    0 <= i < j < group.len() ==> #[trigger] group[i] < #[trigger] group[j]
            }),
    {
        lemma_group_offsets_members(
            self.values(data),
            self.window_size(),
            acceptance(self.filter_fn()),
            digest,
            window_count(data.len(), self.window_size()),
        );
    }

    /// The index holds one occurrence for each window that the filter
    /// accepted, and none besides: after any number of windows, the groups
    /// hold together as many occurrences as windows were accepted.
    pub proof fn lemma_index_counts_accepted_windows(&self, data: Seq<Data>, count: nat)
        ensures
            self.index_after(data, count).dom().finite(),
            occurrence_count(self.index_after(data, count)) == eligible_offsets(
                self.values(data),
                self.window_size(),
                acceptance(self.filter_fn()),
                count,
            ).len(),
        decreases count,
    {
        if count == 0 {
            assert forall|digest: u64| self.offsets_under(data, digest, 0).len() == 0 by {
                lemma_group_offsets_members(
                    self.values(data),
                    self.window_size(),
                    acceptance(self.filter_fn()),
                    digest,
                    0,
                );
            }
            assert(self.index_after(data, 0) =~= Map::<
                u64,
                Seq<Occurrence<Index, Metadata>>,
            >::empty());
            lemma_count_of_empty::<Occurrence<Index, Metadata>>();
            lemma_eligible_offsets_step(
                self.values(data),
                self.window_size(),
                acceptance(self.filter_fn()),
                0,
            );
        } else {
            let before = (count - 1) as nat;
            self.lemma_index_counts_accepted_windows(data, before);
            self.lemma_index_step(data, before);
            lemma_eligible_offsets_step(
                self.values(data),
                self.window_size(),
                acceptance(self.filter_fn()),
                before,
            );
            if accepts(self.filter_fn(), self.window_at(data, before as int)) {
                lemma_count_with_occurrence(
                    self.index_after(data, before),
                    sequence_digest(self.window_at(data, before as int)),
                    self.occurrence_at(data, before as int),
                );
            }
        }
    }

    /// Where the filter rejects no window of a series of `n` records, with
    /// `n` at least the window size `k`, the scan records exactly `n - k + 1`
    /// windows: those at the offsets `0` to `n - k`, each under the digest of
    /// its values.
    pub proof fn lemma_every_window_is_recorded(&self, data: Seq<Data>)
        requires
            self.window_size() > 0,
            data.len() >= self.window_size(),
            forall|offset: int|
                0 <= offset < window_count(data.len(), self.window_size()) ==> accepts(
                    self.filter_fn(),
                    #[trigger] self.window_at(data, offset),
                ),
        ensures
            window_count(data.len(), self.window_size()) == data.len() - self.window_size() + 1,
            eligible_offsets(
                self.values(data),
                self.window_size(),
                acceptance(self.filter_fn()),
                window_count(data.len(), self.window_size()),
            ) == offsets((data.len() - self.window_size() + 1) as nat),
            forall|offset: int|
                0 <= offset <= data.len() - self.window_size() ==> self.offsets_under(
                    data,
                    sequence_digest(#[trigger] self.window_at(data, offset)),
                    window_count(data.len(), self.window_size()),
                ).contains(offset),
            occurrence_count(self.index_of(data)) == data.len() - self.window_size() + 1,
    {
        let count = window_count(data.len(), self.window_size());
        self.lemma_index_counts_accepted_windows(data, count);
        assert forall|offset: int| 0 <= offset < count implies acceptance(self.filter_fn())(
            #[trigger] window(self.values(data), self.window_size(), offset),
        ) by {
            assert(accepts(self.filter_fn(), self.window_at(data, offset)));
        }
        lemma_eligible_offsets_all(
            self.values(data),
            self.window_size(),
            acceptance(self.filter_fn()),
            count,
        );
        assert forall|offset: int|
            0 <= offset <= data.len() - self.window_size() implies self.offsets_under(
            data,
            sequence_digest(#[trigger] self.window_at(data, offset)),
            count,
        ).contains(offset) by {
            self.lemma_accepted_window_is_recorded(data, offset);
        }
    }

    /// Two accepted windows are in one group exactly where the digests of
    /// their values are equal. Nothing else joins or parts them: windows
    /// with the same values in another order are in one group only where
    /// the digest does not tell the two orders apart.
    pub proof fn lemma_grouped_iff_same_digest(&self, data: Seq<Data>, first: int, second: int)
        requires
            0 <= first < window_count(data.len(), self.window_size()),
            0 <= second < window_count(data.len(), self.window_size()),
            accepts(self.filter_fn(), self.window_at(data, first)),
            accepts(self.filter_fn(), self.window_at(data, second)),
        ensures
            (exists|digest: u64|
                {
                    let group = #[trigger] self.offsets_under(
                        data,
                        digest,
                        window_count(data.len(), self.window_size()),
                    );
                    group.contains(first) && group.contains(second)
                }) <==> sequence_digest(self.window_at(data, first)) == sequence_digest(
                self.window_at(data, second),
            ),
    {
        let count = window_count(data.len(), self.window_size());
        let own = sequence_digest(self.window_at(data, first));
        if own == sequence_digest(self.window_at(data, second)) {
            self.lemma_accepted_window_is_recorded(data, first);
            self.lemma_accepted_window_is_recorded(data, second);
            let group = self.offsets_under(data, own, count);
            assert(group.contains(first) && group.contains(second));
        } else {
            assert forall|digest: u64|
                !({
                    let group = #[trigger] self.offsets_under(data, digest, count);
                    group.contains(first) && group.contains(second)
                }) by {
                self.lemma_group_is_ascending(data, digest);
                let group = self.offsets_under(data, digest, count);
                if group.contains(first) && group.contains(second) {
                    let i = choose|i: int| 0 <= i < group.len() && group[i] == first;
                    let j = choose|j: int| 0 <= j < group.len() && group[j] == second;
                    assert(sequence_digest(self.window_at(data, group[i])) == digest);
                    assert(sequence_digest(self.window_at(data, group[j])) == digest);
                }
            }
        }
    }

    /// Windows with the same values, in the same order, are never parted:
    /// where the filter accepts them, their occurrences are in one group,
    /// the earlier window first.
    pub proof fn lemma_equal_windows_share_group(
        &self,
        data: Seq<Data>,
        first: int,
        second: int,
    ) -> (positions: (int, int))
        requires
            0 <= first < second < window_count(data.len(), self.window_size()),
            self.window_at(data, first) == self.window_at(data, second),
            accepts(self.filter_fn(), self.window_at(data, first)),
        ensures
            ({
                let digest = sequence_digest(self.window_at(data, first));
                let group = self.index_of(data)[digest];
                &&& duplicate_digests(self.index_of(data)).contains(digest)
                &&& 0 <= positions.0 < positions.1 < group.len()
                &&& group[positions.0] == self.occurrence_at(data, first)
                &&& group[positions.1] == self.occurrence_at(data, second)
            }),
    {
        let earlier = self.lemma_accepted_window_is_recorded(data, first);
        let later = self.lemma_accepted_window_is_recorded(data, second);
        self.lemma_group_is_ascending(data, sequence_digest(self.window_at(data, first)));
        (earlier, later)
    }

    /// A series whose values are a sequence followed by itself has a
    /// duplicate: where the repeated sequence is at least one window long
    /// and the filter accepts its first window, the group of that window's
    /// digest holds the occurrences of the windows at offset 0 and at the
    /// offset where the repetition starts, the first before the second.
    pub proof fn lemma_repeated_values_have_duplicate(
        &self,
        data: Seq<Data>,
        repeated: Seq<i64>,
    ) -> (positions: (int, int))
        requires
            self.window_size() > 0,
            repeated.len() >= self.window_size(),
            self.values(data) == repeated + repeated,
            accepts(self.filter_fn(), window(repeated, self.window_size(), 0)),
        ensures
            ({
                let digest = sequence_digest(window(repeated, self.window_size(), 0));
                let group = self.index_of(data)[digest];
                &&& duplicate_digests(self.index_of(data)).contains(digest)
                &&& 0 <= positions.0 < positions.1 < group.len()
                &&& group[positions.0] == self.occurrence_at(data, 0)
                &&& group[positions.1] == self.occurrence_at(data, repeated.len() as int)
            }),
    {
        assert(self.values(data).len() == data.len());
        assert((repeated + repeated).len() == 2 * repeated.len());
        assert(self.window_at(data, 0) =~= window(repeated, self.window_size(), 0));
        assert(self.window_at(data, repeated.len() as int) =~= window(
            repeated,
            self.window_size(),
            0,
        ));
        self.lemma_equal_windows_share_group(data, 0, repeated.len() as int)
    }

    /// A strictly increasing series has no duplicates, as long as the digest
    /// tells the windows of the series apart: every window starts with
    /// another value, so no two windows are the same, and a group of two
    /// could only come from two different windows with one digest.
    pub proof fn lemma_increasing_series_has_no_duplicates(&self, data: Seq<Data>)
        requires
            self.window_size() > 0,
            forall|i: int, j: int|
                0 <= i < j < data.len() ==> #[trigger] self.values(data)[i]
                    < #[trigger] self.values(data)[j],
            forall|first: int, second: int|
                0 <= first < second < window_count(data.len(), self.window_size())
                    && sequence_digest(#[trigger] self.window_at(data, first)) == sequence_digest(
                    #[trigger] self.window_at(data, second),
                ) ==> self.window_at(data, first) == self.window_at(data, second),
        ensures
            duplicate_digests(self.index_of(data)) == Set::<u64>::empty(),
    {
        let count = window_count(data.len(), self.window_size());
        assert forall|digest: u64| !duplicate_digests(self.index_of(data)).contains(digest) by {
            let group = self.offsets_under(data, digest, count);
            if group.len() > 1 {
                self.lemma_group_is_ascending(data, digest);
                let first = group[0];
                let second = group[1];
                assert(self.window_at(data, first) == self.window_at(data, second));
                assert(self.window_at(data, first)[0] == self.values(data)[first]);
                assert(self.window_at(data, second)[0] == self.values(data)[second]);
            }
        }
        assert(duplicate_digests(self.index_of(data)) =~= Set::<u64>::empty());
    }
}

} // verus!
