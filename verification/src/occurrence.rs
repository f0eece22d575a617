//! Occurrences of windows and the index that groups them by digest.

use std::collections::HashMap;
use vstd::prelude::*;
use vstd::std_specs::iter::IteratorSpec;

verus! {

/// One recorded window: the index and the metadata of its first and of its
/// last record.
#[derive(Debug)]
pub struct Occurrence<Index: Eq + Ord, Metadata> {
    pub start_index: Index,
    pub start_meta: Metadata,
    pub end_index: Index,
    pub end_meta: Metadata,
}

/// The occurrences filed under `digest`, or none where the digest is unseen.
pub open spec fn group_or_empty<O>(index: Map<u64, Seq<O>>, digest: u64) -> Seq<O> {
    if index.contains_key(digest) {
        index[digest]
    } else {
        Seq::empty()
    }
}

/// `index` after `occurrence` was appended to the group of `digest`.
pub open spec fn with_occurrence<O>(index: Map<u64, Seq<O>>, digest: u64, occurrence: O) -> Map<
    u64,
    Seq<O>,
> {
    index.insert(digest, group_or_empty(index, digest).push(occurrence))
}

/// Adds the size of the group of a digest to a running total.
pub open spec fn add_group_size<O>(index: Map<u64, Seq<O>>) -> spec_fn(nat, u64) -> nat {
    |total: nat, digest: u64| total + index[digest].len()
}

/// The number of occurrences in all groups of `index` together.
pub open spec fn occurrence_count<O>(index: Map<u64, Seq<O>>) -> nat {
    index.dom().fold(0nat, add_group_size(index))
}

/// The total over a set of digests depends on the sizes of their groups
/// only.
proof fn lemma_total_of_equal_sizes<O>(
    digests: Set<u64>,
    first: Map<u64, Seq<O>>,
    second: Map<u64, Seq<O>>,
)
    requires
        digests.finite(),
        forall|digest: u64|
            digests.contains(digest) ==> (#[trigger] first[digest]).len() == second[digest].len(),
    ensures
        digests.fold(0nat, add_group_size(first)) == digests.fold(0nat, add_group_size(second)),
    decreases digests.len(),
{
    if digests.len() == 0 {
        digests.lemma_len0_is_empty();
        vstd::set::fold::lemma_fold_empty(0nat, add_group_size(first));
        vstd::set::fold::lemma_fold_empty(0nat, add_group_size(second));
    } else {
        let digest = digests.choose();
        let rest = digests.remove(digest);
        assert(digests =~= rest.insert(digest));
        lemma_total_of_equal_sizes(rest, first, second);
        vstd::set::fold::lemma_fold_insert(rest, 0nat, add_group_size(first), digest);
        vstd::set::fold::lemma_fold_insert(rest, 0nat, add_group_size(second), digest);
        assert(first[digest].len() == second[digest].len());
    }
}

/// An index without digests holds no occurrence.
pub proof fn lemma_count_of_empty<O>()
    ensures
        occurrence_count(Map::<u64, Seq<O>>::empty()) == 0,
{
    let index = Map::<u64, Seq<O>>::empty();
    assert(index.dom() =~= Set::<u64>::empty());
    vstd::set::fold::lemma_fold_empty(0nat, add_group_size(index));
}

/// Recording one occurrence raises the number of occurrences by one.
pub proof fn lemma_count_with_occurrence<O>(index: Map<u64, Seq<O>>, digest: u64, occurrence: O)
    requires
        index.dom().finite(),
    ensures
        with_occurrence(index, digest, occurrence).dom().finite(),
        occurrence_count(with_occurrence(index, digest, occurrence)) == occurrence_count(index)
            + 1,
{
    let after = with_occurrence(index, digest, occurrence);
    let rest = index.dom().remove(digest);
    assert(after.dom() =~= rest.insert(digest));
    lemma_total_of_equal_sizes(rest, index, after);
    vstd::set::fold::lemma_fold_insert(rest, 0nat, add_group_size(after), digest);
    if index.contains_key(digest) {
        assert(index.dom() =~= rest.insert(digest));
        vstd::set::fold::lemma_fold_insert(rest, 0nat, add_group_size(index), digest);
    } else {
        assert(index.dom() =~= rest);
    }
}

/// The digests whose group holds more than one occurrence.
pub open spec fn duplicate_digests<O>(index: Map<u64, Seq<O>>) -> Set<u64> {
    Set::new(|digest: u64| index.contains_key(digest) && index[digest].len() > 1)
}

/// `groups` holds the group of every duplicate digest of `index` exactly
/// once, in some order, and nothing else.
pub open spec fn lists_duplicates<O>(index: Map<u64, Seq<O>>, groups: Seq<Seq<O>>) -> bool {
    exists|digests: Seq<u64>|
        {
            &&& digests.no_duplicates()
            &&& digests.to_set() == duplicate_digests(index)
            &&& #[trigger] digests.len() == groups.len()
            &&& forall|i: int| 0 <= i < groups.len() ==> groups[i] == index[#[trigger] digests[i]]
        }
}

/// The contents of borrowed groups.
pub open spec fn group_views<O>(groups: Seq<&Vec<O>>) -> Seq<Seq<O>> {
    Seq::new(groups.len(), |i: int| groups[i]@)
}

/// A mapping from digest to the occurrences recorded under it, in the order
/// in which they were recorded.
pub struct OccurrenceIndex<Index: Eq + Ord, Metadata> {
    groups: HashMap<u64, Vec<Occurrence<Index, Metadata>>>,
}

impl<Index: Eq + Ord, Metadata> View for OccurrenceIndex<Index, Metadata> {
    type V = Map<u64, Seq<Occurrence<Index, Metadata>>>;

    closed spec fn view(&self) -> Self::V {
        Map::new(
            |digest: u64| self.groups@.contains_key(digest),
            |digest: u64| self.groups@[digest]@,
        )
    }
}

impl<Index: Eq + Ord, Metadata> OccurrenceIndex<Index, Metadata> {
    /// Every digest that is present has at least one occurrence, and only
    /// finitely many digests are present.
    pub open spec fn wf(&self) -> bool {
        &&& self@.dom().finite()
        &&& forall|digest: u64| #[trigger] self@.contains_key(digest) ==> self@[digest].len() > 0
    }

    /// An index without any digest.
    pub fn new() -> (index: Self)
        ensures
            index@ == Map::<u64, Seq<Occurrence<Index, Metadata>>>::empty(),
            index.wf(),
    {
        let index = OccurrenceIndex { groups: HashMap::new() };
        assert(index@ =~= Map::<u64, Seq<Occurrence<Index, Metadata>>>::empty());
        index
    }

    /// Appends `occurrence` to the group of `digest`, which is created when
    /// the digest is unseen. All other groups stay as they are.
    pub fn record(&mut self, digest: u64, occurrence: Occurrence<Index, Metadata>)
        requires
            old(self).wf(),
        ensures
            final(self).wf(),
            final(self)@ == with_occurrence(old(self)@, digest, occurrence),
    {
        let group = self.groups.entry(digest).or_insert(Vec::new());
        group.push(occurrence);
        assert(self@ =~= with_occurrence(old(self)@, digest, occurrence));
    }

    /// The occurrences recorded under `digest`, in the order of recording, or
    /// `None` where the digest is unseen.
    pub fn occurrences(&self, digest: u64) -> (found: Option<
        std::slice::Iter<'_, Occurrence<Index, Metadata>>,
    >)
        ensures
            match found {
                Some(group) => self@.contains_key(digest) && group.remaining()
                    == self@[digest].as_ref(),
                None => !self@.contains_key(digest),
            },
    {
        match self.groups.get(&digest) {
            Some(group) => Some(group.iter()),
            None => None,
        }
    }

    /// The groups that hold more than one occurrence, each once, in the
    /// order in which the map hands them out.
    pub fn duplicates(&self) -> (found: Vec<&Vec<Occurrence<Index, Metadata>>>)
        ensures
            lists_duplicates(self@, group_views(found@)),
            found@.len() == duplicate_digests(self@).len(),
    {
        let mut found: Vec<&Vec<Occurrence<Index, Metadata>>> = Vec::new();
        let ghost mut digests: Seq<u64> = Seq::empty();
        let ghost mut positions: Seq<int> = Seq::empty();
        let ghost entries = self.groups.iter().remaining();
        let ghost mut seen: int = 0;
        for entry in walk: self.groups.iter()
            invariant
                walk.seq() == entries,
                seen == walk.index(),
                entries.no_duplicates(),
                forall|i: int|
                    0 <= i < entries.len() ==> self.groups@.contains_key(
                        *(#[trigger] entries[i]).0,
                    ) && self.groups@[*entries[i].0] == *entries[i].1,
                digests.len() == found@.len(),
                positions.len() == found@.len(),
                digests.no_duplicates(),
                forall|j: int|
                    0 <= j < found@.len() ==> 0 <= #[trigger] positions[j] < seen && digests[j]
                        == *entries[positions[j]].0,
                forall|j: int|
                    0 <= j < found@.len() ==> self.groups@.contains_key(#[trigger] digests[j])
                        && *found@[j] == self.groups@[digests[j]] && found@[j]@.len() > 1,
                forall|i: int|
                    0 <= i < seen && (#[trigger] entries[i]).1@.len() > 1 ==> digests.contains(
                        *entries[i].0,
                    ),
        {
            let ghost at: int = walk.index();
            let group: &Vec<Occurrence<Index, Metadata>> = entry.1;
            if group.len() > 1 {
                proof {
                    assert forall|j: int| 0 <= j < digests.len() implies digests[j]
                        != *entry.0 by {
                        let earlier: int = positions[j];
                        assert(entries[earlier] != entries[at]);
                    }
                    let ghost earlier_digests = digests;
                    digests = digests.push(*entry.0);
                    positions = positions.push(at);
                    assert(digests[digests.len() - 1] == *entry.0);
                    assert forall|i: int|
                        0 <= i < at && (#[trigger] entries[i]).1@.len() > 1
                        implies digests.contains(*entries[i].0) by {
                        let j: int = choose|j: int|
                            0 <= j < earlier_digests.len() && earlier_digests[j] == *entries[i].0;
                        assert(digests[j] == *entries[i].0);
                    }
                }
                found.push(group);
            }
            proof {
                seen = seen + 1;
            }
        }
        proof {
            assert(seen == entries.len());
            assert(digests.to_set() =~= duplicate_digests(self@)) by {
                assert forall|digest: u64| duplicate_digests(self@).contains(digest) implies
                    digests.to_set().contains(digest) by {
                    let pair = (&digest, &self.groups@[digest]);
                    assert(entries.contains(pair));
                    let i: int = choose|i: int| 0 <= i < entries.len() && entries[i] == pair;
                    assert(digests.contains(*entries[i].0));
                }
            }
            digests.unique_seq_to_set();
            assert(lists_duplicates(self@, group_views(found@)));
        }
        found
    }
}

} // verus!
