//! The sliding windows of a series of values, and how they group by digest.
//!
//! Everything here is specification: windows are named by the offset of
//! their first value, and a group is the ascending sequence of the offsets
//! whose windows are eligible and share one digest.

use crate::digest::sequence_digest;
use vstd::prelude::*;

verus! {

/// The number of windows of `width` values in a series of `len` values: one
/// for each offset from 0 to `len - width`, none where the series is shorter
/// than a window or the width is zero.
pub open spec fn window_count(len: nat, width: nat) -> nat {
    if width == 0 || len < width {
        0
    } else {
        (len - width + 1) as nat
    }
}

/// The `width` consecutive values that start at `offset`.
pub open spec fn window(values: Seq<i64>, width: nat, offset: int) -> Seq<i64> {
    values.subrange(offset, offset + width)
}

/// Whether the window at `offset` is eligible and has the digest `digest`.
pub open spec fn files_under(
    values: Seq<i64>,
    width: nat,
    eligible: spec_fn(Seq<i64>) -> bool,
    digest: u64,
    offset: int,
) -> bool {
    eligible(window(values, width, offset)) && sequence_digest(window(values, width, offset))
        == digest
}

/// The offsets `0, 1, .., count - 1`.
pub open spec fn offsets(count: nat) -> Seq<int> {
    Seq::new(count, |offset: int| offset)
}

/// Among the first `count` windows, the offsets of those that are eligible
/// and have the digest `digest`, in ascending order.
pub open spec fn group_offsets(
    values: Seq<i64>,
    width: nat,
    eligible: spec_fn(Seq<i64>) -> bool,
    digest: u64,
    count: nat,
) -> Seq<int> {
    offsets(count).filter(|offset: int| files_under(values, width, eligible, digest, offset))
}

/// Among the first `count` windows, the offsets of those that are eligible,
/// in ascending order.
pub open spec fn eligible_offsets(
    values: Seq<i64>,
    width: nat,
    eligible: spec_fn(Seq<i64>) -> bool,
    count: nat,
) -> Seq<int> {
    offsets(count).filter(|offset: int| eligible(window(values, width, offset)))
}

/// No window, no group.
pub proof fn lemma_group_offsets_none(
    values: Seq<i64>,
    width: nat,
    eligible: spec_fn(Seq<i64>) -> bool,
    digest: u64,
)
    ensures
        group_offsets(values, width, eligible, digest, 0) == Seq::<int>::empty(),
{
    reveal(Seq::filter);
    assert(group_offsets(values, width, eligible, digest, 0) =~= Seq::<int>::empty());
}

/// One more window extends the group of its digest by its offset, if it is
/// eligible, and leaves every other group as it is.
pub proof fn lemma_group_offsets_step(
    values: Seq<i64>,
    width: nat,
    eligible: spec_fn(Seq<i64>) -> bool,
    digest: u64,
    count: nat,
)
    ensures
        group_offsets(values, width, eligible, digest, count + 1) == if files_under(
            values,
            width,
            eligible,
            digest,
            count as int,
        ) {
            group_offsets(values, width, eligible, digest, count).push(count as int)
        } else {
            group_offsets(values, width, eligible, digest, count)
        },
{
    reveal(Seq::filter);
    assert(offsets(count + 1).drop_last() =~= offsets(count));
    assert(offsets(count + 1).last() == count as int);
}

/// A group holds exactly the offsets of the eligible windows with its
/// digest, each once and in ascending order.
pub proof fn lemma_group_offsets_members(
    values: Seq<i64>,
    width: nat,
    eligible: spec_fn(Seq<i64>) -> bool,
    digest: u64,
    count: nat,
)
    ensures
        forall|i: int|
            0 <= i < group_offsets(values, width, eligible, digest, count).len() ==> {
                let offset = #[trigger] group_offsets(values, width, eligible, digest, count)[i];
                0 <= offset < count && files_under(values, width, eligible, digest, offset)
            },
        forall|offset: int|
            0 <= offset < count && #[trigger] files_under(values, width, eligible, digest, offset)
                ==> group_offsets(values, width, eligible, digest, count).contains(offset),
        forall|i: int, j: int|
            0 <= i < j < group_offsets(values, width, eligible, digest, count).len()
                ==> #[trigger] group_offsets(values, width, eligible, digest, count)[i]
                < #[trigger] group_offsets(values, width, eligible, digest, count)[j],
    decreases count,
{
    let group = group_offsets(values, width, eligible, digest, count);
    if count == 0 {
        lemma_group_offsets_none(values, width, eligible, digest);
    } else {
        let before = group_offsets(values, width, eligible, digest, (count - 1) as nat);
        lemma_group_offsets_members(values, width, eligible, digest, (count - 1) as nat);
        lemma_group_offsets_step(values, width, eligible, digest, (count - 1) as nat);
        assert forall|offset: int|
            0 <= offset < count && #[trigger] files_under(
                values,
                width,
                eligible,
                digest,
                offset,
            ) implies group.contains(offset) by {
            if offset == count - 1 {
                assert(group[group.len() - 1] == offset);
            } else {
                let i = choose|i: int| 0 <= i < before.len() && before[i] == offset;
                assert(group[i] == offset);
            }
        }
    }
}

/// Where every one of the first `count` windows is eligible, the eligible
/// offsets are all of `0, 1, .., count - 1`.
pub proof fn lemma_eligible_offsets_all(
    values: Seq<i64>,
    width: nat,
    eligible: spec_fn(Seq<i64>) -> bool,
    count: nat,
)
    requires
        forall|offset: int|
            0 <= offset < count ==> eligible(#[trigger] window(values, width, offset)),
    ensures
        eligible_offsets(values, width, eligible, count) == offsets(count),
    decreases count,
{
    reveal(Seq::filter);
    if count == 0 {
        assert(eligible_offsets(values, width, eligible, count) =~= offsets(count));
    } else {
        lemma_eligible_offsets_all(values, width, eligible, (count - 1) as nat);
        assert(offsets(count).drop_last() =~= offsets((count - 1) as nat));
        assert(eligible(window(values, width, count - 1)));
        assert(eligible_offsets(values, width, eligible, count) =~= offsets(count));
    }
}

/// Where none of the first `count` windows is eligible, every group is
/// empty.
pub proof fn lemma_group_offsets_empty(
    values: Seq<i64>,
    width: nat,
    eligible: spec_fn(Seq<i64>) -> bool,
    digest: u64,
    count: nat,
)
    requires
        forall|offset: int|
            0 <= offset < count ==> !eligible(#[trigger] window(values, width, offset)),
    ensures
        group_offsets(values, width, eligible, digest, count) == Seq::<int>::empty(),
{
    lemma_group_offsets_members(values, width, eligible, digest, count);
    let group = group_offsets(values, width, eligible, digest, count);
    if group.len() > 0 {
        assert(files_under(values, width, eligible, digest, group[0]));
    }
    assert(group =~= Seq::<int>::empty());
}

/// One more window extends the eligible offsets by its offset, if it is
/// eligible.
pub proof fn lemma_eligible_offsets_step(
    values: Seq<i64>,
    width: nat,
    eligible: spec_fn(Seq<i64>) -> bool,
    count: nat,
)
    ensures
        eligible_offsets(values, width, eligible, count + 1) == if eligible(
            window(values, width, count as int),
        ) {
            eligible_offsets(values, width, eligible, count).push(count as int)
        } else {
            eligible_offsets(values, width, eligible, count)
        },
        eligible_offsets(values, width, eligible, 0) == Seq::<int>::empty(),
{
    reveal(Seq::filter);
    assert(offsets(count + 1).drop_last() =~= offsets(count));
    assert(offsets(count + 1).last() == count as int);
    assert(eligible_offsets(values, width, eligible, 0) =~= Seq::<int>::empty());
}

} // verus!
