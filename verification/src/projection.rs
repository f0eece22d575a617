//! What is asked of the functions that a fingerprinter is configured with,
//! and what they stand for in specifications.
//!
//! A projection maps a record to one of its attributes; a filter decides
//! whether a window of values is eligible. Both are supplied by the caller as
//! executable functions. Specifications speak of them through the one result
//! that their contract allows for each input.

use itertools::Itertools;
use vstd::prelude::*;

verus! {

/// `f` may be called on every record.
pub open spec fn total<A, R, F: Fn(&A) -> R>(f: F) -> bool {
    forall|a: A| #[trigger] call_requires(f, (&a,))
}

/// The contract of `f` allows at most one result for each record.
pub open spec fn single_valued<A, R, F: Fn(&A) -> R>(f: F) -> bool {
    forall|a: A, r1: R, r2: R|
        #![trigger call_ensures(f, (&a,), r1), call_ensures(f, (&a,), r2)]
        call_ensures(f, (&a,), r1) && call_ensures(f, (&a,), r2) ==> r1 == r2
}

/// `f` is a deterministic projection: callable everywhere, with one result
/// for each record.
pub open spec fn is_projection<A, R, F: Fn(&A) -> R>(f: F) -> bool {
    total(f) && single_valued(f)
}

/// The result of the projection `f` on the record `a`.
pub open spec fn image<A, R, F: Fn(&A) -> R>(f: F, a: A) -> R {
    choose|r: R| call_ensures(f, (&a,), r)
}

/// `f` has returned, or may return, `image(f, a)` on `a`: the image is a
/// result that the contract of `f` allows.
pub open spec fn yields_image<A, R, F: Fn(&A) -> R>(f: F, a: A) -> bool {
    call_ensures(f, (&a,), image(f, a))
}

/// A result that a single-valued function has returned is its image.
pub proof fn lemma_result_is_image<A, R, F: Fn(&A) -> R>(f: F, a: A, r: R)
    requires
        single_valued(f),
        call_ensures(f, (&a,), r),
    ensures
        image(f, a) == r,
        yields_image(f, a),
{
}

/// The images of the records of a series, in order.
pub open spec fn images<A, R, F: Fn(&A) -> R>(f: F, series: Seq<A>) -> Seq<R> {
    Seq::new(series.len(), |i: int| image(f, series[i]))
}

/// The contract of the filter `f` allows the verdict `verdict` on a slice
/// that holds `window`.
pub open spec fn may_return<F: Fn(&[i64]) -> bool>(f: F, window: Seq<i64>, verdict: bool) -> bool {
    exists|slice: &[i64]| #[trigger] slice@ == window && call_ensures(f, (slice,), verdict)
}

/// `f` is a deterministic filter: callable on every slice, with a verdict
/// that depends on nothing but the values in the slice.
pub open spec fn is_filter<F: Fn(&[i64]) -> bool>(f: F) -> bool {
    &&& forall|slice: &[i64]| #[trigger] call_requires(f, (slice,))
    &&& forall|window: Seq<i64>|
        !(#[trigger] may_return(f, window, true) && #[trigger] may_return(f, window, false))
}

/// Whether the filter `f` accepts `window`.
pub open spec fn accepts<F: Fn(&[i64]) -> bool>(f: F, window: Seq<i64>) -> bool {
    may_return(f, window, true)
}

/// The filter `f` never accepts: its contract allows no `true`.
pub open spec fn rejects_all<F: Fn(&[i64]) -> bool>(f: F) -> bool {
    forall|slice: &[i64]| !#[trigger] call_ensures(f, (slice,), true)
}

/// The filter `f` as a predicate on windows.
pub open spec fn acceptance<F: Fn(&[i64]) -> bool>(f: F) -> spec_fn(Seq<i64>) -> bool {
    |window: Seq<i64>| accepts(f, window)
}

/// A verdict that a deterministic filter has returned is whether it accepts.
pub proof fn lemma_verdict_is_acceptance<F: Fn(&[i64]) -> bool>(f: F, slice: &[i64], verdict: bool)
    requires
        is_filter(f),
        call_ensures(f, (slice,), verdict),
    ensures
        accepts(f, slice@) == verdict,
        may_return(f, slice@, accepts(f, slice@)),
{
    assert(may_return(f, slice@, verdict));
}

/// Applies `get_value` to every record of `data`, in order, and collects the
/// results with `Itertools::collect_vec`.
///
/// Trusted: mapping a slice's iterator and collecting it gives one result for
/// each record, at the record's position, as `Iterator::map` and
/// `Iterator::collect` are documented to do.
#[verifier::external_body]
pub(crate) fn project_values<Data, GetValue: Fn(&Data) -> i64>(
    data: &[Data],
    get_value: &GetValue,
) -> (values: Vec<i64>)
    requires
        forall|i: int| 0 <= i < data@.len() ==> call_requires(*get_value, (&#[trigger] data@[i],)),
    ensures
        values@.len() == data@.len(),
        forall|i: int|
            0 <= i < data@.len() ==> call_ensures(*get_value, (&data@[i],), #[trigger] values@[i]),
{
    data.iter().map(get_value).collect_vec()
}

} // verus!
