//! What the library takes from outside: a parallel map and two sorts.

use rayon::prelude::{IntoParallelRefIterator, ParallelIterator};
use vstd::prelude::*;
use vstd::relations::sorted_by;

use crate::carver::{ascending_offsets, somes, stably_ordered, CarvePlan};

verus! {

/// Whether `out` can come of calling `f` once on each of `items` and keeping,
/// in the order of the items, the values that were returned.
pub open spec fn filter_mapped<T, U, F: Fn(&T) -> Option<U>>(
    f: F,
    items: Seq<T>,
    out: Seq<U>,
) -> bool {
    exists|results: Seq<Option<U>>|
        {
            &&& results.len() == items.len()
            &&& forall|i: int|
                0 <= i < items.len() ==> call_ensures(f, (&items[i],), #[trigger] results[i])
            &&& out == #[trigger] somes(results)
        }
}

/// `par_iter`, `filter_map` and `collect` of rayon: calls `f` on each item, on
/// several threads, and collects the values of the `Some` results. Claimed of
/// them is that each item is handed to `f` once and that the values stand in
/// the order of their items.
#[verifier::external_body]
pub(crate) fn par_filter_map<T: Sync, U: Send, F: Fn(&T) -> Option<U> + Sync + Send>(
    items: &[T],
    f: F,
) -> (out: Vec<U>)
    requires
        forall|i: int| 0 <= i < items@.len() ==> call_requires(f, (&items@[i],)),
    ensures
        filter_mapped(f, items@, out@),
{
    items.par_iter().filter_map(f).collect()
}

/// `sort_unstable` of a slice of integers: claimed of it is that the result is
/// in ascending order and holds the same integers.
#[verifier::external_body]
pub(crate) fn sort_offsets(v: &mut Vec<u64>)
    ensures
        sorted_by(final(v)@, ascending_offsets()),
        final(v)@.to_multiset() == old(v)@.to_multiset(),
{
    v.sort_unstable();
}

/// `sort_by_key` of a slice of plans by their offsets: claimed of it is that
/// the result is ordered by offset and that plans with equal offsets keep
/// their order.
#[verifier::external_body]
pub(crate) fn sort_by_offset(v: &mut Vec<CarvePlan>)
    ensures
        stably_ordered(old(v)@, final(v)@),
{
    v.sort_by_key(|p| p.offset);
}

} // verus!
