use pubgrub::Ranges;
use vstd::prelude::*;
use crate::version::Version;

verus! {

/// The outside type `pubgrub::Ranges`: a set of versions, kept as a list of intervals.
#[verifier::external_type_specification]
#[verifier::external_body]
#[verifier::reject_recursive_types(V)]
pub struct ExRanges<V>(Ranges<V>);

/// What a range holds: the places, in the order of versions, of the versions that it admits.
pub uninterp spec fn range_orders(range: Ranges<u64>) -> Set<u64>;

/// Calls `Ranges::contains` of the outside crate `pubgrub`, which tells whether a range holds the
/// place of `version` in the order of versions.
#[verifier::external_body]
pub(crate) fn range_contains(range: &Ranges<u64>, version: &Version) -> (contained: bool)
    ensures
        contained == range_orders(*range).contains(version.order),
{
    range.contains(&version.order)
}

} // verus!
