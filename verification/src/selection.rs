use vstd::prelude::*;
use vstd::std_specs::convert::FromSpec;
use crate::candidate::{Candidate, CandidateDist, VersionChoiceKind};
use crate::distribution::PrioritizedDist;
use crate::names::PackageName;
use crate::version::Version;
use crate::version_map::VersionMapDistHandle;

verus! {

/// Whether a version can be a candidate at all: the range admits it (`orders` are the places that
/// the range holds), it is no pre-release or pre-releases are allowed, and it has distributions
/// that were not left out for having been uploaded after the cutoff.
pub open spec fn eligible(
    version: Version,
    dist: Option<PrioritizedDist>,
    orders: Set<u64>,
    allow_prerelease: bool,
) -> bool {
    &&& version.prerelease ==> allow_prerelease
    &&& orders.contains(version.order)
    &&& dist is Some
    &&& !candidate_dist(dist).spec_is_exclude_newer()
}

/// Whether one of the distributions of a version can be used.
pub open spec fn compatible(dist: Option<PrioritizedDist>) -> bool {
    dist is Some && candidate_dist(dist) is Compatible
}

/// What the candidate for a version with distributions has as its distribution.
pub open spec fn candidate_dist<'a>(dist: Option<PrioritizedDist>) -> CandidateDist<'a> {
    CandidateDist::from_spec(&dist->0)
}

/// Whether the item at `i` is the first that can be a candidate.
pub open spec fn is_first_eligible(
    items: Seq<(&Version, VersionMapDistHandle)>,
    orders: Set<u64>,
    allow_prerelease: bool,
    i: int,
) -> bool {
    &&& 0 <= i < items.len()
    &&& item_eligible(items[i], orders, allow_prerelease)
    &&& forall|j: int|
        0 <= j < i ==> !item_eligible(#[trigger] items[j], orders, allow_prerelease)
}

/// Whether an item can be a candidate.
pub open spec fn item_eligible(
    item: (&Version, VersionMapDistHandle),
    orders: Set<u64>,
    allow_prerelease: bool,
) -> bool {
    eligible(*item.0, *item.1.dist, orders, allow_prerelease)
}

/// Whether all items from `i` to `j` are of the same version.
pub open spec fn same_version(
    items: Seq<(&Version, VersionMapDistHandle)>,
    i: int,
    j: int,
) -> bool {
    &&& 0 <= i <= j < items.len()
    &&& forall|k: int| i <= k <= j ==> *(#[trigger] items[k]).0 == *items[i].0
}

/// Whether the item at `j` is a usable candidate for the version at `i`, reached from there
/// without passing another version.
pub open spec fn is_usable_from(
    items: Seq<(&Version, VersionMapDistHandle)>,
    orders: Set<u64>,
    allow_prerelease: bool,
    i: int,
    j: int,
) -> bool {
    &&& same_version(items, i, j)
    &&& item_eligible(items[j], orders, allow_prerelease)
    &&& compatible(*items[j].1.dist)
}

/// Whether the item at `k` is the one to select. The first item that can be a candidate settles
/// the version. Of the items of that version that follow it directly, the first usable one is
/// selected; if none is usable, the item that settled the version.
pub open spec fn is_selected(
    items: Seq<(&Version, VersionMapDistHandle)>,
    orders: Set<u64>,
    allow_prerelease: bool,
    k: int,
) -> bool {
    exists|i: int|
        {
            &&& #[trigger] is_first_eligible(items, orders, allow_prerelease, i)
            &&& is_selected_from(items, orders, allow_prerelease, i, k)
        }
}

/// Whether the item at `k` is the one to select, if the item at `i` settles the version.
pub open spec fn is_selected_from(
    items: Seq<(&Version, VersionMapDistHandle)>,
    orders: Set<u64>,
    allow_prerelease: bool,
    i: int,
    k: int,
) -> bool {
    if exists|j: int| #[trigger] is_usable_from(items, orders, allow_prerelease, i, j) {
        &&& is_usable_from(items, orders, allow_prerelease, i, k)
        &&& forall|j: int|
            j < k ==> !#[trigger] is_usable_from(items, orders, allow_prerelease, i, j)
    } else {
        k == i
    }
}

/// The candidate that is selected from `items`, if any of them can be a candidate.
pub open spec fn selected_item<'a>(
    items: Seq<(&'a Version, VersionMapDistHandle<'a>)>,
    name: &'a PackageName,
    orders: Set<u64>,
    allow_prerelease: bool,
) -> Option<Candidate<'a>> {
    if exists|k: int| is_selected(items, orders, allow_prerelease, k) {
        let k = choose|k: int| is_selected(items, orders, allow_prerelease, k);
        Some(item_candidate(items[k], name))
    } else {
        None
    }
}

/// The candidate for an item with distributions.
pub open spec fn item_candidate<'a>(
    item: (&'a Version, VersionMapDistHandle<'a>),
    name: &'a PackageName,
) -> Candidate<'a> {
    Candidate::spec_new(name, item.0, &(*item.1.dist)->0, VersionChoiceKind::Compatible)
}

/// At most one item is the one to select.
pub proof fn lemma_selected_unique(
    items: Seq<(&Version, VersionMapDistHandle)>,
    orders: Set<u64>,
    allow_prerelease: bool,
    k1: int,
    k2: int,
)
    requires
        is_selected(items, orders, allow_prerelease, k1),
        is_selected(items, orders, allow_prerelease, k2),
    ensures
        k1 == k2,
{
    let i1 = choose|i: int|
        {
            &&& #[trigger] is_first_eligible(items, orders, allow_prerelease, i)
            &&& is_selected_from(items, orders, allow_prerelease, i, k1)
        };
    let i2 = choose|i: int|
        {
            &&& #[trigger] is_first_eligible(items, orders, allow_prerelease, i)
            &&& is_selected_from(items, orders, allow_prerelease, i, k2)
        };
    assert(i1 == i2) by {
        if i1 < i2 {
            assert(!item_eligible(items[i1], orders, allow_prerelease));
        } else if i2 < i1 {
            assert(!item_eligible(items[i2], orders, allow_prerelease));
        }
    }
}

/// The candidate that is selected is that of any item that is the one to select.
pub proof fn lemma_selected_item_at(
    items: Seq<(&Version, VersionMapDistHandle)>,
    name: &PackageName,
    orders: Set<u64>,
    allow_prerelease: bool,
    k: int,
)
    requires
        is_selected(items, orders, allow_prerelease, k),
    ensures
        selected_item(items, name, orders, allow_prerelease) == Some(
            item_candidate(items[k], name),
        ),
{
    let chosen = choose|k: int| is_selected(items, orders, allow_prerelease, k);
    lemma_selected_unique(items, orders, allow_prerelease, chosen, k);
}

/// Nothing is selected if no item can be a candidate.
pub proof fn lemma_nothing_selected(
    items: Seq<(&Version, VersionMapDistHandle)>,
    name: &PackageName,
    orders: Set<u64>,
    allow_prerelease: bool,
)
    requires
        forall|j: int|
            0 <= j < items.len() ==> !item_eligible(
                #[trigger] items[j],
                orders,
                allow_prerelease,
            ),
    ensures
        selected_item(items, name, orders, allow_prerelease) is None,
{
    if exists|k: int| is_selected(items, orders, allow_prerelease, k) {
        let k = choose|k: int| is_selected(items, orders, allow_prerelease, k);
        let i = choose|i: int|
            {
                &&& #[trigger] is_first_eligible(items, orders, allow_prerelease, i)
                &&& is_selected_from(items, orders, allow_prerelease, i, k)
            };
        assert(item_eligible(items[i], orders, allow_prerelease));
    }
}

} // verus!
