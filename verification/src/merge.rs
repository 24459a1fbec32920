use itertools::Itertools;
use vstd::prelude::*;
use crate::version::Version;
use crate::version_map::VersionMapDistHandle;

verus! {

/// Whether the item `a` comes before the item `b` when the versions of several indexes are merged.
/// Each item is tagged with the place of its index. The preferred version comes first, and the same
/// version in the order of the indexes.
pub open spec fn comes_before(
    a: (usize, (&Version, VersionMapDistHandle)),
    b: (usize, (&Version, VersionMapDistHandle)),
    highest: bool,
) -> bool {
    (*a.1.0).preferred_to(*b.1.0, highest) || (*a.1.0 == *b.1.0 && a.0 < b.0)
}

/// Whether no item of `items` comes before an earlier one.
pub open spec fn in_order(
    items: Seq<(usize, (&Version, VersionMapDistHandle))>,
    highest: bool,
) -> bool {
    forall|i: int, j: int|
        0 <= i < j < items.len() ==> !comes_before(
            #[trigger] items[j],
            #[trigger] items[i],
            highest,
        )
}

/// The items of all `runs`, one run after the other.
pub open spec fn all_items<'a>(
    runs: Seq<Vec<(usize, (&'a Version, VersionMapDistHandle<'a>))>>,
) -> Seq<(usize, (&'a Version, VersionMapDistHandle<'a>))> {
    runs.map_values(|run: Vec<(usize, (&'a Version, VersionMapDistHandle<'a>))>| run@).flatten()
}

/// Whether the item `a` comes before the item `b` when the versions of several indexes are merged.
pub fn is_before<'a>(
    a: &(usize, (&'a Version, VersionMapDistHandle<'a>)),
    b: &(usize, (&'a Version, VersionMapDistHandle<'a>)),
    highest: bool,
) -> (before: bool)
    ensures
        before == comes_before(*a, *b, highest),
{
    let version1 = a.1.0;
    let version2 = b.1.0;
    if *version1 == *version2 {
        a.0 < b.0
    } else if highest {
        version2.is_before(version1)
    } else {
        version1.is_before(version2)
    }
}

/// Calls `Itertools::kmerge_by` of the outside crate `itertools`, which merges several lists of
/// items by the order that [`is_before`] computes. The result holds each item of each list, as
/// often as it occurs there; and if every list is in order, so is the result.
#[verifier::external_body]
pub(crate) fn kmerge_by<'a>(
    runs: Vec<Vec<(usize, (&'a Version, VersionMapDistHandle<'a>))>>,
    highest: bool,
) -> (merged: Vec<(usize, (&'a Version, VersionMapDistHandle<'a>))>)
    ensures
        merged@.to_multiset() == all_items(runs@).to_multiset(),
        (forall|r: int| 0 <= r < runs@.len() ==> in_order(#[trigger] runs@[r]@, highest))
            ==> in_order(merged@, highest),
{
    runs.into_iter().kmerge_by(|a, b| is_before(a, b, highest)).collect()
}

/// The merge of `runs` holds exactly the items that some run holds.
pub(crate) proof fn lemma_merge_contains<'a>(
    runs: Seq<Vec<(usize, (&'a Version, VersionMapDistHandle<'a>))>>,
    merged: Seq<(usize, (&'a Version, VersionMapDistHandle<'a>))>,
    item: (usize, (&'a Version, VersionMapDistHandle<'a>)),
)
    requires
        merged.to_multiset() == all_items(runs).to_multiset(),
    ensures
        merged.contains(item) <==> exists|r: int|
            0 <= r < runs.len() && (#[trigger] runs[r])@.contains(item),
{
    merged.to_multiset_ensures();
    all_items(runs).to_multiset_ensures();
    assert(merged.contains(item) <==> merged.to_multiset().count(item) > 0);
    assert(all_items(runs).contains(item) <==> all_items(runs).to_multiset().count(item) > 0);
    let views = runs.map_values(
        |run: Vec<(usize, (&'a Version, VersionMapDistHandle<'a>))>| run@,
    );
    lemma_flatten_contains(views, item);
    if exists|r: int| 0 <= r < runs.len() && (#[trigger] runs[r])@.contains(item) {
        let r = choose|r: int| 0 <= r < runs.len() && (#[trigger] runs[r])@.contains(item);
        assert(views[r].contains(item));
    }
}

/// A value is in the concatenation of `lists` if and only if it is in one of them.
proof fn lemma_flatten_contains<T>(lists: Seq<Seq<T>>, value: T)
    ensures
        lists.flatten().contains(value) <==> exists|r: int|
            0 <= r < lists.len() && (#[trigger] lists[r]).contains(value),
    decreases lists.len(),
{
    if lists.len() > 0 {
        let first = lists.first();
        let rest = lists.drop_first();
        lemma_flatten_contains(rest, value);
        assert(lists.flatten() == first + rest.flatten());
        if lists.flatten().contains(value) {
            let i = lists.flatten().index_of(value);
            if i < first.len() {
                assert(first[i] == value);
                assert(lists[0].contains(value));
            } else {
                assert(rest.flatten()[i - first.len()] == value);
                let r = choose|r: int| 0 <= r < rest.len() && (#[trigger] rest[r]).contains(value);
                assert(lists[r + 1].contains(value));
            }
        }
        if exists|r: int| 0 <= r < lists.len() && (#[trigger] lists[r]).contains(value) {
            let r = choose|r: int| 0 <= r < lists.len() && (#[trigger] lists[r]).contains(value);
            if r == 0 {
                let i = first.index_of(value);
                assert(lists.flatten()[i] == value);
            } else {
                assert(rest[r - 1].contains(value));
                let i = rest.flatten().index_of(value);
                assert(lists.flatten()[first.len() + i] == value);
            }
        }
    }
}

} // verus!
