use vstd::prelude::*;
use crate::candidate::Candidate;
use crate::merge::{all_items, comes_before, in_order, lemma_merge_contains};
use crate::names::PackageName;
use crate::selection::{
    compatible, eligible, is_first_eligible, is_selected, is_selected_from, is_usable_from,
    item_candidate, item_eligible, lemma_nothing_selected, lemma_selected_item_at, same_version,
    selected_item,
};
use crate::version::Version;
use crate::version_map::{
    ascending, lemma_preferred_items, VersionMap, VersionMapDistHandle,
};

verus! {

/// Whether there is an entry at place `k` of the version map at place `m`.
pub open spec fn is_entry(maps: Seq<VersionMap>, m: int, k: int) -> bool {
    0 <= m < maps.len() && 0 <= k < maps[m]@.len()
}

/// Whether there is an entry at place `k` of the version map at place `m` that can be a candidate.
pub open spec fn is_eligible_entry(
    maps: Seq<VersionMap>,
    orders: Set<u64>,
    allow_prerelease: bool,
    m: int,
    k: int,
) -> bool {
    &&& is_entry(maps, m, k)
    &&& eligible(maps[m]@[k].version, maps[m]@[k].dist, orders, allow_prerelease)
}

/// Whether the entry at (`m`, `k`) is the best that all the version maps together have: of all
/// entries that can be candidates, none has a preferred version; of those of the same version, it
/// is the first usable one, in the order of the maps, or the first at all if none is usable.
pub open spec fn is_best_match(
    maps: Seq<VersionMap>,
    orders: Set<u64>,
    allow_prerelease: bool,
    highest: bool,
    m: int,
    k: int,
) -> bool {
    &&& is_eligible_entry(maps, orders, allow_prerelease, m, k)
    &&& forall|m2: int, k2: int| #[trigger]
        is_eligible_entry(maps, orders, allow_prerelease, m2, k2) ==> {
            let entry = maps[m]@[k];
            let other = maps[m2]@[k2];
            &&& !other.version.preferred_to(entry.version, highest)
            &&& other.version == entry.version ==> if compatible(entry.dist) {
                compatible(other.dist) ==> m <= m2
            } else {
                !compatible(other.dist) && m <= m2
            }
        }
}

/// Whether the entry at (`m`, `k`) is the best of the first version map that has any entry that can
/// be a candidate.
pub open spec fn is_first_match(
    maps: Seq<VersionMap>,
    orders: Set<u64>,
    allow_prerelease: bool,
    highest: bool,
    m: int,
    k: int,
) -> bool {
    &&& is_eligible_entry(maps, orders, allow_prerelease, m, k)
    &&& forall|m2: int, k2: int| #[trigger]
        is_eligible_entry(maps, orders, allow_prerelease, m2, k2) ==> {
            &&& m <= m2
            &&& m2 == m ==> !maps[m2]@[k2].version.preferred_to(maps[m]@[k].version, highest)
        }
}

/// Whether the entry at (`m`, `k`) is the one to choose.
pub open spec fn is_chosen(
    maps: Seq<VersionMap>,
    orders: Set<u64>,
    allow_prerelease: bool,
    highest: bool,
    best_match: bool,
    m: int,
    k: int,
) -> bool {
    if best_match {
        is_best_match(maps, orders, allow_prerelease, highest, m, k)
    } else {
        is_first_match(maps, orders, allow_prerelease, highest, m, k)
    }
}

/// The candidate for the entry that is chosen from the version maps, if any entry can be a
/// candidate.
pub open spec fn chosen_candidate<'a>(
    maps: Seq<VersionMap>,
    name: &'a PackageName,
    orders: Set<u64>,
    allow_prerelease: bool,
    highest: bool,
    best_match: bool,
) -> Option<Candidate<'a>> {
    if exists|m: int, k: int|
        is_chosen(maps, orders, allow_prerelease, highest, best_match, m, k) {
        let (m, k) = choose|m: int, k: int|
            is_chosen(maps, orders, allow_prerelease, highest, best_match, m, k);
        Some(item_candidate(maps[m]@[k].item(), name))
    } else {
        None
    }
}

/// Whether every version map is in the order of its versions.
pub open spec fn all_ascending(maps: Seq<VersionMap>) -> bool {
    forall|m: int| 0 <= m < maps.len() ==> ascending((#[trigger] maps[m])@)
}

/// At most one entry is the one to choose.
pub proof fn lemma_chosen_unique(
    maps: Seq<VersionMap>,
    orders: Set<u64>,
    allow_prerelease: bool,
    highest: bool,
    best_match: bool,
    m1: int,
    k1: int,
    m2: int,
    k2: int,
)
    requires
        ascending(maps[m1]@),
        is_chosen(maps, orders, allow_prerelease, highest, best_match, m1, k1),
        is_chosen(maps, orders, allow_prerelease, highest, best_match, m2, k2),
    ensures
        m1 == m2,
        k1 == k2,
{
    assert(is_eligible_entry(maps, orders, allow_prerelease, m1, k1));
    assert(is_eligible_entry(maps, orders, allow_prerelease, m2, k2));
    let entry1 = maps[m1]@[k1];
    let entry2 = maps[m2]@[k2];
    assert(m1 == m2);
    assert(entry1.version == entry2.version);
    if k1 < k2 {
        assert(maps[m1]@[k1].version.precedes(maps[m1]@[k2].version));
    } else if k2 < k1 {
        assert(maps[m1]@[k2].version.precedes(maps[m1]@[k1].version));
    }
}

/// The candidate that is chosen is that of any entry that is the one to choose.
pub proof fn lemma_chosen_at(
    maps: Seq<VersionMap>,
    name: &PackageName,
    orders: Set<u64>,
    allow_prerelease: bool,
    highest: bool,
    best_match: bool,
    m: int,
    k: int,
)
    requires
        ascending(maps[m]@),
        is_chosen(maps, orders, allow_prerelease, highest, best_match, m, k),
    ensures
        chosen_candidate(maps, name, orders, allow_prerelease, highest, best_match) == Some(
            item_candidate(maps[m]@[k].item(), name),
        ),
{
    let (m1, k1) = choose|m: int, k: int|
        is_chosen(maps, orders, allow_prerelease, highest, best_match, m, k);
    lemma_chosen_unique(maps, orders, allow_prerelease, highest, best_match, m, k, m1, k1);
}

/// Whether `tagged` lists what the version maps have: every item is that of an entry, tagged with
/// the place of its map, and every entry that the range admits has its item there.
pub open spec fn lists_maps(
    tagged: Seq<(usize, (&Version, VersionMapDistHandle))>,
    maps: Seq<VersionMap>,
    orders: Set<u64>,
) -> bool {
    &&& forall|j: int| 0 <= j < tagged.len() ==> has_entry(maps, #[trigger] tagged[j])
    &&& forall|m: int, k: int| #[trigger]
        is_entry(maps, m, k) && orders.contains(maps[m]@[k].version.order) ==> tagged.contains(
            (m as usize, maps[m]@[k].item()),
        )
}

/// Whether `item` is that of an entry of the version map whose place it is tagged with.
pub open spec fn has_entry(
    maps: Seq<VersionMap>,
    item: (usize, (&Version, VersionMapDistHandle)),
) -> bool {
    exists|k: int| #[trigger]
        is_entry(maps, item.0 as int, k) && item.1 == maps[item.0 as int]@[k].item()
}

/// The items without their tags.
pub open spec fn untagged<'a>(
    tagged: Seq<(usize, (&'a Version, VersionMapDistHandle<'a>))>,
) -> Seq<(&'a Version, VersionMapDistHandle<'a>)> {
    tagged.map_values(|item: (usize, (&'a Version, VersionMapDistHandle<'a>))| item.1)
}

/// Items in order that lie between two items of the same version are of that version too.
proof fn lemma_same_version_between(
    tagged: Seq<(usize, (&Version, VersionMapDistHandle))>,
    highest: bool,
    i: int,
    j: int,
)
    requires
        in_order(tagged, highest),
        0 <= i <= j < tagged.len(),
        *tagged[i].1.0 == *tagged[j].1.0,
    ensures
        same_version(untagged(tagged), i, j),
{
    let items = untagged(tagged);
    assert forall|k: int| i <= k <= j implies *(#[trigger] items[k]).0 == *items[i].0 by {
        if i < k < j {
            assert(!comes_before(tagged[k], tagged[i], highest));
            assert(!comes_before(tagged[j], tagged[k], highest));
        }
    }
}

/// Selecting from what several version maps have, put in one order, gives the best that they have
/// together.
pub(crate) proof fn lemma_select_from_all(
    tagged: Seq<(usize, (&Version, VersionMapDistHandle))>,
    maps: Seq<VersionMap>,
    name: &PackageName,
    orders: Set<u64>,
    allow_prerelease: bool,
    highest: bool,
)
    requires
        all_ascending(maps),
        maps.len() <= usize::MAX,
        lists_maps(tagged, maps, orders),
        in_order(tagged, highest),
    ensures
        selected_item(untagged(tagged), name, orders, allow_prerelease) == chosen_candidate(
            maps,
            name,
            orders,
            allow_prerelease,
            highest,
            true,
        ),
        selected_item(untagged(tagged), name, orders, allow_prerelease) is None <==> (forall|
            m: int,
            k: int,
        |
            !#[trigger] is_eligible_entry(maps, orders, allow_prerelease, m, k)),
{
    let items = untagged(tagged);
    if exists|i: int| is_first_eligible(items, orders, allow_prerelease, i) {
        let i = choose|i: int| is_first_eligible(items, orders, allow_prerelease, i);
        let k = lemma_selection_exists(items, orders, allow_prerelease, i);
        lemma_selected_item_at(items, name, orders, allow_prerelease, k);
        assert(same_version(items, i, k));
        assert(has_entry(maps, tagged[k]));
        let m = tagged[k].0 as int;
        let e = choose|e: int| #[trigger] is_entry(maps, m, e) && tagged[k].1 == maps[m]@[e].item();
        let entry = maps[m]@[e];
        assert(is_eligible_entry(maps, orders, allow_prerelease, m, e)) by {
            assert(item_eligible(items[k], orders, allow_prerelease));
        }
        assert forall|m2: int, e2: int| #[trigger]
            is_eligible_entry(maps, orders, allow_prerelease, m2, e2) implies {
            let other = maps[m2]@[e2];
            &&& !other.version.preferred_to(entry.version, highest)
            &&& other.version == entry.version ==> if compatible(entry.dist) {
                compatible(other.dist) ==> m <= m2
            } else {
                !compatible(other.dist) && m <= m2
            }
        } by {
            let other = maps[m2]@[e2];
            assert(is_entry(maps, m2, e2));
            assert(tagged.contains((m2 as usize, other.item())));
            let j = tagged.index_of((m2 as usize, other.item()));
            assert(tagged[j] == (m2 as usize, other.item()));
            assert(items[j] == other.item());
            assert(item_eligible(items[j], orders, allow_prerelease));
            assert(i <= j);
            assert(*items[k].0 == *items[i].0);
            if i < j {
                assert(!comes_before(tagged[j], tagged[i], highest));
            }
            if other.version == entry.version {
                lemma_same_version_between(tagged, highest, i, j);
                if compatible(other.dist) {
                    assert(is_usable_from(items, orders, allow_prerelease, i, j));
                    assert(k <= j);
                    if k < j {
                        assert(!comes_before(tagged[j], tagged[k], highest));
                    }
                } else if !compatible(entry.dist) {
                    assert(!is_usable_from(items, orders, allow_prerelease, i, k));
                    assert(k == i);
                }
            }
        }
        assert(is_best_match(maps, orders, allow_prerelease, highest, m, e));
        assert(is_chosen(maps, orders, allow_prerelease, highest, true, m, e));
        lemma_chosen_at(maps, name, orders, allow_prerelease, highest, true, m, e);
    } else {
        assert forall|j: int| 0 <= j < items.len() implies !item_eligible(
            #[trigger] items[j],
            orders,
            allow_prerelease,
        ) by {
            if item_eligible(items[j], orders, allow_prerelease) {
                lemma_first_eligible_exists(items, orders, allow_prerelease, j);
            }
        }
        lemma_nothing_selected(items, name, orders, allow_prerelease);
        assert forall|m: int, k: int| !#[trigger] is_eligible_entry(
            maps,
            orders,
            allow_prerelease,
            m,
            k,
        ) by {
            if is_eligible_entry(maps, orders, allow_prerelease, m, k) {
                assert(is_entry(maps, m, k));
                let item = (m as usize, maps[m]@[k].item());
                assert(tagged.contains(item));
                let j = tagged.index_of(item);
                assert(items[j] == item.1);
                assert(item_eligible(items[j], orders, allow_prerelease));
            }
        }
    }
}

/// What a version map has, preferred versions first, lists it as the only one and is in order.
proof fn lemma_single_map(map: &VersionMap, orders: Set<u64>, highest: bool, place: usize)
    requires
        map.wf(),
    ensures
        in_order(tagged_items(map, orders, highest, place), highest),
        forall|j: int|
            0 <= j < map.preferred_items(orders, highest).len() ==> #[trigger] tagged_items(
                map,
                orders,
                highest,
                place,
            )[j].0 == place && map.has_item(tagged_items(map, orders, highest, place)[j].1),
        forall|k: int|
            0 <= k < map@.len() && orders.contains((#[trigger] map@[k]).version.order)
                ==> tagged_items(map, orders, highest, place).contains((place, map@[k].item())),
{
    let items = map.preferred_items(orders, highest);
    let tagged = tagged_items(map, orders, highest, place);
    lemma_preferred_items(map, orders, highest);
    assert forall|k: int|
        0 <= k < map@.len() && orders.contains((#[trigger] map@[k]).version.order) implies
        tagged.contains((place, map@[k].item())) by {
        let j = items.index_of(map@[k].item());
        assert(tagged[j] == (place, map@[k].item()));
    }
    assert forall|i: int, j: int| 0 <= i < j < tagged.len() implies !comes_before(
        #[trigger] tagged[j],
        #[trigger] tagged[i],
        highest,
    ) by {
        assert((*items[i].0).preferred_to(*items[j].0, highest));
    }
}

/// The items of a version map, preferred versions first, tagged with the place of the map.
pub open spec fn tagged_items<'a>(
    map: &'a VersionMap,
    orders: Set<u64>,
    highest: bool,
    place: usize,
) -> Seq<(usize, (&'a Version, VersionMapDistHandle<'a>))> {
    map.preferred_items(orders, highest).map_values(
        |item: (&'a Version, VersionMapDistHandle<'a>)| (place, item),
    )
}

/// Selecting from one version map gives the best entry that it has.
pub(crate) proof fn lemma_select_from_one(
    map: &VersionMap,
    name: &PackageName,
    orders: Set<u64>,
    allow_prerelease: bool,
    highest: bool,
)
    requires
        map.wf(),
    ensures
        selected_item(map.preferred_items(orders, highest), name, orders, allow_prerelease)
            == chosen_candidate(seq![*map], name, orders, allow_prerelease, highest, true),
        selected_item(
            map.preferred_items(orders, highest),
            name,
            orders,
            allow_prerelease,
        ) is None <==> (forall|m: int, k: int|
            !#[trigger] is_eligible_entry(seq![*map], orders, allow_prerelease, m, k)),
{
    let maps = seq![*map];
    let tagged = tagged_items(map, orders, highest, 0);
    lemma_single_map(map, orders, highest, 0);
    assert(lists_maps(tagged, maps, orders)) by {
        assert forall|j: int| 0 <= j < tagged.len() implies has_entry(
            maps,
            #[trigger] tagged[j],
        ) by {
            let k = choose|k: int|
                0 <= k < map@.len() && tagged[j].1 == (#[trigger] map@[k]).item();
            assert(is_entry(maps, tagged[j].0 as int, k));
        }
    }
    lemma_select_from_all(tagged, maps, name, orders, allow_prerelease, highest);
    assert(untagged(tagged) == map.preferred_items(orders, highest));
}

/// If the maps before `m` have nothing that can be a candidate and the map at `m` has, the best
/// entry that it has is the one to choose.
pub(crate) proof fn lemma_first_match_at(
    maps: Seq<VersionMap>,
    name: &PackageName,
    orders: Set<u64>,
    allow_prerelease: bool,
    highest: bool,
    m: int,
)
    requires
        0 <= m < maps.len(),
        maps[m].wf(),
        forall|m2: int, k2: int|
            m2 < m ==> !#[trigger] is_eligible_entry(maps, orders, allow_prerelease, m2, k2),
        chosen_candidate(seq![maps[m]], name, orders, allow_prerelease, highest, true) is Some,
    ensures
        chosen_candidate(maps, name, orders, allow_prerelease, highest, false)
            == chosen_candidate(seq![maps[m]], name, orders, allow_prerelease, highest, true),
        exists|k: int| is_eligible_entry(maps, orders, allow_prerelease, m, k),
{
    let single = seq![maps[m]];
    let (m1, k) = choose|m1: int, k: int|
        is_chosen(single, orders, allow_prerelease, highest, true, m1, k);
    assert(is_best_match(single, orders, allow_prerelease, highest, m1, k));
    assert(m1 == 0);
    assert(is_eligible_entry(maps, orders, allow_prerelease, m, k));
    assert forall|m2: int, k2: int| #[trigger]
        is_eligible_entry(maps, orders, allow_prerelease, m2, k2) implies {
        &&& m <= m2
        &&& m2 == m ==> !maps[m2]@[k2].version.preferred_to(maps[m]@[k].version, highest)
    } by {
        if m2 == m {
            assert(is_eligible_entry(single, orders, allow_prerelease, 0, k2));
        }
    }
    assert(is_chosen(maps, orders, allow_prerelease, highest, false, m, k));
    lemma_chosen_at(maps, name, orders, allow_prerelease, highest, false, m, k);
}

/// The merge of what each version map has lists the version maps and is in order.
pub(crate) proof fn lemma_merged_runs<'a>(
    runs: Seq<Vec<(usize, (&'a Version, VersionMapDistHandle<'a>))>>,
    merged: Seq<(usize, (&'a Version, VersionMapDistHandle<'a>))>,
    maps: Seq<VersionMap>,
    orders: Set<u64>,
    highest: bool,
)
    requires
        maps.len() <= usize::MAX,
        runs.len() == maps.len(),
        forall|r: int| 0 <= r < maps.len() ==> (#[trigger] maps[r]).wf(),
        forall|r: int|
            0 <= r < runs.len() ==> (#[trigger] runs[r])@ == tagged_items(
                &maps[r],
                orders,
                highest,
                r as usize,
            ),
        merged.to_multiset() == all_items(runs).to_multiset(),
        (forall|r: int| 0 <= r < runs.len() ==> in_order(#[trigger] runs[r]@, highest))
            ==> in_order(merged, highest),
    ensures
        all_ascending(maps),
        lists_maps(merged, maps, orders),
        in_order(merged, highest),
{
    assert forall|m: int| 0 <= m < maps.len() implies ascending((#[trigger] maps[m])@) by {
        assert(maps[m].wf());
    }
    assert forall|r: int| 0 <= r < runs.len() implies in_order(#[trigger] runs[r]@, highest) by {
        lemma_single_map(&maps[r], orders, highest, r as usize);
    }
    assert forall|j: int| 0 <= j < merged.len() implies has_entry(maps, #[trigger] merged[j]) by {
        let item = merged[j];
        lemma_merge_contains(runs, merged, item);
        let r = choose|r: int| 0 <= r < runs.len() && (#[trigger] runs[r])@.contains(item);
        let map = maps[r];
        lemma_single_map(&map, orders, highest, r as usize);
        let tagged = tagged_items(&map, orders, highest, r as usize);
        let i = tagged.index_of(item);
        assert(tagged[i].0 == r);
        let k = choose|k: int| 0 <= k < map@.len() && item.1 == (#[trigger] map@[k]).item();
        assert(is_entry(maps, item.0 as int, k));
    }
    assert forall|m: int, k: int| #[trigger]
        is_entry(maps, m, k) && orders.contains(maps[m]@[k].version.order) implies merged.contains(
        (m as usize, maps[m]@[k].item()),
    ) by {
        let item = (m as usize, maps[m]@[k].item());
        lemma_single_map(&maps[m], orders, highest, m as usize);
        assert(runs[m]@.contains(item));
        lemma_merge_contains(runs, merged, item);
    }
}

/// If some item can be a candidate, there is a first that can.
pub proof fn lemma_first_eligible_exists(
    items: Seq<(&Version, VersionMapDistHandle)>,
    orders: Set<u64>,
    allow_prerelease: bool,
    j: int,
)
    requires
        0 <= j < items.len(),
        item_eligible(items[j], orders, allow_prerelease),
    ensures
        exists|i: int| is_first_eligible(items, orders, allow_prerelease, i),
    decreases j,
{
    if exists|i: int| 0 <= i < j && item_eligible(#[trigger] items[i], orders, allow_prerelease) {
        let i = choose|i: int|
            0 <= i < j && item_eligible(#[trigger] items[i], orders, allow_prerelease);
        lemma_first_eligible_exists(items, orders, allow_prerelease, i);
    } else {
        assert(is_first_eligible(items, orders, allow_prerelease, j));
    }
}

/// Once an item settles the version, there is an item to select.
proof fn lemma_selection_exists(
    items: Seq<(&Version, VersionMapDistHandle)>,
    orders: Set<u64>,
    allow_prerelease: bool,
    i: int,
) -> (k: int)
    requires
        is_first_eligible(items, orders, allow_prerelease, i),
    ensures
        is_selected(items, orders, allow_prerelease, k),
        is_selected_from(items, orders, allow_prerelease, i, k),
        same_version(items, i, k),
{
    if exists|j: int| #[trigger] is_usable_from(items, orders, allow_prerelease, i, j) {
        let j = choose|j: int| #[trigger] is_usable_from(items, orders, allow_prerelease, i, j);
        lemma_first_usable_exists(items, orders, allow_prerelease, i, j)
    } else {
        i
    }
}

/// If an item is usable for the version at `i`, there is a first that is.
proof fn lemma_first_usable_exists(
    items: Seq<(&Version, VersionMapDistHandle)>,
    orders: Set<u64>,
    allow_prerelease: bool,
    i: int,
    j: int,
) -> (k: int)
    requires
        is_usable_from(items, orders, allow_prerelease, i, j),
    ensures
        is_usable_from(items, orders, allow_prerelease, i, k),
        forall|l: int| l < k ==> !#[trigger] is_usable_from(items, orders, allow_prerelease, i, l),
    decreases j - i,
{
    if exists|l: int| l < j && #[trigger] is_usable_from(items, orders, allow_prerelease, i, l) {
        let l = choose|l: int|
            l < j && #[trigger] is_usable_from(items, orders, allow_prerelease, i, l);
        lemma_first_usable_exists(items, orders, allow_prerelease, i, l)
    } else {
        j
    }
}

} // verus!
