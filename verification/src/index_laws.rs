//! What holds of choosing a candidate from the versions that the indexes have.

use vstd::prelude::*;
use crate::index_choice::{
    all_ascending, chosen_candidate, is_chosen, is_eligible_entry, is_first_match,
    lemma_chosen_at,
};
use crate::names::PackageName;
use crate::selection::{compatible, eligible, item_candidate};
use crate::version_map::{ascending, VersionMap, VersionMapEntry};

verus! {

/// Whether the entry at (`m1`, `k1`) goes before the one at (`m2`, `k2`) when both can be
/// candidates.
spec fn beats(
    maps: Seq<VersionMap>,
    highest: bool,
    best_match: bool,
    m1: int,
    k1: int,
    m2: int,
    k2: int,
) -> bool {
    let entry1 = maps[m1]@[k1];
    let entry2 = maps[m2]@[k2];
    if best_match {
        entry1.version.preferred_to(entry2.version, highest) || (entry1.version == entry2.version
            && (compatible(entry1.dist) && !compatible(entry2.dist) || (compatible(entry1.dist)
            == compatible(entry2.dist) && m1 < m2)))
    } else {
        m1 < m2 || (m1 == m2 && entry1.version.preferred_to(entry2.version, highest))
    }
}

/// Among the entries of the maps before `n` and the first `j` of the map at `n`, if one can be a
/// candidate, there is one that none of the others goes before.
proof fn lemma_unbeaten_exists(
    maps: Seq<VersionMap>,
    orders: Set<u64>,
    allow_prerelease: bool,
    highest: bool,
    best_match: bool,
    n: int,
    j: int,
) -> (best: Option<(int, int)>)
    requires
        0 <= n <= maps.len(),
        0 <= j,
        n < maps.len() ==> j <= maps[n]@.len(),
        n == maps.len() ==> j == 0,
    ensures
        match best {
            Some((m, k)) => {
                &&& is_eligible_entry(maps, orders, allow_prerelease, m, k)
                &&& forall|m2: int, k2: int|
                    (m2 < n || (m2 == n && k2 < j)) && #[trigger] is_eligible_entry(
                        maps,
                        orders,
                        allow_prerelease,
                        m2,
                        k2,
                    ) ==> !beats(maps, highest, best_match, m2, k2, m, k)
            },
            None => forall|m2: int, k2: int|
                (m2 < n || (m2 == n && k2 < j)) ==> !#[trigger] is_eligible_entry(
                    maps,
                    orders,
                    allow_prerelease,
                    m2,
                    k2,
                ),
        },
    decreases n, j,
{
    if j > 0 {
        let earlier = lemma_unbeaten_exists(
            maps,
            orders,
            allow_prerelease,
            highest,
            best_match,
            n,
            j - 1,
        );
        if !is_eligible_entry(maps, orders, allow_prerelease, n, j - 1) {
            earlier
        } else {
            match earlier {
                Some((m, k)) => if beats(maps, highest, best_match, n, j - 1, m, k) {
                    Some((n, j - 1))
                } else {
                    Some((m, k))
                },
                None => Some((n, j - 1)),
            }
        }
    } else if n > 0 {
        lemma_unbeaten_exists(
            maps,
            orders,
            allow_prerelease,
            highest,
            best_match,
            n - 1,
            maps[n - 1]@.len() as int,
        )
    } else {
        None
    }
}

/// A candidate is chosen from the version maps if and only if some entry can be one. In this the
/// index strategies do not differ.
pub proof fn law_chosen_iff_eligible(
    maps: Seq<VersionMap>,
    name: &PackageName,
    orders: Set<u64>,
    allow_prerelease: bool,
    highest: bool,
    best_match: bool,
)
    ensures
        chosen_candidate(maps, name, orders, allow_prerelease, highest, best_match) is Some <==> (
        exists|m: int, k: int| #[trigger] is_eligible_entry(maps, orders, allow_prerelease, m, k)),
{
    let best = lemma_unbeaten_exists(
        maps,
        orders,
        allow_prerelease,
        highest,
        best_match,
        maps.len() as int,
        0,
    );
    if let Some((m, k)) = best {
        assert(is_chosen(maps, orders, allow_prerelease, highest, best_match, m, k));
    }
    if exists|m: int, k: int| is_chosen(maps, orders, allow_prerelease, highest, best_match, m, k) {
        let (m, k) = choose|m: int, k: int|
            is_chosen(maps, orders, allow_prerelease, highest, best_match, m, k);
        assert(is_eligible_entry(maps, orders, allow_prerelease, m, k));
    }
}

/// The candidate that is chosen from the version maps is that of an entry that can be one.
pub(crate) proof fn lemma_chosen_entry(
    maps: Seq<VersionMap>,
    name: &PackageName,
    orders: Set<u64>,
    allow_prerelease: bool,
    highest: bool,
    best_match: bool,
) -> (place: (int, int))
    requires
        chosen_candidate(maps, name, orders, allow_prerelease, highest, best_match) is Some,
    ensures
        is_chosen(maps, orders, allow_prerelease, highest, best_match, place.0, place.1),
        is_eligible_entry(maps, orders, allow_prerelease, place.0, place.1),
        chosen_candidate(maps, name, orders, allow_prerelease, highest, best_match) == Some(
            item_candidate(maps[place.0]@[place.1].item(), name),
        ),
{
    let (m, k) = choose|m: int, k: int|
        is_chosen(maps, orders, allow_prerelease, highest, best_match, m, k);
    (m, k)
}

/// A candidate from the version maps bears the name that was asked for and is of a version that the
/// range admits; it is a pre-release only where pre-releases are allowed; and it was not left out
/// for having been uploaded after the cutoff.
pub proof fn law_chosen_is_eligible(
    maps: Seq<VersionMap>,
    name: &PackageName,
    orders: Set<u64>,
    allow_prerelease: bool,
    highest: bool,
    best_match: bool,
)
    requires
        chosen_candidate(maps, name, orders, allow_prerelease, highest, best_match) is Some,
    ensures
        ({
            let candidate = chosen_candidate(
                maps,
                name,
                orders,
                allow_prerelease,
                highest,
                best_match,
            )->0;
            &&& candidate.name == name
            &&& candidate.choice_kind is Compatible
            &&& orders.contains(candidate.version.order)
            &&& candidate.version.prerelease ==> allow_prerelease
            &&& !candidate.dist.spec_is_exclude_newer()
        }),
{
    let place = lemma_chosen_entry(maps, name, orders, allow_prerelease, highest, best_match);
}

/// Across all indexes, no version that can be a candidate is preferred to the one that is chosen.
pub proof fn law_best_match_is_best_version(
    maps: Seq<VersionMap>,
    name: &PackageName,
    orders: Set<u64>,
    allow_prerelease: bool,
    highest: bool,
    m: int,
    k: int,
)
    requires
        is_eligible_entry(maps, orders, allow_prerelease, m, k),
    ensures
        chosen_candidate(maps, name, orders, allow_prerelease, highest, true) matches Some(
            candidate,
        ) && !maps[m]@[k].version.preferred_to(*candidate.version, highest),
{
    law_chosen_iff_eligible(maps, name, orders, allow_prerelease, highest, true);
    let place = lemma_chosen_entry(maps, name, orders, allow_prerelease, highest, true);
}

/// If any index has the chosen version in a form that can be used, the candidate can be used. So
/// an index on which the version cannot be used does not hide another on which it can.
pub proof fn law_best_match_prefers_compatible(
    maps: Seq<VersionMap>,
    name: &PackageName,
    orders: Set<u64>,
    allow_prerelease: bool,
    highest: bool,
    m: int,
    k: int,
)
    requires
        is_eligible_entry(maps, orders, allow_prerelease, m, k),
        compatible(maps[m]@[k].dist),
        chosen_candidate(maps, name, orders, allow_prerelease, highest, true) matches Some(
            candidate,
        ) && maps[m]@[k].version == *candidate.version,
    ensures
        chosen_candidate(maps, name, orders, allow_prerelease, highest, true)->0.dist is Compatible,
{
    let place = lemma_chosen_entry(maps, name, orders, allow_prerelease, highest, true);
}

/// Without best match, the first index that has anything to offer is the only one that counts.
pub proof fn law_first_index_wins(
    maps: Seq<VersionMap>,
    name: &PackageName,
    orders: Set<u64>,
    allow_prerelease: bool,
    highest: bool,
    m: int,
    k: int,
)
    requires
        all_ascending(maps),
        is_eligible_entry(maps, orders, allow_prerelease, m, k),
        forall|m2: int, k2: int|
            m2 < m ==> !#[trigger] is_eligible_entry(maps, orders, allow_prerelease, m2, k2),
    ensures
        chosen_candidate(maps, name, orders, allow_prerelease, highest, false)
            == chosen_candidate(seq![maps[m]], name, orders, allow_prerelease, highest, false),
        chosen_candidate(maps, name, orders, allow_prerelease, highest, false) matches Some(
            candidate,
        ) && !maps[m]@[k].version.preferred_to(*candidate.version, highest),
{
    let single = seq![maps[m]];
    law_chosen_iff_eligible(maps, name, orders, allow_prerelease, highest, false);
    let place = lemma_chosen_entry(maps, name, orders, allow_prerelease, highest, false);
    assert(place.0 == m);
    assert(is_first_match(single, orders, allow_prerelease, highest, 0, place.1)) by {
        assert forall|m2: int, k2: int| #[trigger]
            is_eligible_entry(single, orders, allow_prerelease, m2, k2) implies {
            &&& 0 <= m2
            &&& !single[m2]@[k2].version.preferred_to(single[0]@[place.1].version, highest)
        } by {
            assert(is_eligible_entry(maps, orders, allow_prerelease, m, k2));
        }
    }
    assert(is_chosen(single, orders, allow_prerelease, highest, false, 0, place.1));
    assert(ascending(maps[m]@));
    lemma_chosen_at(single, name, orders, allow_prerelease, highest, false, 0, place.1);
}

/// With a single index, the index strategies do not differ.
pub proof fn law_one_index(
    map: VersionMap,
    name: &PackageName,
    orders: Set<u64>,
    allow_prerelease: bool,
    highest: bool,
)
    requires
        map.wf(),
    ensures
        chosen_candidate(seq![map], name, orders, allow_prerelease, highest, true)
            == chosen_candidate(seq![map], name, orders, allow_prerelease, highest, false),
{
    let maps = seq![map];
    law_chosen_iff_eligible(maps, name, orders, allow_prerelease, highest, true);
    law_chosen_iff_eligible(maps, name, orders, allow_prerelease, highest, false);
    if chosen_candidate(maps, name, orders, allow_prerelease, highest, true) is Some {
        let place = lemma_chosen_entry(maps, name, orders, allow_prerelease, highest, true);
        assert(is_first_match(maps, orders, allow_prerelease, highest, place.0, place.1));
        assert(is_chosen(maps, orders, allow_prerelease, highest, false, place.0, place.1));
        lemma_chosen_at(maps, name, orders, allow_prerelease, highest, false, place.0, place.1);
    }
}

/// Whether `map` has `entry`, and the entry can be a candidate.
pub open spec fn offers(
    map: VersionMap,
    orders: Set<u64>,
    allow_prerelease: bool,
    entry: VersionMapEntry,
) -> bool {
    map@.contains(entry) && eligible(entry.version, entry.dist, orders, allow_prerelease)
}

/// Entries that cannot be candidates do not count: versions outside the range, pre-releases that
/// are not allowed, versions without distributions and versions uploaded after the cutoff are as
/// good as absent.
pub proof fn law_only_eligible_entries_count(
    maps1: Seq<VersionMap>,
    maps2: Seq<VersionMap>,
    name: &PackageName,
    orders: Set<u64>,
    allow_prerelease: bool,
    highest: bool,
    best_match: bool,
)
    requires
        all_ascending(maps1),
        all_ascending(maps2),
        maps1.len() == maps2.len(),
        forall|m: int, entry: VersionMapEntry|
            0 <= m < maps1.len() ==> #[trigger] offers(maps1[m], orders, allow_prerelease, entry)
                == offers(maps2[m], orders, allow_prerelease, entry),
    ensures
        chosen_candidate(maps1, name, orders, allow_prerelease, highest, best_match)
            == chosen_candidate(maps2, name, orders, allow_prerelease, highest, best_match),
{
    law_chosen_iff_eligible(maps1, name, orders, allow_prerelease, highest, best_match);
    law_chosen_iff_eligible(maps2, name, orders, allow_prerelease, highest, best_match);
    if chosen_candidate(maps1, name, orders, allow_prerelease, highest, best_match) is Some {
        let (m, k) = lemma_chosen_entry(
            maps1,
            name,
            orders,
            allow_prerelease,
            highest,
            best_match,
        );
        let k2 = lemma_counterpart(maps1, maps2, orders, allow_prerelease, m, k);
        assert(is_chosen(maps2, orders, allow_prerelease, highest, best_match, m, k2)) by {
            assert forall|m3: int, k3: int| #[trigger]
                is_eligible_entry(maps2, orders, allow_prerelease, m3, k3) implies !beats(
                maps2,
                highest,
                best_match,
                m3,
                k3,
                m,
                k2,
            ) by {
                let k4 = lemma_counterpart(maps2, maps1, orders, allow_prerelease, m3, k3);
                assert(!beats(maps1, highest, best_match, m3, k4, m, k));
            }
        }
        lemma_chosen_at(maps2, name, orders, allow_prerelease, highest, best_match, m, k2);
    } else if chosen_candidate(
        maps2,
        name,
        orders,
        allow_prerelease,
        highest,
        best_match,
    ) is Some {
        let (m, k) = lemma_chosen_entry(
            maps2,
            name,
            orders,
            allow_prerelease,
            highest,
            best_match,
        );
        let k1 = lemma_counterpart(maps2, maps1, orders, allow_prerelease, m, k);
    }
}

/// If two lists of version maps offer the same entries, an entry of one that can be a candidate has
/// its like in the other.
proof fn lemma_counterpart(
    maps1: Seq<VersionMap>,
    maps2: Seq<VersionMap>,
    orders: Set<u64>,
    allow_prerelease: bool,
    m: int,
    k: int,
) -> (k2: int)
    requires
        maps1.len() == maps2.len(),
        is_eligible_entry(maps1, orders, allow_prerelease, m, k),
        offers(maps1[m], orders, allow_prerelease, maps1[m]@[k]) == offers(
            maps2[m],
            orders,
            allow_prerelease,
            maps1[m]@[k],
        ),
    ensures
        is_eligible_entry(maps2, orders, allow_prerelease, m, k2),
        maps2[m]@[k2] == maps1[m]@[k],
{
    maps2[m]@.index_of(maps1[m]@[k])
}

} // verus!
