//! What is chosen from the versions that the indexes have, in terms of the entries of the version
//! maps, the strategies and the range.

use pubgrub::Ranges;
use vstd::prelude::*;
use vstd::std_specs::convert::FromSpec;
use crate::candidate::{Candidate, CandidateDist};
use crate::distribution::{CompatibleDist, IncompatibleDist};
use crate::environment::ResolverEnvironment;
use crate::index_choice::is_eligible_entry;
use crate::index_laws::{law_chosen_iff_eligible, lemma_chosen_entry};
use crate::model_laws::{law_distribution_of_the_files, law_which_end_is_preferred};
use crate::names::PackageName;
use crate::range::range_orders;
use crate::selection::{
    is_first_eligible, is_selected, is_selected_from, is_usable_from, item_eligible,
    lemma_selected_item_at, same_version,
};
use crate::selector::{any_stable, CandidateSelector};
use crate::strategy::{AllowPrerelease, PrereleaseStrategy, ResolutionStrategy};
use crate::version::Version;
use crate::version_map::{VersionMap, VersionMapDistHandle};

verus! {

/// An entry can be a candidate if its version is in the range, it has files that were not left out
/// after the cutoff, and it is no pre-release or pre-releases are allowed.
proof fn lemma_entry_is_eligible(
    selector: &CandidateSelector,
    name: &PackageName,
    orders: Set<u64>,
    maps: Seq<VersionMap>,
    env: &ResolverEnvironment,
    allow: AllowPrerelease,
    m: int,
    k: int,
)
    requires
        call_ensures(
            PrereleaseStrategy::allows,
            (&selector.prerelease_strategy, name, env),
            allow,
        ),
        0 <= m < maps.len(),
        0 <= k < maps[m]@.len(),
        orders.contains(maps[m]@[k].version.order),
        maps[m]@[k].dist matches Some(files) && (files.best is Some || (
        files.source matches Some(source) && !(source is ExcludeNewer)) || (files.source is None
            && (files.wheel matches Some(wheel) ==> !(wheel is ExcludeNewer)))),
        maps[m]@[k].version.prerelease ==> allow is Yes || (allow is IfNecessary && forall|
            m2: int,
            k2: int,
        |
            0 <= m2 < maps.len() && 0 <= k2 < maps[m2]@.len() ==> (
            #[trigger] maps[m2]@[k2]).version.prerelease),
    ensures
        is_eligible_entry(
            maps,
            orders,
            selector.spec_allow_prerelease(name@, maps, *env),
            m,
            k,
        ),
{
    if maps[m]@[k].version.prerelease && allow is IfNecessary {
        if any_stable(maps) {
            let m2 = choose|m2: int| 0 <= m2 < maps.len() && (#[trigger] maps[m2]).spec_stable();
            let k2 = choose|k2: int|
                0 <= k2 < maps[m2]@.len() && !(#[trigger] maps[m2]@[k2]).version.prerelease;
            assert(maps[m2]@[k2].version.prerelease);
        }
    }
}

/// A candidate from the indexes is for one of their entries: it has the version of the entry, which
/// the range admits, and the distribution of its files, which were not left out after the cutoff.
/// It has the name that was asked for.
pub proof fn law_candidate_is_for_an_entry<'a>(
    selector: &CandidateSelector,
    name: &'a PackageName,
    range: &Ranges<u64>,
    maps: &'a [VersionMap],
    env: &ResolverEnvironment,
    result: Option<Candidate<'a>>,
)
    requires
        call_ensures(
            CandidateSelector::select_no_preference,
            (selector, name, range, maps, env),
            result,
        ),
    ensures
        result matches Some(candidate) ==> {
            &&& candidate.name == name
            &&& candidate.choice_kind is Compatible
            &&& range_orders(*range).contains(candidate.version.order)
            &&& candidate.dist matches CandidateDist::Incompatible(
                IncompatibleDist::Source(source),
            ) ==> !(source is ExcludeNewer)
            &&& candidate.dist matches CandidateDist::Incompatible(IncompatibleDist::Wheel(wheel))
                ==> !(wheel is ExcludeNewer)
            &&& exists|m: int, k: int|
                0 <= m < maps@.len() && 0 <= k < maps@[m]@.len() && (
                #[trigger] maps@[m]@[k]).version == *candidate.version && (
                maps@[m]@[k].dist matches Some(files) && candidate.dist
                    == CandidateDist::from_spec(&files))
        },
{
    let orders = range_orders(*range);
    let allow_prerelease = selector.spec_allow_prerelease(name@, maps@, *env);
    let highest = selector.spec_use_highest_version(name@, *env);
    let best_match = selector.index_strategy is UnsafeBestMatch;
    if result is Some {
        let (m, k) = lemma_chosen_entry(
            maps@,
            name,
            orders,
            allow_prerelease,
            highest,
            best_match,
        );
        assert(maps@[m]@[k].version == *result->0.version);
    }
}

/// Where pre-releases are not allowed, or are allowed only if necessary and some index has a stable
/// version, whichever index and version that is, the candidate from the indexes is no pre-release.
pub proof fn law_no_needless_prerelease<'a>(
    selector: &CandidateSelector,
    name: &'a PackageName,
    range: &Ranges<u64>,
    maps: &'a [VersionMap],
    env: &ResolverEnvironment,
    allow: AllowPrerelease,
    result: Option<Candidate<'a>>,
)
    requires
        call_ensures(
            PrereleaseStrategy::allows,
            (&selector.prerelease_strategy, name, env),
            allow,
        ),
        call_ensures(
            CandidateSelector::select_no_preference,
            (selector, name, range, maps, env),
            result,
        ),
        allow is No || (allow is IfNecessary && exists|m: int, k: int|
            0 <= m < maps@.len() && 0 <= k < maps@[m]@.len() && !(
            #[trigger] maps@[m]@[k]).version.prerelease),
    ensures
        result matches Some(candidate) ==> !candidate.version.prerelease,
{
    if allow is IfNecessary {
        let (m, k) = choose|m: int, k: int|
            0 <= m < maps@.len() && 0 <= k < maps@[m]@.len() && !(
            #[trigger] maps@[m]@[k]).version.prerelease;
        assert(maps@[m].spec_stable());
    }
    if result is Some {
        let place = lemma_chosen_entry(
            maps@,
            name,
            range_orders(*range),
            selector.spec_allow_prerelease(name@, maps@, *env),
            selector.spec_use_highest_version(name@, *env),
            selector.index_strategy is UnsafeBestMatch,
        );
    }
}

/// If some entry can be a candidate, there is one, whatever the strategies are. A pre-release can
/// be one where pre-releases are allowed, and where they are allowed if necessary and every version
/// on every index is a pre-release.
pub proof fn law_some_candidate<'a>(
    selector: &CandidateSelector,
    name: &'a PackageName,
    range: &Ranges<u64>,
    maps: &'a [VersionMap],
    env: &ResolverEnvironment,
    allow: AllowPrerelease,
    result: Option<Candidate<'a>>,
    m: int,
    k: int,
)
    requires
        call_ensures(
            PrereleaseStrategy::allows,
            (&selector.prerelease_strategy, name, env),
            allow,
        ),
        call_ensures(
            CandidateSelector::select_no_preference,
            (selector, name, range, maps, env),
            result,
        ),
        0 <= m < maps@.len(),
        0 <= k < maps@[m]@.len(),
        range_orders(*range).contains(maps@[m]@[k].version.order),
        maps@[m]@[k].dist matches Some(files) && (files.best is Some || (
        files.source matches Some(source) && !(source is ExcludeNewer)) || (files.source is None
            && (files.wheel matches Some(wheel) ==> !(wheel is ExcludeNewer)))),
        maps@[m]@[k].version.prerelease ==> allow is Yes || (allow is IfNecessary && forall|
            m2: int,
            k2: int,
        |
            0 <= m2 < maps@.len() && 0 <= k2 < maps@[m2]@.len() ==> (
            #[trigger] maps@[m2]@[k2]).version.prerelease),
    ensures
        result is Some,
{
    lemma_entry_is_eligible(selector, name, range_orders(*range), maps@, env, allow, m, k);
    law_chosen_iff_eligible(
        maps@,
        name,
        range_orders(*range),
        selector.spec_allow_prerelease(name@, maps@, *env),
        selector.spec_use_highest_version(name@, *env),
        selector.index_strategy is UnsafeBestMatch,
    );
}

/// Under every index strategy but best match, an index that has an entry that can be a candidate is
/// not passed by for a later one: the candidate is for an entry of this index or of an earlier one,
/// and if it is of this one, no such entry of it lies nearer to the preferred end.
pub proof fn law_no_later_index<'a>(
    selector: &CandidateSelector,
    name: &'a PackageName,
    range: &Ranges<u64>,
    maps: &'a [VersionMap],
    env: &ResolverEnvironment,
    allow: AllowPrerelease,
    highest: bool,
    result: Option<Candidate<'a>>,
    m: int,
    k: int,
)
    requires
        !(selector.index_strategy is UnsafeBestMatch),
        call_ensures(
            PrereleaseStrategy::allows,
            (&selector.prerelease_strategy, name, env),
            allow,
        ),
        call_ensures(CandidateSelector::use_highest_version, (selector, name, env), highest),
        call_ensures(
            CandidateSelector::select_no_preference,
            (selector, name, range, maps, env),
            result,
        ),
        0 <= m < maps@.len(),
        0 <= k < maps@[m]@.len(),
        range_orders(*range).contains(maps@[m]@[k].version.order),
        maps@[m]@[k].dist matches Some(files) && (files.best is Some || (
        files.source matches Some(source) && !(source is ExcludeNewer)) || (files.source is None
            && (files.wheel matches Some(wheel) ==> !(wheel is ExcludeNewer)))),
        maps@[m]@[k].version.prerelease ==> allow is Yes || (allow is IfNecessary && forall|
            m2: int,
            k2: int,
        |
            0 <= m2 < maps@.len() && 0 <= k2 < maps@[m2]@.len() ==> (
            #[trigger] maps@[m2]@[k2]).version.prerelease),
    ensures
        result matches Some(candidate) && exists|m2: int, k2: int|
            0 <= m2 <= m && 0 <= k2 < maps@[m2]@.len() && (#[trigger] maps@[m2]@[k2]).version
                == *candidate.version && (maps@[m2]@[k2].dist matches Some(files)
                && candidate.dist == CandidateDist::from_spec(&files)) && (m2 == m ==> if highest {
                maps@[m]@[k].version.order <= candidate.version.order
            } else {
                candidate.version.order <= maps@[m]@[k].version.order
            }),
{
    let orders = range_orders(*range);
    let allow_prerelease = selector.spec_allow_prerelease(name@, maps@, *env);
    lemma_entry_is_eligible(selector, name, orders, maps@, env, allow, m, k);
    law_chosen_iff_eligible(maps@, name, orders, allow_prerelease, highest, false);
    let (m2, k2) = lemma_chosen_entry(maps@, name, orders, allow_prerelease, highest, false);
    assert(maps@[m2]@[k2].version == *result->0.version);
}

/// Under every index strategy but best match, if an index has an entry that can be a candidate and
/// no earlier index has one, the candidate is for an entry of this index, and none of it that can
/// be a candidate lies nearer to the preferred end.
pub proof fn law_first_index_with_a_candidate<'a>(
    selector: &CandidateSelector,
    name: &'a PackageName,
    range: &Ranges<u64>,
    maps: &'a [VersionMap],
    env: &ResolverEnvironment,
    allow: AllowPrerelease,
    highest: bool,
    result: Option<Candidate<'a>>,
    m: int,
    k: int,
)
    requires
        !(selector.index_strategy is UnsafeBestMatch),
        call_ensures(
            PrereleaseStrategy::allows,
            (&selector.prerelease_strategy, name, env),
            allow,
        ),
        call_ensures(CandidateSelector::use_highest_version, (selector, name, env), highest),
        call_ensures(
            CandidateSelector::select_no_preference,
            (selector, name, range, maps, env),
            result,
        ),
        0 <= m < maps@.len(),
        0 <= k < maps@[m]@.len(),
        range_orders(*range).contains(maps@[m]@[k].version.order),
        maps@[m]@[k].dist matches Some(files) && (files.best is Some || (
        files.source matches Some(source) && !(source is ExcludeNewer)) || (files.source is None
            && (files.wheel matches Some(wheel) ==> !(wheel is ExcludeNewer)))),
        maps@[m]@[k].version.prerelease ==> allow is Yes || (allow is IfNecessary && forall|
            m2: int,
            k2: int,
        |
            0 <= m2 < maps@.len() && 0 <= k2 < maps@[m2]@.len() ==> (
            #[trigger] maps@[m2]@[k2]).version.prerelease),
        // No entry of an earlier index can be a candidate.
        forall|m2: int, k2: int|
            0 <= m2 < m && 0 <= k2 < maps@[m2]@.len() ==> {
                let entry = #[trigger] maps@[m2]@[k2];
                ||| !range_orders(*range).contains(entry.version.order)
                ||| entry.version.prerelease && allow is No
                ||| entry.version.prerelease && allow is IfNecessary && exists|m3: int, k3: int|
                    0 <= m3 < maps@.len() && 0 <= k3 < maps@[m3]@.len() && !(
                    #[trigger] maps@[m3]@[k3]).version.prerelease
                ||| entry.dist is None
                ||| entry.dist matches Some(files) && files.best is None && (
                files.source matches Some(source) && source is ExcludeNewer)
                ||| entry.dist matches Some(files) && files.best is None && files.source is None
                    && (files.wheel matches Some(wheel) && wheel is ExcludeNewer)
            },
    ensures
        result matches Some(candidate) && exists|k2: int|
            0 <= k2 < maps@[m]@.len() && (#[trigger] maps@[m]@[k2]).version == *candidate.version
                && (maps@[m]@[k2].dist matches Some(files) && candidate.dist
                == CandidateDist::from_spec(&files)) && if highest {
                maps@[m]@[k].version.order <= candidate.version.order
            } else {
                candidate.version.order <= maps@[m]@[k].version.order
            },
{
    law_no_later_index(selector, name, range, maps, env, allow, highest, result, m, k);
    law_candidate_is_for_an_entry(selector, name, range, maps, env, result);
    let candidate = result->0;
    let (m2, k2) = choose|m2: int, k2: int|
        0 <= m2 <= m && 0 <= k2 < maps@[m2]@.len() && (#[trigger] maps@[m2]@[k2]).version
            == *candidate.version && (maps@[m2]@[k2].dist matches Some(files) && candidate.dist
            == CandidateDist::from_spec(&files)) && (m2 == m ==> if highest {
            maps@[m]@[k].version.order <= candidate.version.order
        } else {
            candidate.version.order <= maps@[m]@[k].version.order
        });
    law_distribution_of_the_files(&maps@[m2]@[k2].dist->0);
    if m2 < m {
        if candidate.version.prerelease && !(allow is Yes) {
            law_no_needless_prerelease(selector, name, range, maps, env, allow, result);
        }
        assert(false);
    }
}

/// First index and first match are one: two selectors that differ only in which of them they name
/// choose alike.
pub proof fn law_first_strategies_agree<'a>(
    selector1: &CandidateSelector,
    selector2: &CandidateSelector,
    name: &'a PackageName,
    range: &Ranges<u64>,
    maps: &'a [VersionMap],
    env: &ResolverEnvironment,
    result1: Option<Candidate<'a>>,
    result2: Option<Candidate<'a>>,
)
    requires
        selector1.index_strategy is FirstIndex,
        selector2.index_strategy is UnsafeFirstMatch,
        selector1.resolution_strategy == selector2.resolution_strategy,
        selector1.prerelease_strategy == selector2.prerelease_strategy,
        call_ensures(
            CandidateSelector::select_no_preference,
            (selector1, name, range, maps, env),
            result1,
        ),
        call_ensures(
            CandidateSelector::select_no_preference,
            (selector2, name, range, maps, env),
            result2,
        ),
    ensures
        result1 == result2,
{
}

/// Under best match, no entry that can be a candidate, on whichever index, lies nearer to the
/// preferred end than the candidate; at one place, a pre-release counts as the lower version. If
/// the candidate is of the same version as a usable entry, it is usable itself, and not from a
/// later index; if it is not usable, no entry of its version is, and it is not from a later index
/// than any of them.
pub proof fn law_best_of_all_indexes<'a>(
    selector: &CandidateSelector,
    name: &'a PackageName,
    range: &Ranges<u64>,
    maps: &'a [VersionMap],
    env: &ResolverEnvironment,
    allow: AllowPrerelease,
    highest: bool,
    result: Option<Candidate<'a>>,
    m: int,
    k: int,
)
    requires
        selector.index_strategy is UnsafeBestMatch,
        call_ensures(
            PrereleaseStrategy::allows,
            (&selector.prerelease_strategy, name, env),
            allow,
        ),
        call_ensures(CandidateSelector::use_highest_version, (selector, name, env), highest),
        call_ensures(
            CandidateSelector::select_no_preference,
            (selector, name, range, maps, env),
            result,
        ),
        0 <= m < maps@.len(),
        0 <= k < maps@[m]@.len(),
        range_orders(*range).contains(maps@[m]@[k].version.order),
        maps@[m]@[k].dist matches Some(files) && (files.best is Some || (
        files.source matches Some(source) && !(source is ExcludeNewer)) || (files.source is None
            && (files.wheel matches Some(wheel) ==> !(wheel is ExcludeNewer)))),
        maps@[m]@[k].version.prerelease ==> allow is Yes || (allow is IfNecessary && forall|
            m2: int,
            k2: int,
        |
            0 <= m2 < maps@.len() && 0 <= k2 < maps@[m2]@.len() ==> (
            #[trigger] maps@[m2]@[k2]).version.prerelease),
    ensures
        result matches Some(candidate) && {
            &&& if highest {
                maps@[m]@[k].version.order <= candidate.version.order
            } else {
                candidate.version.order <= maps@[m]@[k].version.order
            }
            &&& maps@[m]@[k].version.order == candidate.version.order
                && maps@[m]@[k].version.prerelease != candidate.version.prerelease
                ==> candidate.version.prerelease == !highest
            &&& maps@[m]@[k].version == *candidate.version && maps@[m]@[k].dist->0.best is Some
                ==> candidate.dist is Compatible
            &&& maps@[m]@[k].version == *candidate.version && (maps@[m]@[k].dist->0.best is Some
                || candidate.dist is Incompatible) ==> exists|m2: int, k2: int|
                0 <= m2 <= m && 0 <= k2 < maps@[m2]@.len() && (#[trigger] maps@[m2]@[k2]).version
                    == *candidate.version && (maps@[m2]@[k2].dist matches Some(files)
                    && candidate.dist == CandidateDist::from_spec(&files))
        },
{
    let orders = range_orders(*range);
    let allow_prerelease = selector.spec_allow_prerelease(name@, maps@, *env);
    lemma_entry_is_eligible(selector, name, orders, maps@, env, allow, m, k);
    law_chosen_iff_eligible(maps@, name, orders, allow_prerelease, highest, true);
    let (m2, k2) = lemma_chosen_entry(maps@, name, orders, allow_prerelease, highest, true);
    law_distribution_of_the_files(&maps@[m]@[k].dist->0);
    law_distribution_of_the_files(&maps@[m2]@[k2].dist->0);
    assert(maps@[m2]@[k2].version == *result->0.version);
}

/// A direct dependency, by whichever entry it is one, gets the lowest version that the index offers
/// where only the lowest versions of the direct dependencies are wanted; under best match, the
/// lowest that any index offers.
pub proof fn law_lowest_of_a_direct_dependency<'a>(
    selector: &CandidateSelector,
    name: &'a PackageName,
    range: &Ranges<u64>,
    maps: &'a [VersionMap],
    env: &ResolverEnvironment,
    allow: AllowPrerelease,
    highest: bool,
    result: Option<Candidate<'a>>,
    i: int,
    m: int,
    k: int,
)
    requires
        selector.resolution_strategy matches ResolutionStrategy::LowestDirect(direct) && 0 <= i
            < direct.entries@.len() && direct.entries@[i].package.name@ == name.name@
            && env.included@.contains(direct.entries@[i].marker),
        selector.index_strategy is UnsafeBestMatch || maps@.len() == 1,
        call_ensures(
            PrereleaseStrategy::allows,
            (&selector.prerelease_strategy, name, env),
            allow,
        ),
        call_ensures(CandidateSelector::use_highest_version, (selector, name, env), highest),
        call_ensures(
            CandidateSelector::select_no_preference,
            (selector, name, range, maps, env),
            result,
        ),
        0 <= m < maps@.len(),
        0 <= k < maps@[m]@.len(),
        range_orders(*range).contains(maps@[m]@[k].version.order),
        maps@[m]@[k].dist matches Some(files) && (files.best is Some || (
        files.source matches Some(source) && !(source is ExcludeNewer)) || (files.source is None
            && (files.wheel matches Some(wheel) ==> !(wheel is ExcludeNewer)))),
        maps@[m]@[k].version.prerelease ==> allow is Yes || (allow is IfNecessary && forall|
            m2: int,
            k2: int,
        |
            0 <= m2 < maps@.len() && 0 <= k2 < maps@[m2]@.len() ==> (
            #[trigger] maps@[m2]@[k2]).version.prerelease),
    ensures
        !highest,
        result matches Some(candidate) && candidate.version.order <= maps@[m]@[k].version.order,
{
    law_which_end_is_preferred(selector, name, env, highest);
    if selector.index_strategy is UnsafeBestMatch {
        law_best_of_all_indexes(selector, name, range, maps, env, allow, highest, result, m, k);
    } else {
        law_no_later_index(selector, name, range, maps, env, allow, highest, result, m, k);
    }
}

/// What is selected from a list is for one of its items: it has the version of the item, which the
/// range admits and which is a pre-release only if that is allowed, and the distribution of its
/// files, which were not left out after the cutoff. It has the name that was asked for.
pub proof fn law_selected_is_for_an_item<'a>(
    items: &Vec<(&'a Version, VersionMapDistHandle<'a>)>,
    name: &'a PackageName,
    range: &Ranges<u64>,
    allow_prerelease: bool,
    result: Option<Candidate<'a>>,
)
    requires
        call_ensures(
            CandidateSelector::select_candidate,
            (items, name, range, allow_prerelease),
            result,
        ),
    ensures
        result matches Some(candidate) ==> {
            &&& candidate.name == name
            &&& candidate.choice_kind is Compatible
            &&& range_orders(*range).contains(candidate.version.order)
            &&& candidate.version.prerelease ==> allow_prerelease
            &&& candidate.dist matches CandidateDist::Incompatible(
                IncompatibleDist::Source(source),
            ) ==> !(source is ExcludeNewer)
            &&& candidate.dist matches CandidateDist::Incompatible(IncompatibleDist::Wheel(wheel))
                ==> !(wheel is ExcludeNewer)
            &&& exists|k: int|
                0 <= k < items@.len() && *(#[trigger] items@[k]).0 == *candidate.version && (
                *items@[k].1.dist matches Some(files) && candidate.dist
                    == CandidateDist::from_spec(&files))
        },
{
    let orders = range_orders(*range);
    if result is Some {
        let k = choose|k: int| is_selected(items@, orders, allow_prerelease, k);
        let i = choose|i: int|
            {
                &&& #[trigger] is_first_eligible(items@, orders, allow_prerelease, i)
                &&& is_selected_from(items@, orders, allow_prerelease, i, k)
            };
        assert(item_eligible(items@[k], orders, allow_prerelease));
        assert(*items@[k].0 == *result->0.version);
    }
}

/// The first item that can be a candidate settles the version. The first usable item of that
/// version is selected, among those that follow without another version in between.
pub proof fn law_first_usable_item<'a>(
    items: &Vec<(&'a Version, VersionMapDistHandle<'a>)>,
    name: &'a PackageName,
    range: &Ranges<u64>,
    allow_prerelease: bool,
    result: Option<Candidate<'a>>,
    i: int,
    j: int,
)
    requires
        call_ensures(
            CandidateSelector::select_candidate,
            (items, name, range, allow_prerelease),
            result,
        ),
        0 <= i <= j < items@.len(),
        // The item at `i` can be a candidate.
        range_orders(*range).contains((*items@[i].0).order),
        (*items@[i].0).prerelease ==> allow_prerelease,
        *items@[i].1.dist matches Some(files) && (files.best is Some || (
        files.source matches Some(source) && !(source is ExcludeNewer)) || (files.source is None
            && (files.wheel matches Some(wheel) ==> !(wheel is ExcludeNewer)))),
        // No earlier item can.
        forall|l: int|
            0 <= l < i ==> {
                let item = #[trigger] items@[l];
                ||| !range_orders(*range).contains((*item.0).order)
                ||| (*item.0).prerelease && !allow_prerelease
                ||| *item.1.dist is None
                ||| *item.1.dist matches Some(files) && files.best is None && (
                files.source matches Some(source) && source is ExcludeNewer)
                ||| *item.1.dist matches Some(files) && files.best is None && files.source is None
                    && (files.wheel matches Some(wheel) && wheel is ExcludeNewer)
            },
        // The item at `j` is the first usable one from `i` on, all being of one version.
        forall|l: int| i <= l <= j ==> *(#[trigger] items@[l]).0 == *items@[i].0,
        *items@[j].1.dist matches Some(files) && files.best is Some,
        forall|l: int|
            i <= l < j ==> (*(#[trigger] items@[l]).1.dist matches Some(files)
                ==> files.best is None),
    ensures
        result matches Some(candidate) && *candidate.version == *items@[j].0 && candidate.dist
            == CandidateDist::Compatible(
            CompatibleDist::RegistryDist(&(*items@[j].1.dist)->0.best->0),
        ),
{
    let orders = range_orders(*range);
    assert(is_first_eligible(items@, orders, allow_prerelease, i));
    assert(is_usable_from(items@, orders, allow_prerelease, i, j));
    assert forall|l: int| l < j implies !#[trigger] is_usable_from(
        items@,
        orders,
        allow_prerelease,
        i,
        l,
    ) by {
        if i <= l {
            assert(*items@[l].1.dist matches Some(files) ==> files.best is None);
        }
    }
    assert(is_selected(items@, orders, allow_prerelease, j));
    lemma_selected_item_at(items@, name, orders, allow_prerelease, j);
}

/// If no item of the version that is settled is usable, as far as its items follow without another
/// version in between, the item that settled it is selected, with the reason why it is not usable.
pub proof fn law_first_item_if_none_is_usable<'a>(
    items: &Vec<(&'a Version, VersionMapDistHandle<'a>)>,
    name: &'a PackageName,
    range: &Ranges<u64>,
    allow_prerelease: bool,
    result: Option<Candidate<'a>>,
    i: int,
)
    requires
        call_ensures(
            CandidateSelector::select_candidate,
            (items, name, range, allow_prerelease),
            result,
        ),
        0 <= i < items@.len(),
        // The item at `i` can be a candidate.
        range_orders(*range).contains((*items@[i].0).order),
        (*items@[i].0).prerelease ==> allow_prerelease,
        *items@[i].1.dist matches Some(files) && (files.best is Some || (
        files.source matches Some(source) && !(source is ExcludeNewer)) || (files.source is None
            && (files.wheel matches Some(wheel) ==> !(wheel is ExcludeNewer)))),
        // No earlier item can.
        forall|l: int|
            0 <= l < i ==> {
                let item = #[trigger] items@[l];
                ||| !range_orders(*range).contains((*item.0).order)
                ||| (*item.0).prerelease && !allow_prerelease
                ||| *item.1.dist is None
                ||| *item.1.dist matches Some(files) && files.best is None && (
                files.source matches Some(source) && source is ExcludeNewer)
                ||| *item.1.dist matches Some(files) && files.best is None && files.source is None
                    && (files.wheel matches Some(wheel) && wheel is ExcludeNewer)
            },
        // Up to the next version, no item is usable.
        forall|j: int|
            i <= j < items@.len() && (*(#[trigger] items@[j]).1.dist matches Some(files)
                && files.best is Some) ==> exists|l: int|
                i <= l <= j && *(#[trigger] items@[l]).0 != *items@[i].0,
    ensures
        result matches Some(candidate) && *candidate.version == *items@[i].0 && candidate.dist
            == CandidateDist::from_spec(&(*items@[i].1.dist)->0)
            && candidate.dist is Incompatible,
{
    let orders = range_orders(*range);
    assert(is_first_eligible(items@, orders, allow_prerelease, i));
    assert forall|j: int| !#[trigger] is_usable_from(items@, orders, allow_prerelease, i, j) by {
        if is_usable_from(items@, orders, allow_prerelease, i, j) {
            assert(same_version(items@, i, j));
            assert(*items@[j].1.dist matches Some(files) && files.best is Some);
            let l = choose|l: int| i <= l <= j && *(#[trigger] items@[l]).0 != *items@[i].0;
            assert(*items@[l].0 == *items@[i].0);
        }
    }
    assert(is_selected(items@, orders, allow_prerelease, i));
    lemma_selected_item_at(items@, name, orders, allow_prerelease, i);
    law_distribution_of_the_files(&(*items@[i].1.dist)->0);
    if (*items@[i].1.dist)->0.best is Some {
        let l = choose|l: int| i <= l <= i && *(#[trigger] items@[l]).0 != *items@[i].0;
    }
}

} // verus!
