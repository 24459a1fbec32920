//! What is chosen from the preferences and from what is installed, and in which order the sources
//! of candidates are asked, in terms of the entries of the lists.

use pubgrub::Ranges;
use vstd::prelude::*;
use vstd::std_specs::convert::FromSpec;
use crate::candidate::{Candidate, CandidateDist};
use crate::distribution::CompatibleDist;
use crate::environment::{MarkerTree, ResolverEnvironment};
use crate::exclusions::Exclusions;
use crate::first::{first_some, is_first_some, lemma_first_some_is_none};
use crate::installed::{InstalledPackage, InstalledPackages};
use crate::names::{IndexUrl, PackageName};
use crate::preferences::{Preference, Preferences};
use crate::preferred::{
    preferences_half, preferred_candidate, preferred_candidates, preferred_choices, remote_dists,
};
use crate::range::range_orders;
use crate::selector::CandidateSelector;
use crate::strategy::{AllowPrerelease, PrereleaseStrategy};
use crate::version::Version;
use crate::version_map::VersionMap;

verus! {

/// If nothing is wanted, nothing is kept.
proof fn lemma_filter_none<T>(s: Seq<T>, wanted: spec_fn(T) -> bool)
    requires
        forall|j: int| 0 <= j < s.len() ==> !wanted(#[trigger] s[j]),
    ensures
        s.filter(wanted) == Seq::<T>::empty(),
    decreases s.len(),
{
    reveal(Seq::filter);
    if s.len() > 0 {
        lemma_filter_none(s.drop_last(), wanted);
    }
}

/// If one value is wanted, it alone is kept.
proof fn lemma_filter_one<T>(s: Seq<T>, wanted: spec_fn(T) -> bool, i: int)
    requires
        0 <= i < s.len(),
        wanted(s[i]),
        forall|j: int| 0 <= j < s.len() && j != i ==> !wanted(#[trigger] s[j]),
    ensures
        s.filter(wanted) == seq![s[i]],
    decreases s.len(),
{
    reveal(Seq::filter);
    if i == s.len() - 1 {
        lemma_filter_none(s.drop_last(), wanted);
    } else {
        lemma_filter_one(s.drop_last(), wanted, i);
    }
}

/// If two values are wanted, more than one is kept.
proof fn lemma_filter_two<T>(s: Seq<T>, wanted: spec_fn(T) -> bool, i: int, j: int)
    requires
        0 <= i < j < s.len(),
        wanted(s[i]),
        wanted(s[j]),
    ensures
        s.filter(wanted).len() >= 2,
    decreases s.len(),
{
    reveal(Seq::filter);
    if j == s.len() - 1 {
        s.drop_last().lemma_filter_contains(wanted, i);
    } else {
        lemma_filter_two(s.drop_last(), wanted, i, j);
    }
}

/// If one value is kept, it is the only one that is wanted.
proof fn lemma_filter_was_one<T>(s: Seq<T>, wanted: spec_fn(T) -> bool) -> (i: int)
    requires
        s.filter(wanted).len() == 1,
    ensures
        0 <= i < s.len(),
        wanted(s[i]),
        s.filter(wanted)[0] == s[i],
        forall|j: int| 0 <= j < s.len() && j != i ==> !wanted(#[trigger] s[j]),
{
    let kept = s.filter(wanted)[0];
    s.lemma_filter_contains_rev(wanted, kept);
    s.lemma_filter_pred(wanted, 0);
    let i = s.index_of(kept);
    assert forall|j: int| 0 <= j < s.len() && j != i implies !wanted(#[trigger] s[j]) by {
        if wanted(s[j]) {
            if i < j {
                lemma_filter_two(s, wanted, i, j);
            } else {
                lemma_filter_two(s, wanted, j, i);
            }
        }
    }
    i
}

/// The one entry of a package is what is installed of it.
proof fn lemma_installed_once(installed: &InstalledPackages, name: &PackageName, i: int)
    requires
        0 <= i < installed.packages@.len(),
        installed.packages@[i].name.name@ == name.name@,
        forall|j: int|
            0 <= j < installed.packages@.len() && j != i ==> (
            #[trigger] installed.packages@[j]).name.name@ != name.name@,
    ensures
        installed.spec_get_packages(name@) == seq![&installed.packages@[i].dist],
{
    let named = |package: InstalledPackage| package.name@ == name@;
    lemma_filter_one(installed.packages@, named, i);
    assert(installed.spec_get_packages(name@) =~= seq![&installed.packages@[i].dist]);
}

/// If something is installed of a package once, it is the one entry with its name.
proof fn lemma_was_installed_once(installed: &InstalledPackages, name: &PackageName) -> (i: int)
    requires
        installed.spec_get_packages(name@).len() == 1,
    ensures
        0 <= i < installed.packages@.len(),
        installed.packages@[i].name.name@ == name.name@,
        installed.spec_get_packages(name@)[0] == &installed.packages@[i].dist,
        forall|j: int|
            0 <= j < installed.packages@.len() && j != i ==> (
            #[trigger] installed.packages@[j]).name.name@ != name.name@,
{
    let named = |package: InstalledPackage| package.name@ == name@;
    let i = lemma_filter_was_one(installed.packages@, named);
    assert forall|j: int| 0 <= j < installed.packages@.len() && j != i implies (
    #[trigger] installed.packages@[j]).name.name@ != name.name@ by {
        assert(!named(installed.packages@[j]));
    }
    i
}

/// A package that is installed once, in a version that the range admits, is kept as it is.
pub proof fn law_installed_is_kept<'a>(
    name: &'a PackageName,
    range: &Ranges<u64>,
    installed: &'a InstalledPackages,
    result: Option<Candidate<'a>>,
    i: int,
)
    requires
        call_ensures(CandidateSelector::get_installed, (name, range, installed), result),
        0 <= i < installed.packages@.len(),
        installed.packages@[i].name.name@ == name.name@,
        forall|j: int|
            0 <= j < installed.packages@.len() && j != i ==> (
            #[trigger] installed.packages@[j]).name.name@ != name.name@,
        range_orders(*range).contains(installed.packages@[i].dist.version.order),
    ensures
        result matches Some(candidate) && candidate.name == name && *candidate.version
            == installed.packages@[i].dist.version && candidate.choice_kind is Installed
            && candidate.dist == CandidateDist::Compatible(
            CompatibleDist::InstalledDist(&installed.packages@[i].dist),
        ),
{
    lemma_installed_once(installed, name, i);
}

/// What is kept is installed, once, and in a version that the range admits.
pub proof fn law_kept_is_installed<'a>(
    name: &'a PackageName,
    range: &Ranges<u64>,
    installed: &'a InstalledPackages,
    result: Option<Candidate<'a>>,
)
    requires
        call_ensures(CandidateSelector::get_installed, (name, range, installed), result),
    ensures
        result matches Some(candidate) ==> range_orders(*range).contains(candidate.version.order)
            && exists|i: int|
            0 <= i < installed.packages@.len() && (#[trigger] installed.packages@[i]).name.name@
                == name.name@ && installed.packages@[i].dist.version == *candidate.version
                && candidate.dist == CandidateDist::Compatible(
                CompatibleDist::InstalledDist(&installed.packages@[i].dist),
            ) && forall|j: int|
                0 <= j < installed.packages@.len() && j != i ==> (
                #[trigger] installed.packages@[j]).name.name@ != name.name@,
{
    if result is Some {
        let i = lemma_was_installed_once(installed, name);
        assert(installed.packages@[i].name.name@ == name.name@);
    }
}

/// The version maps have files for a version if one of their entries is of the version and has
/// files; those of the first such map are taken.
proof fn lemma_remote(maps: Seq<VersionMap>, version: Version)
    requires
        forall|m: int| 0 <= m < maps.len() ==> (#[trigger] maps[m]).wf(),
    ensures
        (exists|m: int, k: int|
            0 <= m < maps.len() && 0 <= k < maps[m]@.len() && (#[trigger] maps[m]@[k]).version
                == version && maps[m]@[k].dist is Some) ==> first_some(
            remote_dists(maps, version),
        ) is Some,
        first_some(remote_dists(maps, version)) matches Some(dist) ==> exists|m: int, k: int|
            0 <= m < maps.len() && 0 <= k < maps[m]@.len() && (#[trigger] maps[m]@[k]).version
                == version && maps[m]@[k].dist == Some(*dist) && forall|m2: int, k2: int|
                0 <= m2 < m && 0 <= k2 < maps[m2]@.len() && (#[trigger] maps[m2]@[k2]).version
                    == version ==> maps[m2]@[k2].dist is None,
{
    let dists = remote_dists(maps, version);
    assert forall|m: int, k: int|
        0 <= m < maps.len() && 0 <= k < maps[m]@.len() && (#[trigger] maps[m]@[k]).version
            == version implies maps[m]@[k].dist == (match dists[m] {
        Some(dist) => Some(*dist),
        None => None,
    }) by {
        let map = maps[m];
        assert(map.wf());
        let found = choose|k: int| 0 <= k < map@.len() && (#[trigger] map@[k]).version == version;
        if found < k {
            assert(map@[found].version.precedes(map@[k].version));
        } else if k < found {
            assert(map@[k].version.precedes(map@[found].version));
        }
    }
    lemma_first_some_is_none(dists);
    if first_some(dists) is Some {
        let m = choose|m: int| is_first_some(dists, m);
        assert(dists[m] is Some);
        let map = maps[m];
        let k = choose|k: int| 0 <= k < map@.len() && (#[trigger] map@[k]).version == version;
        assert(maps[m]@[k].version == version);
        assert forall|m2: int, k2: int|
            0 <= m2 < m && 0 <= k2 < maps[m2]@.len() && (#[trigger] maps[m2]@[k2]).version
                == version implies maps[m2]@[k2].dist is None by {
            assert(dists[m2] is None);
        }
    }
}

/// A candidate from the preferred versions is of one of them, which the range admits. Either it is
/// what is installed, once and in that very version; or it is from the first index that has files
/// for the version, and if it is a pre-release, pre-releases are allowed, or they are allowed if
/// necessary and the version is preferred universally.
pub proof fn law_candidate_is_of_a_preferred_version<'a>(
    selector: &CandidateSelector,
    choices: &Vec<(Option<&'a MarkerTree>, &'a Version)>,
    name: &'a PackageName,
    range: &Ranges<u64>,
    maps: &'a [VersionMap],
    installed: &'a InstalledPackages,
    is_excluded: bool,
    env: &ResolverEnvironment,
    allow: AllowPrerelease,
    result: Option<Candidate<'a>>,
)
    requires
        forall|m: int| 0 <= m < maps@.len() ==> (#[trigger] maps@[m]).wf(),
        call_ensures(
            PrereleaseStrategy::allows,
            (&selector.prerelease_strategy, name, env),
            allow,
        ),
        call_ensures(
            CandidateSelector::get_preferred_from_iter,
            (selector, choices, name, range, maps, installed, is_excluded, env),
            result,
        ),
    ensures
        result matches Some(candidate) ==> {
            &&& candidate.name == name
            &&& candidate.choice_kind is Preference
            &&& range_orders(*range).contains(candidate.version.order)
            &&& exists|i: int|
                0 <= i < choices@.len() && *(#[trigger] choices@[i]).1 == *candidate.version && (
                candidate.dist matches CandidateDist::Compatible(CompatibleDist::InstalledDist(_))
                    || !candidate.version.prerelease || allow is Yes || (allow is IfNecessary
                    && choices@[i].0 is None))
            &&& candidate.dist matches CandidateDist::Compatible(
                CompatibleDist::InstalledDist(dist),
            ) ==> !is_excluded && dist.version == *candidate.version && exists|p: int|
                0 <= p < installed.packages@.len() && (
                #[trigger] installed.packages@[p]).name.name@ == name.name@
                    && installed.packages@[p].dist == *dist && forall|j: int|
                    0 <= j < installed.packages@.len() && j != p ==> (
                    #[trigger] installed.packages@[j]).name.name@ != name.name@
            &&& !(candidate.dist matches CandidateDist::Compatible(
                CompatibleDist::InstalledDist(_),
            )) ==> exists|m: int, k: int|
                0 <= m < maps@.len() && 0 <= k < maps@[m]@.len() && (
                #[trigger] maps@[m]@[k]).version == *candidate.version && (
                maps@[m]@[k].dist matches Some(files) && candidate.dist
                    == CandidateDist::from_spec(&files)) && forall|m2: int, k2: int|
                    0 <= m2 < m && 0 <= k2 < maps@[m2]@.len() && (
                    #[trigger] maps@[m2]@[k2]).version == *candidate.version
                        ==> maps@[m2]@[k2].dist is None
        },
{
    let orders = range_orders(*range);
    let dists = installed.spec_get_packages(name@);
    let candidates = preferred_candidates(
        choices@,
        name,
        orders,
        maps@,
        dists,
        is_excluded,
        allow,
    );
    if result is Some {
        let candidate = result->0;
        let i = choose|i: int| is_first_some(candidates, i);
        assert(result == preferred_candidate(
            choices@[i],
            name,
            orders,
            maps@,
            dists,
            is_excluded,
            allow,
        ));
        let version = *choices@[i].1;
        assert(*choices@[i].1 == *candidate.version);
        lemma_remote(maps@, version);
        if !is_excluded && dists.len() == 1 && dists[0].version == version {
            let p = lemma_was_installed_once(installed, name);
            assert(installed.packages@[p].dist == *dists[0]);
        } else {
            let files = first_some(remote_dists(maps@, version))->0;
            let (m, k) = choose|m: int, k: int|
                0 <= m < maps@.len() && 0 <= k < maps@[m]@.len() && (
                #[trigger] maps@[m]@[k]).version == version && maps@[m]@[k].dist == Some(*files)
                    && forall|m2: int, k2: int|
                    0 <= m2 < m && 0 <= k2 < maps@[m2]@.len() && (
                    #[trigger] maps@[m2]@[k2]).version == version ==> maps@[m2]@[k2].dist is None;
            assert(maps@[m]@[k].version == *candidate.version);
        }
    }
}

/// A preferred version is not passed over for a later one if the range admits it and it is to be
/// had: installed, once and in that very version, unless the package is excluded; or from an index,
/// if it is no pre-release, or pre-releases are allowed, or they are allowed if necessary and it is
/// preferred universally. What is installed goes before what the indexes have.
pub proof fn law_preferred_version_is_not_passed_over<'a>(
    selector: &CandidateSelector,
    choices: &Vec<(Option<&'a MarkerTree>, &'a Version)>,
    name: &'a PackageName,
    range: &Ranges<u64>,
    maps: &'a [VersionMap],
    installed: &'a InstalledPackages,
    is_excluded: bool,
    env: &ResolverEnvironment,
    allow: AllowPrerelease,
    result: Option<Candidate<'a>>,
    i: int,
)
    requires
        forall|m: int| 0 <= m < maps@.len() ==> (#[trigger] maps@[m]).wf(),
        call_ensures(
            PrereleaseStrategy::allows,
            (&selector.prerelease_strategy, name, env),
            allow,
        ),
        call_ensures(
            CandidateSelector::get_preferred_from_iter,
            (selector, choices, name, range, maps, installed, is_excluded, env),
            result,
        ),
        0 <= i < choices@.len(),
        range_orders(*range).contains((*choices@[i].1).order),
        (!is_excluded && exists|p: int|
            0 <= p < installed.packages@.len() && (#[trigger] installed.packages@[p]).name.name@
                == name.name@ && installed.packages@[p].dist.version == *choices@[i].1 && forall|
                j: int,
            |
                0 <= j < installed.packages@.len() && j != p ==> (
                #[trigger] installed.packages@[j]).name.name@ != name.name@) || (((
        *choices@[i].1).prerelease ==> allow is Yes || (allow is IfNecessary
            && choices@[i].0 is None)) && exists|m: int, k: int|
            0 <= m < maps@.len() && 0 <= k < maps@[m]@.len() && (#[trigger] maps@[m]@[k]).version
                == *choices@[i].1 && maps@[m]@[k].dist is Some),
    ensures
        result matches Some(candidate) && exists|i2: int|
            0 <= i2 <= i && *(#[trigger] choices@[i2]).1 == *candidate.version && (
            candidate.dist matches CandidateDist::Compatible(CompatibleDist::InstalledDist(_))
                || !candidate.version.prerelease || allow is Yes || (allow is IfNecessary
                && choices@[i2].0 is None)),
{
    let orders = range_orders(*range);
    let dists = installed.spec_get_packages(name@);
    let candidates = preferred_candidates(
        choices@,
        name,
        orders,
        maps@,
        dists,
        is_excluded,
        allow,
    );
    lemma_remote(maps@, *choices@[i].1);
    if !is_excluded && exists|p: int|
        0 <= p < installed.packages@.len() && (#[trigger] installed.packages@[p]).name.name@
            == name.name@ && installed.packages@[p].dist.version == *choices@[i].1 && forall|j: int|
            0 <= j < installed.packages@.len() && j != p ==> (
            #[trigger] installed.packages@[j]).name.name@ != name.name@ {
        let p = choose|p: int|
            0 <= p < installed.packages@.len() && (#[trigger] installed.packages@[p]).name.name@
                == name.name@ && installed.packages@[p].dist.version == *choices@[i].1 && forall|
                j: int,
            |
                0 <= j < installed.packages@.len() && j != p ==> (
                #[trigger] installed.packages@[j]).name.name@ != name.name@;
        lemma_installed_once(installed, name, p);
    }
    assert(candidates[i] == preferred_candidate(
        choices@[i],
        name,
        orders,
        maps@,
        dists,
        is_excluded,
        allow,
    ));
    assert(candidates[i] is Some);
    lemma_first_some_is_none(candidates);
    let i2 = choose|i2: int| is_first_some(candidates, i2);
    assert(i2 <= i);
    assert(result == preferred_candidate(
        choices@[i2],
        name,
        orders,
        maps@,
        dists,
        is_excluded,
        allow,
    ));
    assert(*choices@[i2].1 == *result->0.version);
}

/// If the version of the candidate from the preferred versions is installed, once, and the package
/// is not excluded, the candidate is what is installed.
pub proof fn law_preferred_version_from_what_is_installed<'a>(
    selector: &CandidateSelector,
    choices: &Vec<(Option<&'a MarkerTree>, &'a Version)>,
    name: &'a PackageName,
    range: &Ranges<u64>,
    maps: &'a [VersionMap],
    installed: &'a InstalledPackages,
    env: &ResolverEnvironment,
    result: Option<Candidate<'a>>,
    p: int,
)
    requires
        call_ensures(
            CandidateSelector::get_preferred_from_iter,
            (selector, choices, name, range, maps, installed, false, env),
            result,
        ),
        0 <= p < installed.packages@.len(),
        installed.packages@[p].name.name@ == name.name@,
        forall|j: int|
            0 <= j < installed.packages@.len() && j != p ==> (
            #[trigger] installed.packages@[j]).name.name@ != name.name@,
        result matches Some(candidate) && *candidate.version
            == installed.packages@[p].dist.version,
    ensures
        result->0.dist == CandidateDist::Compatible(
            CompatibleDist::InstalledDist(&installed.packages@[p].dist),
        ),
{
    let orders = range_orders(*range);
    let dists = installed.spec_get_packages(name@);
    let allow = selector.prerelease_strategy.spec_allows(name@, *env);
    lemma_installed_once(installed, name, p);
    let candidates = preferred_candidates(choices@, name, orders, maps@, dists, false, allow);
    let i = choose|i: int| is_first_some(candidates, i);
    assert(result == preferred_candidate(
        choices@[i],
        name,
        orders,
        maps@,
        dists,
        false,
        allow,
    ));
}

/// Filtering the preferences of a package is filtering all preferences.
proof fn lemma_half_of_all<'a>(
    preferences: &'a Preferences,
    name: &PackageName,
    index: Option<&'a IndexUrl>,
    env: ResolverEnvironment,
    matching: bool,
    both: spec_fn(Preference) -> bool,
)
    requires
        forall|p: Preference| #[trigger]
            both(p) == (p.package@ == name@ && p.spec_matches(env) == matching
                && p.spec_from_index(index)),
    ensures
        preferences_half(preferences.spec_get(name@), index, env, matching)
            == preferences.preferences@.filter(both).map_values(|p: Preference| &p),
{
    let named = |preference: Preference| preference.package@ == name@;
    let borrowed = |preference: Preference| &preference;
    let wanted = |preference: &'a Preference|
        preference.spec_matches(env) == matching && preference.spec_from_index(index);
    let all = preferences.preferences@;
    assert(preferences.spec_get(name@) == all.filter(named).map_values(borrowed));
    lemma_filter_twice(all, named, wanted, both);
    assert(preferences_half(preferences.spec_get(name@), index, env, matching)
        == preferences.spec_get(name@).filter(wanted));
}

/// Filtering twice is filtering by both conditions at once.
proof fn lemma_filter_twice<'a>(
    all: Seq<Preference>,
    named: spec_fn(Preference) -> bool,
    wanted: spec_fn(&'a Preference) -> bool,
    both: spec_fn(Preference) -> bool,
)
    requires
        forall|p: Preference| #[trigger] both(p) == (named(p) && wanted(&p)),
    ensures
        all.filter(named).map_values(|p: Preference| &p).filter(wanted) == all.filter(
            both,
        ).map_values(|p: Preference| &p),
    decreases all.len(),
{
    reveal(Seq::filter);
    let borrowed = |p: Preference| &p;
    if all.len() > 0 {
        let rest = all.drop_last();
        let last = all.last();
        lemma_filter_twice(rest, named, wanted, both);
        let before = rest.filter(named).map_values(borrowed);
        assert(both(last) == (named(last) && wanted(&last)));
        if named(last) {
            assert(all.filter(named).map_values(borrowed) =~= before.push(&last));
            assert(before.push(&last).drop_last() =~= before);
        }
        assert(rest.filter(both).push(last).map_values(borrowed) =~= rest.filter(both).map_values(
            borrowed,
        ).push(&last));
    } else {
        assert(all.filter(named).map_values(borrowed) =~= Seq::empty());
        assert(all.filter(both).map_values(borrowed) =~= Seq::empty());
    }
}

/// The preferences for a package that are tried are those from the index that it is mapped to, if
/// it is mapped to one: first, in their order, those without a marker or with one that the
/// environment lists, then, in their order, the others. No marker makes up for another index.
pub proof fn law_preferences_in_the_order_they_are_tried<'a>(
    selector: &CandidateSelector,
    name: &'a PackageName,
    range: &Ranges<u64>,
    maps: &'a [VersionMap],
    preferences: &'a Preferences,
    installed: &'a InstalledPackages,
    is_excluded: bool,
    index: Option<&'a IndexUrl>,
    env: &ResolverEnvironment,
    choices: &Vec<(Option<&'a MarkerTree>, &'a Version)>,
    result: Option<Candidate<'a>>,
    tried: Option<Candidate<'a>>,
)
    requires
        choices@ == preferences.preferences@.filter(
            |p: Preference|
                p.package.name@ == name.name@ && (p.marker matches Some(marker)
                    ==> env.included@.contains(marker)) && (index matches Some(url) ==> (
                p.index matches Some(source) && source.url@ == url.url@)),
        ).map_values(
            |p: Preference|
                (
                    match p.marker {
                        Some(marker) => Some(&marker),
                        None => None,
                    },
                    &p.version,
                ),
        ) + preferences.preferences@.filter(
            |p: Preference|
                p.package.name@ == name.name@ && (p.marker matches Some(marker)
                    && !env.included@.contains(marker)) && (index matches Some(url) ==> (
                p.index matches Some(source) && source.url@ == url.url@)),
        ).map_values(
            |p: Preference|
                (
                    match p.marker {
                        Some(marker) => Some(&marker),
                        None => None,
                    },
                    &p.version,
                ),
        ),
        call_ensures(
            CandidateSelector::get_preferred,
            (selector, name, range, maps, preferences, installed, is_excluded, index, env),
            result,
        ),
        call_ensures(
            CandidateSelector::get_preferred_from_iter,
            (selector, choices, name, range, maps, installed, is_excluded, env),
            tried,
        ),
    ensures
        result == tried,
{
    let all = preferences.preferences@;
    let matching = |p: Preference|
        p.package.name@ == name.name@ && (p.marker matches Some(marker) ==> env.included@.contains(
            marker,
        )) && (index matches Some(url) ==> (p.index matches Some(source) && source.url@
            == url.url@));
    let mismatching = |p: Preference|
        p.package.name@ == name.name@ && (p.marker matches Some(marker)
            && !env.included@.contains(marker)) && (index matches Some(url) ==> (
        p.index matches Some(source) && source.url@ == url.url@));
    let found = preferences.spec_get(name@);
    lemma_half_of_all(preferences, name, index, *env, true, matching);
    lemma_half_of_all(preferences, name, index, *env, false, mismatching);
    assert(choices@ =~= preferred_choices(found, index, *env));
}

/// A candidate from the preferences is of the version of a preference for the package. If the
/// package is mapped to an index, that preference names this index, whatever its marker is.
pub proof fn law_preference_names_the_index<'a>(
    selector: &CandidateSelector,
    name: &'a PackageName,
    range: &Ranges<u64>,
    maps: &'a [VersionMap],
    preferences: &'a Preferences,
    installed: &'a InstalledPackages,
    is_excluded: bool,
    index: Option<&'a IndexUrl>,
    env: &ResolverEnvironment,
    result: Option<Candidate<'a>>,
)
    requires
        call_ensures(
            CandidateSelector::get_preferred,
            (selector, name, range, maps, preferences, installed, is_excluded, index, env),
            result,
        ),
    ensures
        result matches Some(candidate) ==> candidate.name == name && candidate.choice_kind
            is Preference && range_orders(*range).contains(candidate.version.order) && exists|
            j: int,
        |
            0 <= j < preferences.preferences@.len() && (
            #[trigger] preferences.preferences@[j]).package.name@ == name.name@
                && preferences.preferences@[j].version == *candidate.version && (
            index matches Some(url) ==> (preferences.preferences@[j].index matches Some(source)
                && source.url@ == url.url@)),
{
    if result is Some {
        let orders = range_orders(*range);
        let all = preferences.preferences@;
        let found = preferences.spec_get(name@);
        let first = preferences_half(found, index, *env, true);
        let second = preferences_half(found, index, *env, false);
        let choices = preferred_choices(found, index, *env);
        let candidates = preferred_candidates(
            choices,
            name,
            orders,
            maps@,
            installed.spec_get_packages(name@),
            is_excluded,
            selector.prerelease_strategy.spec_allows(name@, *env),
        );
        let i = choose|i: int| is_first_some(candidates, i);
        let matching = i < first.len();
        let half = if matching {
            first
        } else {
            second
        };
        let at = if matching {
            i
        } else {
            i - first.len()
        };
        assert(choices[i] == half[at].spec_choice());
        let wanted = |p: &'a Preference|
            p.spec_matches(*env) == matching && p.spec_from_index(index);
        assert(half == found.filter(wanted));
        found.lemma_filter_contains_rev(wanted, half[at]);
        found.lemma_filter_pred(wanted, at);
        let named = |p: Preference| p.package@ == name@;
        let l = found.index_of(half[at]);
        assert(found[l] == &all.filter(named)[l]);
        all.lemma_filter_contains_rev(named, all.filter(named)[l]);
        all.lemma_filter_pred(named, l);
        let j = all.index_of(all.filter(named)[l]);
        assert(all[j].package.name@ == name.name@);
    }
}

/// A preference that is to be had and is meant for the environment is not passed over for one that
/// is not: the candidate is of the version of a preference for the package that has no marker, or
/// one that the environment lists.
pub proof fn law_preference_for_the_environment_goes_first<'a>(
    selector: &CandidateSelector,
    name: &'a PackageName,
    range: &Ranges<u64>,
    maps: &'a [VersionMap],
    preferences: &'a Preferences,
    installed: &'a InstalledPackages,
    is_excluded: bool,
    index: Option<&'a IndexUrl>,
    env: &ResolverEnvironment,
    allow: AllowPrerelease,
    result: Option<Candidate<'a>>,
    j: int,
)
    requires
        forall|m: int| 0 <= m < maps@.len() ==> (#[trigger] maps@[m]).wf(),
        call_ensures(
            PrereleaseStrategy::allows,
            (&selector.prerelease_strategy, name, env),
            allow,
        ),
        call_ensures(
            CandidateSelector::get_preferred,
            (selector, name, range, maps, preferences, installed, is_excluded, index, env),
            result,
        ),
        // The preference at `j` is for the package, the index and the environment.
        0 <= j < preferences.preferences@.len(),
        preferences.preferences@[j].package.name@ == name.name@,
        index matches Some(url) ==> (preferences.preferences@[j].index matches Some(source)
            && source.url@ == url.url@),
        preferences.preferences@[j].marker matches Some(marker) ==> env.included@.contains(marker),
        // It is to be had.
        range_orders(*range).contains(preferences.preferences@[j].version.order),
        preferences.preferences@[j].version.prerelease ==> allow is Yes || (allow is IfNecessary
            && preferences.preferences@[j].marker is None),
        exists|m: int, k: int|
            0 <= m < maps@.len() && 0 <= k < maps@[m]@.len() && (#[trigger] maps@[m]@[k]).version
                == preferences.preferences@[j].version && maps@[m]@[k].dist is Some,
    ensures
        result matches Some(candidate) && exists|j2: int|
            0 <= j2 < preferences.preferences@.len() && (
            #[trigger] preferences.preferences@[j2]).package.name@ == name.name@
                && preferences.preferences@[j2].version == *candidate.version && (
            preferences.preferences@[j2].marker matches Some(marker) ==> env.included@.contains(
                marker,
            )),
{
    let orders = range_orders(*range);
    let all = preferences.preferences@;
    let dists = installed.spec_get_packages(name@);
    let both = |p: Preference|
        p.package@ == name@ && p.spec_matches(*env) && p.spec_from_index(index);
    let found = preferences.spec_get(name@);
    let choices = preferred_choices(found, index, *env);
    let first = preferences_half(found, index, *env, true);
    lemma_half_of_all(preferences, name, index, *env, true, both);
    assert(first.len() == all.filter(both).len());
    assert forall|i: int| 0 <= i < first.len() implies choices[i] == (
    #[trigger] all.filter(both)[i]).spec_choice() by {
        assert(choices[i] == first[i].spec_choice());
    }
    let candidates = preferred_candidates(
        choices,
        name,
        orders,
        maps@,
        dists,
        is_excluded,
        allow,
    );
    assert(both(all[j]));
    all.lemma_filter_contains(both, j);
    let i = all.filter(both).index_of(all[j]);
    assert(all.filter(both)[i] == all[j]);
    assert(choices[i] == all[j].spec_choice());
    lemma_remote(maps@, all[j].version);
    assert(candidates[i] == preferred_candidate(
        choices[i],
        name,
        orders,
        maps@,
        dists,
        is_excluded,
        allow,
    ));
    assert(candidates[i] is Some);
    lemma_first_some_is_none(candidates);
    let i2 = choose|i2: int| is_first_some(candidates, i2);
    assert(i2 <= i);
    assert(candidates[i2] == preferred_candidate(
        choices[i2],
        name,
        orders,
        maps@,
        dists,
        is_excluded,
        allow,
    ));
    let preference = all.filter(both)[i2];
    all.lemma_filter_contains_rev(both, preference);
    all.lemma_filter_pred(both, i2);
    let j2 = all.index_of(preference);
    assert(all[j2].package.name@ == name.name@);
}

/// The preferences are asked first: if they give a candidate, it is selected. What is installed is
/// asked next, unless the package is on the list of exclusions. The indexes are asked last, and
/// what they give is then what is selected.
pub proof fn law_order_of_the_sources<'a>(
    selector: &CandidateSelector,
    name: &'a PackageName,
    range: &Ranges<u64>,
    maps: &'a [VersionMap],
    preferences: &'a Preferences,
    installed: &'a InstalledPackages,
    exclusions: &Exclusions,
    index: Option<&'a IndexUrl>,
    env: &ResolverEnvironment,
    is_excluded: bool,
    preferred: Option<Candidate<'a>>,
    kept: Option<Candidate<'a>>,
    offered: Option<Candidate<'a>>,
    result: Option<Candidate<'a>>,
)
    requires
        is_excluded <==> exists|i: int|
            0 <= i < exclusions.packages@.len() && (#[trigger] exclusions.packages@[i]).name@
                == name.name@,
        call_ensures(
            CandidateSelector::get_preferred,
            (selector, name, range, maps, preferences, installed, is_excluded, index, env),
            preferred,
        ),
        call_ensures(CandidateSelector::get_installed, (name, range, installed), kept),
        call_ensures(
            CandidateSelector::select_no_preference,
            (selector, name, range, maps, env),
            offered,
        ),
        call_ensures(
            CandidateSelector::select,
            (selector, name, range, maps, preferences, installed, exclusions, index, env),
            result,
        ),
    ensures
        preferred is Some ==> result == preferred,
        preferred is None && !is_excluded && kept is Some ==> result == kept,
        preferred is None && (is_excluded || kept is None) ==> result == offered,
{
    if is_excluded {
        let i = choose|i: int|
            0 <= i < exclusions.packages@.len() && (#[trigger] exclusions.packages@[i]).name@
                == name.name@;
        assert(exclusions.packages@[i]@ == name@);
    }
}

} // verus!
