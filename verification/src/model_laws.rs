//! What the questions that are asked of versions, packages, environments and distributions mean, in
//! terms of what these hold.

use pubgrub::Ranges;
use vstd::prelude::*;
use vstd::std_specs::cmp::PartialEqSpec;
use vstd::std_specs::convert::FromSpec;
use crate::candidate::{Candidate, CandidateDist, VersionChoiceKind, VersionOrUrlRef};
use crate::distribution::{
    CompatibleDist, IncompatibleDist, IncompatibleSource, IncompatibleWheel, InstalledDist,
    PrioritizedDist,
};
use crate::environment::{ForkSet, MarkerTree, ResolverEnvironment};
use crate::exclusions::Exclusions;
use crate::first::{is_first_some, lemma_first_some_at, lemma_first_some_is_none};
use crate::installed::{InstalledPackage, InstalledPackages};
use crate::merge::is_before;
use crate::names::{IndexUrl, PackageName};
use crate::preferences::{Preference, Preferences};
use crate::range::range_orders;
use crate::selector::CandidateSelector;
use crate::strategy::{AllowPrerelease, IndexStrategy, PrereleaseStrategy, ResolutionStrategy};
use crate::version::Version;
use crate::version_map::{
    lemma_preferred_items, VersionMap, VersionMapDistHandle, VersionMapEntry,
};

verus! {

/// A version with a lower place comes before one with a higher place, never after it; of two
/// versions at one place the pre-release comes first; and no version comes before itself.
pub proof fn law_versions_are_ordered(a: &Version, b: &Version, before: bool)
    requires
        call_ensures(Version::is_before, (a, b), before),
    ensures
        a.order < b.order ==> before,
        b.order < a.order ==> !before,
        a.order == b.order ==> before == (a.prerelease && !b.prerelease),
{
}

/// Two package names are equal if and only if they read the same.
pub proof fn law_package_names_are_equal(a: &PackageName, b: &PackageName)
    ensures
        <PackageName as PartialEqSpec>::obeys_eq_spec(),
        a.eq_spec(b) <==> a.name@ == b.name@,
        a@ == a.name@,
{
}

/// Two index addresses are equal if and only if they read the same.
pub proof fn law_index_urls_are_equal(a: &IndexUrl, b: &IndexUrl)
    ensures
        <IndexUrl as PartialEqSpec>::obeys_eq_spec(),
        a.eq_spec(b) <==> a.url@ == b.url@,
        a@ == a.url@,
{
}

/// An environment includes exactly the markers that it lists.
pub proof fn law_environment_includes(
    env: &ResolverEnvironment,
    marker: &MarkerTree,
    included: bool,
)
    requires
        call_ensures(ResolverEnvironment::included_by_marker, (env, marker), included),
    ensures
        included <==> exists|i: int| 0 <= i < env.included@.len() && env.included@[i] == *marker,
{
}

/// A set of packages has a package in an environment if and only if one of its entries, at whatever
/// place, is for the package and under a marker that the environment lists.
pub proof fn law_fork_set_contains(
    set: &ForkSet,
    name: &PackageName,
    env: &ResolverEnvironment,
    contained: bool,
)
    requires
        call_ensures(ForkSet::contains, (set, name, env), contained),
    ensures
        contained <==> exists|i: int|
            0 <= i < set.entries@.len() && (#[trigger] set.entries@[i]).package.name@ == name.name@
                && env.included@.contains(set.entries@[i].marker),
{
    if exists|i: int|
        0 <= i < set.entries@.len() && (#[trigger] set.entries@[i]).package.name@ == name.name@
            && env.included@.contains(set.entries@[i].marker) {
        let i = choose|i: int|
            0 <= i < set.entries@.len() && (#[trigger] set.entries@[i]).package.name@ == name.name@
                && env.included@.contains(set.entries@[i].marker);
        assert(set.entries@[i].spec_applies(name@, *env));
    }
}

/// The first rule for a package, under a marker that the environment lists, decides whether its
/// pre-releases are allowed.
pub proof fn law_first_prerelease_rule_decides(
    strategy: &PrereleaseStrategy,
    name: &PackageName,
    env: &ResolverEnvironment,
    allow: AllowPrerelease,
    i: int,
)
    requires
        call_ensures(PrereleaseStrategy::allows, (strategy, name, env), allow),
        0 <= i < strategy.rules@.len(),
        strategy.rules@[i].subject.package.name@ == name.name@,
        env.included@.contains(strategy.rules@[i].subject.marker),
        forall|j: int|
            0 <= j < i ==> (#[trigger] strategy.rules@[j]).subject.package.name@ != name.name@
                || !env.included@.contains(strategy.rules@[j].subject.marker),
    ensures
        allow == strategy.rules@[i].allow,
{
    let verdicts = strategy.verdicts(name@, *env);
    assert forall|j: int| 0 <= j < i implies verdicts[j] is None by {
        assert(strategy.rules@[j].verdict(name@, *env) is None);
    }
    assert(strategy.rules@[i].verdict(name@, *env) is Some);
    assert(is_first_some(verdicts, i));
    lemma_first_some_at(verdicts, i);
}

/// Where no rule is for the package under a marker that the environment lists, the default holds.
pub proof fn law_default_prerelease_rule(
    strategy: &PrereleaseStrategy,
    name: &PackageName,
    env: &ResolverEnvironment,
    allow: AllowPrerelease,
)
    requires
        call_ensures(PrereleaseStrategy::allows, (strategy, name, env), allow),
        forall|j: int|
            0 <= j < strategy.rules@.len() ==> (
            #[trigger] strategy.rules@[j]).subject.package.name@ != name.name@
                || !env.included@.contains(strategy.rules@[j].subject.marker),
    ensures
        allow == strategy.default,
{
    let verdicts = strategy.verdicts(name@, *env);
    assert forall|j: int| 0 <= j < verdicts.len() implies verdicts[j] is None by {
        assert(strategy.rules@[j].verdict(name@, *env) is None);
    }
    lemma_first_some_is_none(verdicts);
}

/// The highest version is wanted of every package, of none, or of every package but the direct
/// dependencies: those for which some entry, at whatever place, has the name of the package and a
/// marker that the environment lists.
pub proof fn law_which_end_is_preferred(
    selector: &CandidateSelector,
    name: &PackageName,
    env: &ResolverEnvironment,
    highest: bool,
)
    requires
        call_ensures(CandidateSelector::use_highest_version, (selector, name, env), highest),
    ensures
        selector.resolution_strategy is Highest ==> highest,
        selector.resolution_strategy is Lowest ==> !highest,
        selector.resolution_strategy matches ResolutionStrategy::LowestDirect(direct) ==> (!highest
            <==> exists|i: int|
            0 <= i < direct.entries@.len() && (#[trigger] direct.entries@[i]).package.name@
                == name.name@ && env.included@.contains(direct.entries@[i].marker)),
{
    if let ResolutionStrategy::LowestDirect(direct) = selector.resolution_strategy {
        if exists|i: int|
            0 <= i < direct.entries@.len() && (#[trigger] direct.entries@[i]).package.name@
                == name.name@ && env.included@.contains(direct.entries@[i].marker) {
            let i = choose|i: int|
                0 <= i < direct.entries@.len() && (#[trigger] direct.entries@[i]).package.name@
                    == name.name@ && env.included@.contains(direct.entries@[i].marker);
            assert(direct.entries@[i].spec_applies(name@, *env));
        }
    }
}

/// A package is excluded if and only if its name is on the list.
pub proof fn law_exclusions_contain(exclusions: &Exclusions, name: &PackageName, contained: bool)
    requires
        call_ensures(Exclusions::contains, (exclusions, name), contained),
    ensures
        contained <==> exists|i: int|
            0 <= i < exclusions.packages@.len() && (#[trigger] exclusions.packages@[i]).name@
                == name.name@,
{
    if exists|i: int|
        0 <= i < exclusions.packages@.len() && (#[trigger] exclusions.packages@[i]).name@
            == name.name@ {
        let i = choose|i: int|
            0 <= i < exclusions.packages@.len() && (#[trigger] exclusions.packages@[i]).name@
                == name.name@;
        assert(exclusions.packages@[i]@ == name@);
    }
}

/// The installed distributions of a package are those of the entries with its name, all of them and
/// in their order.
pub proof fn law_installed_distributions<'a>(
    installed: &'a InstalledPackages,
    name: &PackageName,
    dists: Vec<&'a InstalledDist>,
)
    requires
        call_ensures(InstalledPackages::get_packages, (installed, name), dists),
    ensures
        dists@ == installed.packages@.filter(
            |package: InstalledPackage| package.name.name@ == name.name@,
        ).map_values(|package: InstalledPackage| &package.dist),
{
    assert((|package: InstalledPackage| package.name.name@ == name.name@) =~= (|
        package: InstalledPackage,
    | package.name@ == name@));
}

/// The preferences for a package are the entries with its name, all of them and in their order.
pub proof fn law_preferences_of_a_package<'a>(
    preferences: &'a Preferences,
    name: &PackageName,
    found: Vec<&'a Preference>,
)
    requires
        call_ensures(Preferences::get, (preferences, name), found),
    ensures
        found@ == preferences.preferences@.filter(
            |preference: Preference| preference.package.name@ == name.name@,
        ).map_values(|preference: Preference| &preference),
{
    assert((|preference: Preference| preference.package.name@ == name.name@) =~= (|
        preference: Preference,
    | preference.package@ == name@));
}

/// A preference is meant for an environment if it has no marker, or one that the environment lists.
pub proof fn law_preference_matches(
    preference: &Preference,
    env: &ResolverEnvironment,
    matches: bool,
)
    requires
        call_ensures(Preference::matches, (preference, env), matches),
    ensures
        preference.marker is None ==> matches,
        preference.marker matches Some(marker) ==> matches == env.included@.contains(marker),
{
}

/// A preference is from the index of a package if the package is mapped to none, or if it is the
/// index that the preference names. The marker and the version have no say in this.
pub proof fn law_preference_from_index(
    preference: &Preference,
    index: Option<&IndexUrl>,
    from_index: bool,
)
    requires
        call_ensures(Preference::from_index, (preference, index), from_index),
    ensures
        index is None ==> from_index,
        index matches Some(index) ==> (from_index <==> (preference.index matches Some(source)
            && source.url@ == index.url@)),
{
}

/// What is tried of a preference is its marker and its version.
pub proof fn law_preference_choice<'a>(
    preference: &'a Preference,
    choice: (Option<&'a MarkerTree>, &'a Version),
)
    requires
        call_ensures(Preference::choice, (preference,), choice),
    ensures
        *choice.1 == preference.version,
        choice.0 is Some <==> preference.marker is Some,
        choice.0 matches Some(marker) ==> preference.marker == Some(*marker),
{
}

/// A version has a usable distribution exactly if its files have a best one, and that is the one,
/// whatever stands beside it. If there is none, the reason is that of the source distribution;
/// failing that, that of the wheel; failing both, that there is no distribution.
pub proof fn law_distribution_of_the_files<'a>(files: &'a PrioritizedDist)
    ensures
        <CandidateDist<'a> as FromSpec<&'a PrioritizedDist>>::obeys_from_spec(),
        ({
            let dist = <CandidateDist<'a> as FromSpec<&'a PrioritizedDist>>::from_spec(files);
            &&& dist is Incompatible <==> files.best is None
            &&& files.best matches Some(best) ==> dist == CandidateDist::Compatible(
                CompatibleDist::RegistryDist(&best),
            )
            &&& files.best is None ==> (files.source matches Some(source) ==> dist
                == CandidateDist::Incompatible(IncompatibleDist::Source(source)))
            &&& files.best is None && files.source is None ==> (files.wheel matches Some(wheel)
                ==> dist == CandidateDist::Incompatible(IncompatibleDist::Wheel(wheel)))
            &&& files.best is None && files.source is None && files.wheel is None ==> dist
                == CandidateDist::Incompatible(IncompatibleDist::Unavailable)
        }),
{
}

/// The parts of the files of a version that the distribution is taken from.
pub proof fn law_parts_of_the_files<'a>(
    files: &'a PrioritizedDist,
    best: Option<CompatibleDist<'a>>,
    source: Option<&'a IncompatibleSource>,
    wheel: Option<&'a IncompatibleWheel>,
)
    requires
        call_ensures(PrioritizedDist::get, (files,), best),
        call_ensures(PrioritizedDist::incompatible_source, (files,), source),
        call_ensures(PrioritizedDist::incompatible_wheel, (files,), wheel),
    ensures
        best is Some <==> files.best is Some,
        files.best matches Some(dist) ==> best == Some(CompatibleDist::RegistryDist(&dist)),
        source is Some <==> files.source is Some,
        source matches Some(reason) ==> files.source == Some(*reason),
        wheel is Some <==> files.wheel is Some,
        wheel matches Some(reason) ==> files.wheel == Some(*reason),
{
}

/// Only a source distribution or a wheel can be left out for having been uploaded after the cutoff.
pub proof fn law_left_out_after_the_cutoff(dist: &CandidateDist, exclude_newer: bool)
    requires
        call_ensures(CandidateDist::is_exclude_newer, (dist,), exclude_newer),
    ensures
        dist is Compatible ==> !exclude_newer,
        dist matches CandidateDist::Incompatible(IncompatibleDist::Source(source))
            ==> exclude_newer == (source is ExcludeNewer),
        dist matches CandidateDist::Incompatible(IncompatibleDist::Wheel(wheel)) ==> exclude_newer
            == (wheel is ExcludeNewer),
        dist matches CandidateDist::Incompatible(IncompatibleDist::Unavailable) ==> !exclude_newer,
{
}

/// A candidate for the files of a version has the name, the version and the kind that it is made
/// with; it is usable if the files have a best distribution, and only then.
pub proof fn law_candidate_of_the_files<'a>(
    name: &'a PackageName,
    version: &'a Version,
    files: &'a PrioritizedDist,
    kind: VersionChoiceKind,
    candidate: Candidate<'a>,
    dist: Option<&CompatibleDist<'a>>,
)
    requires
        call_ensures(Candidate::new, (name, version, files, kind), candidate),
        call_ensures(Candidate::compatible, (&candidate,), dist),
    ensures
        candidate.name == name,
        candidate.version == version,
        candidate.choice_kind == kind,
        dist is Some <==> files.best is Some,
        files.best matches Some(best) ==> dist == Some(&CompatibleDist::RegistryDist(&best)),
        files.best is None ==> (files.source matches Some(source) ==> candidate.dist
            == CandidateDist::Incompatible(IncompatibleDist::Source(source))),
{
    law_distribution_of_the_files(files);
}

/// A candidate shows its name, version, distribution and kind as they are, and is told from other
/// releases by its version.
pub proof fn law_candidate_shows_itself<'a>(
    candidate: &Candidate<'a>,
    name: &'a PackageName,
    version: &'a Version,
    dist: &CandidateDist<'a>,
    choice_kind: VersionChoiceKind,
    version_or_url: VersionOrUrlRef<'a>,
)
    requires
        call_ensures(Candidate::name, (candidate,), name),
        call_ensures(Candidate::version, (candidate,), version),
        call_ensures(Candidate::dist, (candidate,), dist),
        call_ensures(Candidate::choice_kind, (candidate,), choice_kind),
        call_ensures(Candidate::version_or_url, (candidate,), version_or_url),
    ensures
        name == candidate.name,
        version == candidate.version,
        *dist == candidate.dist,
        choice_kind == candidate.choice_kind,
        version_or_url == VersionOrUrlRef::Version(candidate.version),
{
}

/// The kinds of choice read as three words, each its own.
pub proof fn law_choice_kinds_in_words(kind: &VersionChoiceKind, word: &'static str)
    requires
        call_ensures(VersionChoiceKind::as_str, (kind,), word),
    ensures
        kind is Preference ==> word@ == "preference"@,
        kind is Installed ==> word@ == "installed"@,
        kind is Compatible ==> word@ == "compatible"@,
{
}

/// A selector has the strategies that it is made with.
pub proof fn law_selector_keeps_its_strategies(
    resolution: ResolutionStrategy,
    prerelease: PrereleaseStrategy,
    index: IndexStrategy,
    selector: CandidateSelector,
    shown_resolution: &ResolutionStrategy,
    shown_prerelease: &PrereleaseStrategy,
    shown_index: &IndexStrategy,
)
    requires
        call_ensures(CandidateSelector::for_resolution, (resolution, prerelease, index), selector),
        call_ensures(CandidateSelector::resolution_strategy, (&selector,), shown_resolution),
        call_ensures(CandidateSelector::prerelease_strategy, (&selector,), shown_prerelease),
        call_ensures(CandidateSelector::index_strategy, (&selector,), shown_index),
    ensures
        selector == (CandidateSelector {
            resolution_strategy: resolution,
            prerelease_strategy: prerelease,
            index_strategy: index,
        }),
        *shown_resolution == resolution,
        *shown_prerelease == prerelease,
        *shown_index == index,
{
}

/// A handle gives the files of its entry, if the entry has any.
pub proof fn law_handle_gives_the_files<'a>(
    handle: &VersionMapDistHandle<'a>,
    files: Option<&'a PrioritizedDist>,
)
    requires
        call_ensures(VersionMapDistHandle::prioritized_dist, (handle,), files),
    ensures
        files is Some <==> *handle.dist is Some,
        files matches Some(files) ==> *handle.dist == Some(*files),
{
}

/// A version map is made of entries exactly if each version has a lower place than the next one, or
/// the same place and is the pre-release of the two; and it holds these entries.
pub proof fn law_version_map_of_entries(entries: Vec<VersionMapEntry>, map: Option<VersionMap>)
    requires
        call_ensures(VersionMap::from_entries, (entries,), map),
    ensures
        map is Some <==> forall|i: int, j: int|
            0 <= i < j < entries@.len() ==> {
                let a = (#[trigger] entries@[i]).version;
                let b = (#[trigger] entries@[j]).version;
                a.order < b.order || (a.order == b.order && a.prerelease && !b.prerelease)
            },
        map matches Some(map) ==> map@ == entries@ && map.wf(),
{
}

/// A version map gives the distributions of a version that it holds, and none of any other.
pub proof fn law_version_map_get<'a>(
    map: &'a VersionMap,
    version: &Version,
    dist: Option<&'a PrioritizedDist>,
)
    requires
        map.wf(),
        call_ensures(VersionMap::get, (map, version), dist),
    ensures
        forall|k: int|
            0 <= k < map@.len() && (#[trigger] map@[k]).version == *version ==> map@[k].dist
                == match dist {
                Some(dist) => Some(*dist),
                None => None,
            },
        (forall|k: int| 0 <= k < map@.len() ==> (#[trigger] map@[k]).version != *version)
            ==> dist is None,
{
    assert forall|k: int|
        0 <= k < map@.len() && (#[trigger] map@[k]).version == *version implies map@[k].dist
        == match dist {
        Some(dist) => Some(*dist),
        None => None,
    } by {
        let found = choose|k: int|
            0 <= k < map@.len() && (#[trigger] map@[k]).version == *version;
        if found < k {
            assert(map@[found].version.precedes(map@[k].version));
        } else if k < found {
            assert(map@[k].version.precedes(map@[found].version));
        }
    }
}

/// A version map has a stable version if and only if one of its entries is no pre-release.
pub proof fn law_version_map_stable(map: &VersionMap, stable: bool)
    requires
        call_ensures(VersionMap::stable, (map,), stable),
    ensures
        stable <==> exists|k: int|
            0 <= k < map@.len() && !(#[trigger] map@[k]).version.prerelease,
{
}

/// Walking over a version map gives the entries that the range admits, all of them and in their
/// order.
pub proof fn law_version_map_iter<'a>(
    map: &'a VersionMap,
    range: &Ranges<u64>,
    items: Vec<(&'a Version, VersionMapDistHandle<'a>)>,
)
    requires
        call_ensures(VersionMap::iter, (map, range), items),
    ensures
        items@ == map@.filter(
            |entry: VersionMapEntry| range_orders(*range).contains(entry.version.order),
        ).map_values(
            |entry: VersionMapEntry| (&entry.version, VersionMapDistHandle { dist: &entry.dist }),
        ),
{
    assert((|entry: VersionMapEntry|
        (&entry.version, VersionMapDistHandle { dist: &entry.dist })) =~= (|entry: VersionMapEntry|
        entry.item()));
}

/// Walking over a version map from the preferred end gives places that go down where the highest
/// version is wanted, and up where the lowest is.
pub proof fn law_version_map_iter_preferred<'a>(
    map: &'a VersionMap,
    range: &Ranges<u64>,
    highest: bool,
    items: Vec<(&'a Version, VersionMapDistHandle<'a>)>,
)
    requires
        map.wf(),
        call_ensures(VersionMap::iter_preferred, (map, range, highest), items),
    ensures
        forall|i: int, j: int|
            0 <= i < j < items@.len() ==> if highest {
                (*(#[trigger] items@[j]).0).order <= (*(#[trigger] items@[i]).0).order
            } else {
                (*items@[i].0).order <= (*items@[j].0).order
            },
        forall|i: int|
            0 <= i < items@.len() ==> exists|k: int|
                0 <= k < map@.len() && (#[trigger] map@[k]).version == *(#[trigger] items@[i]).0
                    && map@[k].dist == *items@[i].1.dist,
        forall|k: int|
            0 <= k < map@.len() && range_orders(*range).contains(
                (#[trigger] map@[k]).version.order,
            ) ==> items@.contains(
                (&map@[k].version, VersionMapDistHandle { dist: &map@[k].dist }),
            ),
{
    lemma_preferred_items(map, range_orders(*range), highest);
    assert forall|i: int, j: int| 0 <= i < j < items@.len() implies if highest {
        (*(#[trigger] items@[j]).0).order <= (*(#[trigger] items@[i]).0).order
    } else {
        (*items@[i].0).order <= (*items@[j].0).order
    } by {
        assert((*items@[i].0).preferred_to(*items@[j].0, highest));
    }
    assert forall|i: int| 0 <= i < items@.len() implies exists|k: int|
        0 <= k < map@.len() && (#[trigger] map@[k]).version == *(#[trigger] items@[i]).0
            && map@[k].dist == *items@[i].1.dist by {
        assert(map.has_item(items@[i]));
        let k = choose|k: int| 0 <= k < map@.len() && items@[i] == (#[trigger] map@[k]).item();
        assert(map@[k].version == *items@[i].0);
    }
}

/// When the versions of several indexes are merged, the one with the higher place goes first where
/// the highest version is wanted, the one with the lower place where the lowest is; at one place a
/// pre-release counts as the lower version; and the same version goes by the place of its index.
pub proof fn law_merging_order<'a>(
    a: &(usize, (&'a Version, VersionMapDistHandle<'a>)),
    b: &(usize, (&'a Version, VersionMapDistHandle<'a>)),
    highest: bool,
    before: bool,
)
    requires
        call_ensures(is_before, (a, b, highest), before),
    ensures
        (*a.1.0).order < (*b.1.0).order ==> before == !highest,
        (*a.1.0).order > (*b.1.0).order ==> before == highest,
        (*a.1.0).order == (*b.1.0).order && (*a.1.0).prerelease && !(*b.1.0).prerelease ==> before
            == !highest,
        (*a.1.0).order == (*b.1.0).order && !(*a.1.0).prerelease && (*b.1.0).prerelease ==> before
            == highest,
        *a.1.0 == *b.1.0 ==> before == (a.0 < b.0),
{
}

} // verus!
