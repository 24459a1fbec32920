use candidate_selector::candidate::{Candidate, CandidateDist, VersionChoiceKind};
use candidate_selector::distribution::{
    CompatibleDist, IncompatibleDist, IncompatibleSource, InstalledDist, PrioritizedDist,
    RegistryDist,
};
use candidate_selector::environment::{ForkEntry, ForkSet, MarkerTree, ResolverEnvironment};
use candidate_selector::exclusions::Exclusions;
use candidate_selector::installed::{InstalledPackage, InstalledPackages};
use candidate_selector::names::{IndexUrl, PackageName};
use candidate_selector::preferences::{Preference, Preferences};
use candidate_selector::selector::CandidateSelector;
use candidate_selector::strategy::{
    AllowPrerelease, IndexStrategy, PrereleaseStrategy, ResolutionStrategy,
};
use candidate_selector::version::Version;
use candidate_selector::version_map::{VersionMap, VersionMapDistHandle, VersionMapEntry};
use pubgrub::Ranges;

const FORK: MarkerTree = MarkerTree { id: 1 };
const SIBLING: MarkerTree = MarkerTree { id: 2 };

fn flask() -> PackageName {
    PackageName { name: "flask".to_string() }
}

fn version(order: u64) -> Version {
    Version { order, prerelease: false }
}

fn prerelease(order: u64) -> Version {
    Version { order, prerelease: true }
}

fn entry(version: Version, best: Option<u64>, source: Option<IncompatibleSource>) -> VersionMapEntry {
    VersionMapEntry {
        version,
        dist: Some(PrioritizedDist { best: best.map(|id| RegistryDist { id }), source, wheel: None }),
    }
}

fn usable(order: u64, id: u64) -> VersionMapEntry {
    entry(version(order), Some(id), None)
}

fn unusable(order: u64, reason: u64) -> VersionMapEntry {
    entry(version(order), None, Some(IncompatibleSource::Other(reason)))
}

fn too_new(order: u64) -> VersionMapEntry {
    entry(version(order), None, Some(IncompatibleSource::ExcludeNewer(Some(99))))
}

fn map(entries: Vec<VersionMapEntry>) -> VersionMap {
    VersionMap::from_entries(entries).unwrap()
}

fn here() -> ResolverEnvironment {
    ResolverEnvironment { included: vec![FORK] }
}

fn selector(highest: bool, allow: AllowPrerelease, index: IndexStrategy) -> CandidateSelector {
    CandidateSelector::for_resolution(
        if highest { ResolutionStrategy::Highest } else { ResolutionStrategy::Lowest },
        PrereleaseStrategy { rules: vec![], default: allow },
        index,
    )
}

fn best_match(highest: bool) -> CandidateSelector {
    selector(highest, AllowPrerelease::IfNecessary, IndexStrategy::UnsafeBestMatch)
}

fn first_index(highest: bool) -> CandidateSelector {
    selector(highest, AllowPrerelease::IfNecessary, IndexStrategy::FirstIndex)
}

fn installed(dists: Vec<(u64, Version)>) -> InstalledPackages {
    InstalledPackages {
        packages: dists
            .into_iter()
            .map(|(id, version)| InstalledPackage {
                name: flask(),
                dist: InstalledDist { id, version },
            })
            .collect(),
    }
}

fn prefer(marker: Option<MarkerTree>, index: Option<&str>, version: Version) -> Preference {
    Preference {
        package: flask(),
        marker,
        index: index.map(|url| IndexUrl { url: url.to_string() }),
        version,
    }
}

fn excluded(is_excluded: bool) -> Exclusions {
    Exclusions { packages: if is_excluded { vec![flask()] } else { vec![] } }
}

/// The place of the version, and the number of the distribution or of the reason that there is none.
fn summary(candidate: &Candidate<'_>) -> (u64, Result<u64, u64>) {
    let dist = match candidate.dist() {
        CandidateDist::Compatible(CompatibleDist::RegistryDist(dist)) => Ok(dist.id),
        CandidateDist::Compatible(CompatibleDist::InstalledDist(dist)) => Ok(dist.id),
        CandidateDist::Incompatible(IncompatibleDist::Source(IncompatibleSource::Other(reason))) => {
            Err(*reason)
        }
        _ => panic!("a distribution that the tests do not use"),
    };
    (candidate.version().order, dist)
}

fn no_preference(
    selector: &CandidateSelector,
    range: &Ranges<u64>,
    maps: &[VersionMap],
) -> Option<(u64, Result<u64, u64>)> {
    let name = flask();
    let candidate = selector.select_no_preference(&name, range, maps, &here())?;
    assert_eq!(candidate.name(), &name);
    assert_eq!(candidate.choice_kind(), VersionChoiceKind::Compatible);
    Some(summary(&candidate))
}

fn selected(
    selector: &CandidateSelector,
    range: &Ranges<u64>,
    maps: &[VersionMap],
    preferences: Vec<Preference>,
    installed: InstalledPackages,
    is_excluded: bool,
    index: Option<&str>,
) -> Option<(VersionChoiceKind, u64, Result<u64, u64>)> {
    let name = flask();
    let preferences = Preferences { preferences };
    let index = index.map(|url| IndexUrl { url: url.to_string() });
    let candidate = selector.select(
        &name,
        range,
        maps,
        &preferences,
        &installed,
        &excluded(is_excluded),
        index.as_ref(),
        &here(),
    )?;
    let (order, dist) = summary(&candidate);
    Some((candidate.choice_kind(), order, dist))
}

fn pick(
    entries: &[VersionMapEntry],
    range: &Ranges<u64>,
    allow_prerelease: bool,
) -> Option<(u64, Result<u64, u64>)> {
    let name = flask();
    let items: Vec<(&Version, VersionMapDistHandle<'_>)> =
        entries.iter().map(|e| (&e.version, VersionMapDistHandle { dist: &e.dist })).collect();
    CandidateSelector::select_candidate(&items, &name, range, allow_prerelease)
        .map(|candidate| summary(&candidate))
}

#[test]
fn selector_keeps_its_strategies() {
    let selector = selector(false, AllowPrerelease::No, IndexStrategy::UnsafeFirstMatch);
    assert!(matches!(selector.resolution_strategy(), ResolutionStrategy::Lowest));
    assert_eq!(selector.prerelease_strategy().default, AllowPrerelease::No);
    assert_eq!(selector.index_strategy(), &IndexStrategy::UnsafeFirstMatch);
}

#[test]
fn first_usable_item_is_selected() {
    assert_eq!(pick(&[usable(5, 1), usable(4, 2)], &Ranges::full(), false), Some((5, Ok(1))));
    assert_eq!(pick(&[], &Ranges::full(), false), None);
}

#[test]
fn items_outside_the_range_are_passed_over() {
    let items = [usable(5, 1), usable(4, 2), usable(3, 3)];
    assert_eq!(pick(&items, &Ranges::strictly_lower_than(5u64), false), Some((4, Ok(2))));
    assert_eq!(pick(&items, &Ranges::singleton(3u64), false), Some((3, Ok(3))));
    assert_eq!(pick(&items, &Ranges::singleton(9u64), false), None);
    assert_eq!(pick(&items, &Ranges::empty(), false), None);
}

#[test]
fn prerelease_items_are_passed_over_unless_allowed() {
    let items = [entry(prerelease(5), Some(1), None), usable(4, 2)];
    assert_eq!(pick(&items, &Ranges::full(), false), Some((4, Ok(2))));
    assert_eq!(pick(&items, &Ranges::full(), true), Some((5, Ok(1))));
}

#[test]
fn items_without_distributions_are_passed_over() {
    let items = [VersionMapEntry { version: version(5), dist: None }, usable(4, 2)];
    assert_eq!(pick(&items, &Ranges::full(), false), Some((4, Ok(2))));
}

#[test]
fn items_after_the_cutoff_are_passed_over() {
    assert_eq!(pick(&[too_new(5), usable(4, 2)], &Ranges::full(), false), Some((4, Ok(2))));
    assert_eq!(pick(&[too_new(5)], &Ranges::full(), false), None);
}

#[test]
fn incompatible_item_gives_way_to_the_same_version_only() {
    assert_eq!(pick(&[unusable(5, 7), usable(4, 2)], &Ranges::full(), false), Some((5, Err(7))));
    assert_eq!(pick(&[unusable(5, 7)], &Ranges::full(), false), Some((5, Err(7))));
    let items = [unusable(5, 7), unusable(5, 8), usable(5, 3), usable(4, 2)];
    assert_eq!(pick(&items, &Ranges::full(), false), Some((5, Ok(3))));
    let items = [unusable(5, 7), too_new(5), unusable(5, 8), usable(4, 2), usable(5, 3)];
    assert_eq!(pick(&items, &Ranges::full(), false), Some((5, Err(7))));
}

#[test]
fn highest_or_lowest_version() {
    let maps = [map(vec![usable(1, 1), usable(2, 2), usable(3, 3)])];
    assert_eq!(no_preference(&first_index(true), &Ranges::full(), &maps), Some((3, Ok(3))));
    assert_eq!(no_preference(&first_index(false), &Ranges::full(), &maps), Some((1, Ok(1))));
    let range = Ranges::strictly_lower_than(3u64);
    assert_eq!(no_preference(&first_index(true), &range, &maps), Some((2, Ok(2))));
    let range = Ranges::higher_than(2u64);
    assert_eq!(no_preference(&first_index(false), &range, &maps), Some((2, Ok(2))));
}

#[test]
fn lowest_version_of_direct_dependencies() {
    let direct = |package: PackageName, marker| {
        CandidateSelector::for_resolution(
            ResolutionStrategy::LowestDirect(ForkSet {
                entries: vec![ForkEntry { package, marker }],
            }),
            PrereleaseStrategy { rules: vec![], default: AllowPrerelease::IfNecessary },
            IndexStrategy::FirstIndex,
        )
    };
    let numpy = PackageName { name: "numpy".to_string() };
    assert!(!direct(flask(), FORK).use_highest_version(&flask(), &here()));
    assert!(direct(flask(), SIBLING).use_highest_version(&flask(), &here()));
    assert!(direct(numpy, FORK).use_highest_version(&flask(), &here()));
    assert!(first_index(true).use_highest_version(&flask(), &here()));
    assert!(!first_index(false).use_highest_version(&flask(), &here()));
}

#[test]
fn first_index_with_a_match_wins() {
    let maps = [map(vec![]), map(vec![usable(1, 1), unusable(2, 9)]), map(vec![usable(3, 3)])];
    assert_eq!(no_preference(&first_index(true), &Ranges::full(), &maps), Some((2, Err(9))));
    assert_eq!(no_preference(&first_index(false), &Ranges::full(), &maps), Some((1, Ok(1))));
    let range = Ranges::higher_than(3u64);
    assert_eq!(no_preference(&first_index(true), &range, &maps), Some((3, Ok(3))));
    let range = Ranges::higher_than(4u64);
    assert_eq!(no_preference(&first_index(true), &range, &maps), None);
}

#[test]
fn best_match_merges_the_indexes() {
    let maps = [
        map(vec![usable(2, 12), usable(5, 15)]),
        map(vec![usable(1, 21), usable(6, 26)]),
        map(vec![usable(3, 33), usable(4, 34)]),
    ];
    let highest = best_match(true);
    let lowest = best_match(false);
    for (bound, found) in [(6, (6, Ok(26))), (5, (5, Ok(15))), (4, (4, Ok(34))), (2, (2, Ok(12)))] {
        let range = Ranges::lower_than(bound as u64);
        assert_eq!(no_preference(&highest, &range, &maps), Some(found));
    }
    for (bound, found) in [(1, (1, Ok(21))), (2, (2, Ok(12))), (3, (3, Ok(33))), (6, (6, Ok(26)))] {
        let range = Ranges::higher_than(bound as u64);
        assert_eq!(no_preference(&lowest, &range, &maps), Some(found));
    }
    assert_eq!(no_preference(&highest, &Ranges::empty(), &maps), None);
    assert_eq!(no_preference(&highest, &Ranges::full(), &[]), None);
}

#[test]
fn best_match_takes_a_compatible_file_of_the_version() {
    let maps = [
        map(vec![usable(1, 1), unusable(3, 8)]),
        map(vec![usable(3, 2)]),
        map(vec![usable(3, 4)]),
    ];
    assert_eq!(no_preference(&best_match(true), &Ranges::full(), &maps), Some((3, Ok(2))));
    assert_eq!(no_preference(&first_index(true), &Ranges::full(), &maps), Some((3, Err(8))));
    let maps = [map(vec![usable(1, 1), unusable(3, 8)]), map(vec![unusable(3, 9)])];
    assert_eq!(no_preference(&best_match(true), &Ranges::full(), &maps), Some((3, Err(8))));
}

#[test]
fn one_index_leaves_no_choice_of_strategy() {
    let maps = [map(vec![usable(1, 1), too_new(2), unusable(3, 8), too_new(4)])];
    for highest in [true, false] {
        assert_eq!(
            no_preference(&best_match(highest), &Ranges::full(), &maps),
            no_preference(&first_index(highest), &Ranges::full(), &maps)
        );
    }
    assert_eq!(no_preference(&best_match(true), &Ranges::full(), &maps), Some((3, Err(8))));
}

#[test]
fn entries_that_cannot_be_candidates_do_not_count() {
    let full = [map(vec![usable(1, 1), too_new(2), usable(3, 3), too_new(4)])];
    let thin = [map(vec![usable(1, 1), usable(3, 3)])];
    for selector in [best_match(true), best_match(false), first_index(true), first_index(false)] {
        assert_eq!(
            no_preference(&selector, &Ranges::full(), &full),
            no_preference(&selector, &Ranges::full(), &thin)
        );
    }
}

#[test]
fn prereleases_if_necessary() {
    let pre = || map(vec![entry(prerelease(1), Some(1), None), entry(prerelease(2), Some(2), None)]);
    let full = Ranges::full();
    let necessary = first_index(true);
    assert_eq!(no_preference(&necessary, &full, &[pre()]), Some((2, Ok(2))));
    let maps = [pre(), map(vec![usable(0, 5)])];
    assert_eq!(no_preference(&necessary, &full, &maps), Some((0, Ok(5))));
    // A stable version counts even where the range does not admit it.
    assert_eq!(no_preference(&necessary, &Ranges::higher_than(1u64), &maps), None);
    let never = selector(true, AllowPrerelease::No, IndexStrategy::FirstIndex);
    assert_eq!(no_preference(&never, &full, &[pre()]), None);
    let always = selector(true, AllowPrerelease::Yes, IndexStrategy::FirstIndex);
    assert_eq!(no_preference(&always, &full, &maps), Some((2, Ok(2))));
}

#[test]
fn installed_version_is_kept() {
    let maps = [map(vec![usable(1, 1), usable(3, 3)])];
    let select = |range, installed, is_excluded| {
        selected(&first_index(true), &range, &maps, vec![], installed, is_excluded, None)
    };
    let kept = Some((VersionChoiceKind::Installed, 1, Ok(77)));
    let remote = Some((VersionChoiceKind::Compatible, 3, Ok(3)));
    assert_eq!(select(Ranges::full(), installed(vec![(77, version(1))]), false), kept);
    assert_eq!(select(Ranges::full(), installed(vec![(77, version(1))]), true), remote);
    assert_eq!(select(Ranges::higher_than(2u64), installed(vec![(77, version(1))]), false), remote);
    let twice = installed(vec![(77, version(1)), (78, version(2))]);
    assert_eq!(select(Ranges::full(), twice, false), remote);
    assert_eq!(select(Ranges::full(), installed(vec![]), false), remote);
    assert_eq!(select(Ranges::singleton(9u64), installed(vec![]), false), None);
}

#[test]
fn installed_lookup_on_its_own() {
    let name = flask();
    let packages = installed(vec![(77, prerelease(4))]);
    let candidate = CandidateSelector::get_installed(&name, &Ranges::full(), &packages).unwrap();
    assert_eq!(summary(&candidate), (4, Ok(77)));
    assert_eq!(candidate.choice_kind(), VersionChoiceKind::Installed);
    assert!(CandidateSelector::get_installed(&name, &Ranges::empty(), &packages).is_none());
}

#[test]
fn preference_comes_first() {
    let maps = [map(vec![usable(1, 1), usable(2, 2)]), map(vec![usable(2, 9), usable(3, 3)])];
    let select = |range, preferences, installed, is_excluded| {
        selected(&first_index(true), &range, &maps, preferences, installed, is_excluded, None)
    };
    let nothing = || installed(vec![]);
    let preferred = |order, id| Some((VersionChoiceKind::Preference, order, Ok(id)));
    assert_eq!(
        select(Ranges::full(), vec![prefer(None, None, version(1))], nothing(), false),
        preferred(1, 1)
    );
    // The first index that has the version is taken.
    assert_eq!(
        select(Ranges::full(), vec![prefer(None, None, version(2))], nothing(), false),
        preferred(2, 2)
    );
    assert_eq!(
        select(Ranges::full(), vec![prefer(None, None, version(3))], nothing(), false),
        preferred(3, 3)
    );
    // A preference that the range does not admit, or that no index has, is passed over.
    let preferences =
        || vec![prefer(None, None, version(1)), prefer(None, None, version(8)), prefer(None, None, version(3))];
    assert_eq!(select(Ranges::higher_than(2u64), preferences(), nothing(), false), preferred(3, 3));
    assert_eq!(
        select(Ranges::singleton(2u64), preferences(), nothing(), false),
        Some((VersionChoiceKind::Compatible, 2, Ok(2)))
    );
    // Another version that is installed does not matter; the same version is taken from there.
    let old = || installed(vec![(77, version(1))]);
    assert_eq!(
        select(Ranges::full(), vec![prefer(None, None, version(2))], old(), false),
        preferred(2, 2)
    );
    assert_eq!(
        select(Ranges::full(), vec![prefer(None, None, version(1))], old(), false),
        preferred(1, 77)
    );
    assert_eq!(
        select(Ranges::full(), vec![prefer(None, None, version(1))], old(), true),
        preferred(1, 1)
    );
    let twice = installed(vec![(77, version(1)), (78, version(1))]);
    assert_eq!(
        select(Ranges::full(), vec![prefer(None, None, version(1))], twice, false),
        preferred(1, 1)
    );
}

#[test]
fn preference_for_the_fork_comes_before_others() {
    let maps = [map(vec![usable(1, 1), usable(2, 2), usable(3, 3)])];
    let select = |range, preferences| {
        selected(&first_index(true), &range, &maps, preferences, installed(vec![]), false, None)
            .map(|found| (found.0, found.1))
    };
    let preferences = || {
        vec![
            prefer(Some(SIBLING), None, version(1)),
            prefer(Some(FORK), None, version(2)),
            prefer(None, None, version(3)),
        ]
    };
    let preferred = |order| Some((VersionChoiceKind::Preference, order));
    assert_eq!(select(Ranges::full(), preferences()), preferred(2));
    assert_eq!(select(Ranges::singleton(2u64).complement(), preferences()), preferred(3));
    assert_eq!(select(Ranges::lower_than(1u64), preferences()), preferred(1));
}

#[test]
fn preference_from_another_index_is_not_used() {
    let maps = [map(vec![usable(1, 1), usable(2, 2), usable(3, 3)])];
    let select = |index| {
        let preferences = vec![
            prefer(None, None, version(1)),
            prefer(None, Some("https://pypi.org/simple"), version(2)),
        ];
        selected(&first_index(true), &Ranges::full(), &maps, preferences, installed(vec![]), false, index)
            .map(|found| (found.0, found.1))
    };
    assert_eq!(select(None), Some((VersionChoiceKind::Preference, 1)));
    assert_eq!(select(Some("https://pypi.org/simple")), Some((VersionChoiceKind::Preference, 2)));
    assert_eq!(select(Some("https://example.org")), Some((VersionChoiceKind::Compatible, 3)));
}

#[test]
fn preferred_prereleases() {
    let maps = [map(vec![usable(1, 1), entry(prerelease(2), Some(2), None)])];
    let select = |allow, marker, installed| {
        let selector = selector(true, allow, IndexStrategy::FirstIndex);
        let preferences = vec![prefer(marker, None, prerelease(2))];
        selected(&selector, &Ranges::full(), &maps, preferences, installed, false, None).unwrap()
    };
    let nothing = || installed(vec![]);
    let preferred = (VersionChoiceKind::Preference, 2, Ok(2));
    let other = (VersionChoiceKind::Compatible, 1, Ok(1));
    assert_eq!(select(AllowPrerelease::Yes, Some(FORK), nothing()), preferred);
    assert_eq!(select(AllowPrerelease::IfNecessary, None, nothing()), preferred);
    assert_eq!(select(AllowPrerelease::IfNecessary, Some(FORK), nothing()), other);
    assert_eq!(select(AllowPrerelease::No, None, nothing()), other);
    // One that is installed already is kept even so.
    assert_eq!(
        select(AllowPrerelease::No, Some(FORK), installed(vec![(77, prerelease(2))])),
        (VersionChoiceKind::Preference, 2, Ok(77))
    );
}

#[test]
fn preferred_lookup_on_its_own() {
    let name = flask();
    let maps = [map(vec![usable(1, 1), usable(2, 2)])];
    let packages = installed(vec![]);
    let one = version(1);
    let two = version(2);
    let choices = vec![(None, &two), (Some(&FORK), &one)];
    let found = |range| {
        first_index(true)
            .get_preferred_from_iter(&choices, &name, &range, &maps, &packages, false, &here())
            .map(|candidate| summary(&candidate))
    };
    assert_eq!(found(Ranges::full()), Some((2, Ok(2))));
    assert_eq!(found(Ranges::singleton(1u64)), Some((1, Ok(1))));
    assert_eq!(found(Ranges::singleton(3u64)), None);
    let preferences = Preferences { preferences: vec![prefer(None, None, version(1))] };
    let candidate = first_index(true)
        .get_preferred(&name, &Ranges::full(), &maps, &preferences, &packages, false, None, &here())
        .unwrap();
    assert_eq!(summary(&candidate), (1, Ok(1)));
    assert_eq!(candidate.choice_kind(), VersionChoiceKind::Preference);
}

#[test]
fn locking_again_gives_the_same_version() {
    let maps = [
        map(vec![usable(1, 1), unusable(3, 8)]),
        map(vec![entry(prerelease(2), Some(5), None), usable(3, 2)]),
    ];
    for selector in [best_match(true), best_match(false), first_index(true), first_index(false)] {
        for range in [Ranges::full(), Ranges::higher_than(2u64), Ranges::lower_than(2u64)] {
            let first =
                selected(&selector, &range, &maps, vec![], installed(vec![]), false, None).unwrap();
            let again = vec![
                prefer(Some(SIBLING), None, version(1)),
                prefer(Some(FORK), None, version(first.1)),
                prefer(None, None, version(3)),
            ];
            let second =
                selected(&selector, &range, &maps, again, installed(vec![]), false, None).unwrap();
            assert_eq!((second.0, second.1), (VersionChoiceKind::Preference, first.1));
        }
    }
}

#[test]
fn nothing_to_select() {
    let maps = [map(vec![too_new(1)])];
    let preferences = vec![prefer(None, None, version(4))];
    let packages = installed(vec![(77, version(9))]);
    let range = Ranges::lower_than(5u64);
    assert_eq!(selected(&best_match(true), &range, &maps, preferences, packages, false, None), None);
}
