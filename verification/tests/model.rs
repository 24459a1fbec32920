use candidate_selector::candidate::{
    Candidate, CandidateDist, VersionChoiceKind, VersionOrUrlRef,
};
use candidate_selector::distribution::{
    CompatibleDist, IncompatibleDist, IncompatibleSource, IncompatibleWheel, InstalledDist,
    PrioritizedDist, RegistryDist,
};
use candidate_selector::environment::{ForkEntry, ForkSet, MarkerTree, ResolverEnvironment};
use candidate_selector::exclusions::Exclusions;
use candidate_selector::installed::{InstalledPackage, InstalledPackages};
use candidate_selector::merge::is_before;
use candidate_selector::names::{IndexUrl, PackageName};
use candidate_selector::preferences::{Preference, Preferences};
use candidate_selector::strategy::{AllowPrerelease, PrereleaseRule, PrereleaseStrategy};
use candidate_selector::version::Version;
use candidate_selector::version_map::{VersionMap, VersionMapDistHandle, VersionMapEntry};
use pubgrub::Ranges;

fn package(name: &str) -> PackageName {
    PackageName { name: name.to_string() }
}

fn stable_version(order: u64) -> Version {
    Version { order, prerelease: false }
}

fn plain_dist(id: u64) -> PrioritizedDist {
    PrioritizedDist { best: Some(RegistryDist { id }), source: None, wheel: None }
}

fn plain_entry(order: u64) -> VersionMapEntry {
    VersionMapEntry { version: stable_version(order), dist: Some(plain_dist(order)) }
}

fn orders_of(items: Vec<(&Version, VersionMapDistHandle<'_>)>) -> Vec<u64> {
    items.iter().map(|item| item.0.order).collect()
}

#[test]
fn versions_are_ordered() {
    let one = stable_version(1);
    let two = stable_version(2);
    let pre = Version { order: 2, prerelease: true };
    assert!(one.is_before(&two));
    assert!(!two.is_before(&one));
    assert!(!one.is_before(&one));
    assert!(pre.is_before(&two));
    assert!(!two.is_before(&pre));
    assert!(pre.any_prerelease());
    assert!(!two.any_prerelease());
}

#[test]
fn names_compare_by_their_text() {
    assert_eq!(package("flask"), package("flask"));
    assert_ne!(package("flask"), package("numpy"));
    let pypi = IndexUrl { url: "https://pypi.org/simple".to_string() };
    let other = IndexUrl { url: "https://example.org/simple".to_string() };
    assert_eq!(pypi, pypi.clone());
    assert_ne!(pypi, other);
}

#[test]
fn version_map_wants_versions_in_order() {
    assert!(VersionMap::from_entries(vec![]).is_some());
    assert!(VersionMap::from_entries(vec![plain_entry(3)]).is_some());
    assert!(VersionMap::from_entries(vec![plain_entry(1), plain_entry(3)]).is_some());
    assert!(VersionMap::from_entries(vec![plain_entry(3), plain_entry(1)]).is_none());
    assert!(VersionMap::from_entries(vec![plain_entry(3), plain_entry(3)]).is_none());
}

#[test]
fn version_map_iterates_over_the_range() {
    let map = VersionMap::from_entries((1..=6).map(plain_entry).collect()).unwrap();
    let range = Ranges::<u64>::between(2u64, 4u64).union(&Ranges::higher_than(6u64));
    assert_eq!(orders_of(map.iter(&range)), vec![2, 3, 6]);
    assert_eq!(orders_of(map.iter_preferred(&range, false)), vec![2, 3, 6]);
    assert_eq!(orders_of(map.iter_preferred(&range, true)), vec![6, 3, 2]);
    assert!(map.iter(&Ranges::empty()).is_empty());
    assert_eq!(map.iter(&Ranges::full()).len(), 6);
}

#[test]
fn version_map_finds_versions() {
    let mut entries: Vec<VersionMapEntry> = [1, 4, 6, 7, 9].iter().map(|o| plain_entry(*o)).collect();
    entries[2].dist = None;
    let map = VersionMap::from_entries(entries).unwrap();
    for order in [1, 4, 7, 9] {
        let dist = map.get(&stable_version(order)).unwrap();
        assert_eq!(dist.best, Some(RegistryDist { id: order }));
    }
    assert!(map.get(&stable_version(6)).is_none());
    for order in [0, 2, 5, 8, 10] {
        assert!(map.get(&stable_version(order)).is_none());
    }
    assert!(map.get(&Version { order: 4, prerelease: true }).is_none());
}

#[test]
fn version_map_knows_stable_versions() {
    let pre = |order| VersionMapEntry { version: Version { order, prerelease: true }, dist: None };
    assert!(!VersionMap::from_entries(vec![]).unwrap().stable());
    assert!(!VersionMap::from_entries(vec![pre(1), pre(2)]).unwrap().stable());
    assert!(VersionMap::from_entries(vec![pre(1), plain_entry(2), pre(3)]).unwrap().stable());
}

#[test]
fn candidate_dist_from_prioritized_dist() {
    let source = Some(IncompatibleSource::Other(1));
    let wheel = Some(IncompatibleWheel::ExcludeNewer(Some(17)));
    let best = Some(RegistryDist { id: 5 });

    let dist = PrioritizedDist { best, source, wheel };
    assert!(matches!(
        CandidateDist::from(&dist),
        CandidateDist::Compatible(CompatibleDist::RegistryDist(RegistryDist { id: 5 }))
    ));
    let dist = PrioritizedDist { best: None, source, wheel };
    assert!(matches!(
        CandidateDist::from(&dist),
        CandidateDist::Incompatible(IncompatibleDist::Source(IncompatibleSource::Other(1)))
    ));
    assert!(!CandidateDist::from(&dist).is_exclude_newer());
    let dist = PrioritizedDist { best: None, source: None, wheel };
    assert!(matches!(
        CandidateDist::from(&dist),
        CandidateDist::Incompatible(IncompatibleDist::Wheel(IncompatibleWheel::ExcludeNewer(
            Some(17)
        )))
    ));
    assert!(CandidateDist::from(&dist).is_exclude_newer());
    let dist = PrioritizedDist { best: None, source: None, wheel: None };
    assert!(matches!(
        CandidateDist::from(&dist),
        CandidateDist::Incompatible(IncompatibleDist::Unavailable)
    ));
    let newer = Some(IncompatibleSource::ExcludeNewer(None));
    let dist = PrioritizedDist { best: None, source: newer, wheel: None };
    assert!(CandidateDist::from(&dist).is_exclude_newer());
}

#[test]
fn candidate_accessors() {
    let name = package("flask");
    let version = stable_version(3);
    let dist = plain_dist(8);
    let candidate = Candidate::new(&name, &version, &dist, VersionChoiceKind::Compatible);
    assert_eq!(candidate.name(), &name);
    assert_eq!(candidate.version(), &version);
    assert_eq!(candidate.choice_kind(), VersionChoiceKind::Compatible);
    assert!(matches!(candidate.dist(), CandidateDist::Compatible(_)));
    assert_eq!(
        candidate.compatible(),
        Some(&CompatibleDist::RegistryDist(&RegistryDist { id: 8 }))
    );
    assert!(matches!(
        candidate.version_or_url(),
        VersionOrUrlRef::Version(Version { order: 3, prerelease: false })
    ));

    let unusable = PrioritizedDist { best: None, source: None, wheel: None };
    let candidate = Candidate::new(&name, &version, &unusable, VersionChoiceKind::Preference);
    assert!(candidate.compatible().is_none());
    assert_eq!(candidate.choice_kind(), VersionChoiceKind::Preference);
}

#[test]
fn choice_kinds_in_words() {
    assert_eq!(VersionChoiceKind::Preference.as_str(), "preference");
    assert_eq!(VersionChoiceKind::Installed.as_str(), "installed");
    assert_eq!(VersionChoiceKind::Compatible.as_str(), "compatible");
}

#[test]
fn fork_set_depends_on_the_environment() {
    let linux = MarkerTree { id: 1 };
    let windows = MarkerTree { id: 2 };
    let set = ForkSet { entries: vec![ForkEntry { package: package("flask"), marker: linux }] };
    let on_linux = ResolverEnvironment { included: vec![windows, linux] };
    let on_windows = ResolverEnvironment { included: vec![windows] };
    assert!(on_linux.included_by_marker(&linux));
    assert!(!on_windows.included_by_marker(&linux));
    assert!(set.contains(&package("flask"), &on_linux));
    assert!(!set.contains(&package("flask"), &on_windows));
    assert!(!set.contains(&package("numpy"), &on_linux));
}

#[test]
fn first_prerelease_rule_decides() {
    let marker = MarkerTree { id: 1 };
    let env = ResolverEnvironment { included: vec![marker] };
    let rule = |name: &str, id: u64, allow| PrereleaseRule {
        subject: ForkEntry { package: package(name), marker: MarkerTree { id } },
        allow,
    };
    let strategy = PrereleaseStrategy {
        rules: vec![
            rule("flask", 2, AllowPrerelease::No),
            rule("flask", 1, AllowPrerelease::Yes),
            rule("flask", 1, AllowPrerelease::No),
        ],
        default: AllowPrerelease::IfNecessary,
    };
    assert_eq!(strategy.allows(&package("flask"), &env), AllowPrerelease::Yes);
    assert_eq!(strategy.allows(&package("numpy"), &env), AllowPrerelease::IfNecessary);
}

#[test]
fn exclusions_by_name() {
    let exclusions = Exclusions { packages: vec![package("flask"), package("numpy")] };
    assert!(exclusions.contains(&package("numpy")));
    assert!(!exclusions.contains(&package("django")));
}

#[test]
fn installed_packages_by_name() {
    let dist = |id, order| InstalledDist { id, version: stable_version(order) };
    let installed = InstalledPackages {
        packages: vec![
            InstalledPackage { name: package("flask"), dist: dist(1, 3) },
            InstalledPackage { name: package("numpy"), dist: dist(2, 5) },
            InstalledPackage { name: package("flask"), dist: dist(3, 4) },
        ],
    };
    assert_eq!(installed.get_packages(&package("flask")), vec![&dist(1, 3), &dist(3, 4)]);
    assert_eq!(installed.get_packages(&package("numpy")), vec![&dist(2, 5)]);
    assert!(installed.get_packages(&package("django")).is_empty());
    assert_eq!(dist(1, 3).version().order, 3);
}

#[test]
fn preferences_by_name() {
    let preference = |name: &str, order| Preference {
        package: package(name),
        marker: None,
        index: None,
        version: stable_version(order),
    };
    let preferences = Preferences {
        preferences: vec![preference("flask", 3), preference("numpy", 1), preference("flask", 2)],
    };
    let found: Vec<u64> =
        preferences.get(&package("flask")).iter().map(|p| p.version.order).collect();
    assert_eq!(found, vec![3, 2]);
}

#[test]
fn merging_order() {
    let low = stable_version(1);
    let high = stable_version(2);
    let none = None;
    let handle = VersionMapDistHandle { dist: &none };
    assert!(is_before(&(1, (&high, handle)), &(0, (&low, handle)), true));
    assert!(!is_before(&(0, (&low, handle)), &(1, (&high, handle)), true));
    assert!(is_before(&(1, (&low, handle)), &(0, (&high, handle)), false));
    assert!(is_before(&(0, (&low, handle)), &(1, (&low, handle)), true));
    assert!(!is_before(&(1, (&low, handle)), &(0, (&low, handle)), false));
    assert!(!is_before(&(1, (&low, handle)), &(1, (&low, handle)), false));
}
