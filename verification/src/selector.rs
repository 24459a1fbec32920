use pubgrub::Ranges;
use vstd::prelude::*;
use crate::candidate::{Candidate, CandidateDist, VersionChoiceKind};
use crate::distribution::{CompatibleDist, InstalledDist, PrioritizedDist};
use crate::environment::{MarkerTree, ResolverEnvironment};
use crate::exclusions::Exclusions;
use crate::first::{first_some, lemma_first_some_at, lemma_first_some_is_none};
use crate::index_choice::{
    chosen_candidate, is_eligible_entry, lemma_first_match_at, lemma_merged_runs,
    lemma_select_from_all, lemma_select_from_one, tagged_items, untagged,
};
use crate::installed::InstalledPackages;
use crate::merge::kmerge_by;
use crate::names::{IndexUrl, PackageName};
use crate::preferences::{Preference, Preferences};
use crate::preferred::{
    installed_choice, preferences_half, preferred_candidate, preferred_candidates,
    preferred_choices, remote_dists,
};
use crate::range::{range_contains, range_orders};
use crate::selection::{
    is_first_eligible, is_selected, is_selected_from, is_usable_from, item_candidate,
    item_eligible, lemma_nothing_selected, lemma_selected_item_at, same_version, selected_item,
};
use crate::strategy::{AllowPrerelease, IndexStrategy, PrereleaseStrategy, ResolutionStrategy};
use crate::version::Version;
use crate::version_map::{VersionMap, VersionMapDistHandle};

verus! {

/// Chooses the version of a package, and the distribution to take it from.
#[derive(Debug, Clone)]
pub struct CandidateSelector {
    /// Which end of the range of versions is preferred.
    pub resolution_strategy: ResolutionStrategy,
    /// For which packages pre-releases may be chosen.
    pub prerelease_strategy: PrereleaseStrategy,
    /// How the indexes that offer a package are searched.
    pub index_strategy: IndexStrategy,
}

impl CandidateSelector {
    /// Whether the highest version of the package `name` is preferred in `env`.
    pub open spec fn spec_use_highest_version(
        self,
        name: Seq<char>,
        env: ResolverEnvironment,
    ) -> bool {
        match self.resolution_strategy {
            ResolutionStrategy::Highest => true,
            ResolutionStrategy::Lowest => false,
            ResolutionStrategy::LowestDirect(direct) => !direct.spec_contains(name, env),
        }
    }

    /// Whether pre-releases of the package `name` may be chosen from `maps` in `env`.
    pub open spec fn spec_allow_prerelease(
        self,
        name: Seq<char>,
        maps: Seq<VersionMap>,
        env: ResolverEnvironment,
    ) -> bool {
        match self.prerelease_strategy.spec_allows(name, env) {
            AllowPrerelease::Yes => true,
            AllowPrerelease::No => false,
            AllowPrerelease::IfNecessary => !any_stable(maps),
        }
    }

    /// The candidate that is chosen where there is no preference and nothing is installed.
    pub open spec fn spec_select_no_preference<'a>(
        self,
        package_name: &'a PackageName,
        orders: Set<u64>,
        maps: Seq<VersionMap>,
        env: ResolverEnvironment,
    ) -> Option<Candidate<'a>> {
        chosen_candidate(
            maps,
            package_name,
            orders,
            self.spec_allow_prerelease(package_name@, maps, env),
            self.spec_use_highest_version(package_name@, env),
            self.index_strategy is UnsafeBestMatch,
        )
    }

    /// The candidate for the first of the preferred versions that will do.
    pub open spec fn spec_get_preferred_from_iter<'a>(
        self,
        choices: Seq<(Option<&'a MarkerTree>, &'a Version)>,
        package_name: &'a PackageName,
        orders: Set<u64>,
        maps: Seq<VersionMap>,
        installed: Seq<&'a InstalledDist>,
        is_excluded: bool,
        env: ResolverEnvironment,
    ) -> Option<Candidate<'a>> {
        first_some(
            preferred_candidates(
                choices,
                package_name,
                orders,
                maps,
                installed,
                is_excluded,
                self.prerelease_strategy.spec_allows(package_name@, env),
            ),
        )
    }

    /// The candidate for the first preference that will do, those for `env` being tried first.
    pub open spec fn spec_get_preferred<'a>(
        self,
        package_name: &'a PackageName,
        orders: Set<u64>,
        maps: Seq<VersionMap>,
        preferences: Seq<&'a Preference>,
        installed: Seq<&'a InstalledDist>,
        is_excluded: bool,
        index: Option<&'a IndexUrl>,
        env: ResolverEnvironment,
    ) -> Option<Candidate<'a>> {
        self.spec_get_preferred_from_iter(
            preferred_choices(preferences, index, env),
            package_name,
            orders,
            maps,
            installed,
            is_excluded,
            env,
        )
    }

    /// The candidate that is chosen: the first preference that will do; if there is none, what is
    /// installed, unless the package is excluded; and if that will not do either, what the indexes
    /// have.
    pub open spec fn spec_select<'a>(
        self,
        package_name: &'a PackageName,
        orders: Set<u64>,
        maps: Seq<VersionMap>,
        preferences: Seq<&'a Preference>,
        installed: Seq<&'a InstalledDist>,
        is_excluded: bool,
        index: Option<&'a IndexUrl>,
        env: ResolverEnvironment,
    ) -> Option<Candidate<'a>> {
        let preferred = self.spec_get_preferred(
            package_name,
            orders,
            maps,
            preferences,
            installed,
            is_excluded,
            index,
            env,
        );
        let kept = installed_choice(package_name, orders, installed);
        if preferred is Some {
            preferred
        } else if !is_excluded && kept is Some {
            kept
        } else {
            self.spec_select_no_preference(package_name, orders, maps, env)
        }
    }

    /// Return a [`CandidateSelector`] with the given strategies.
    pub fn for_resolution(
        resolution_strategy: ResolutionStrategy,
        prerelease_strategy: PrereleaseStrategy,
        index_strategy: IndexStrategy,
    ) -> (selector: CandidateSelector)
        ensures
            selector.resolution_strategy == resolution_strategy,
            selector.prerelease_strategy == prerelease_strategy,
            selector.index_strategy == index_strategy,
    {
        CandidateSelector { resolution_strategy, prerelease_strategy, index_strategy }
    }

    /// Return which end of the range of versions is preferred.
    pub fn resolution_strategy(&self) -> (strategy: &ResolutionStrategy)
        ensures
            *strategy == self.resolution_strategy,
    {
        &self.resolution_strategy
    }

    /// Return for which packages pre-releases may be chosen.
    pub fn prerelease_strategy(&self) -> (strategy: &PrereleaseStrategy)
        ensures
            *strategy == self.prerelease_strategy,
    {
        &self.prerelease_strategy
    }

    /// Return how the indexes that offer a package are searched.
    pub fn index_strategy(&self) -> (strategy: &IndexStrategy)
        ensures
            *strategy == self.index_strategy,
    {
        &self.index_strategy
    }

    /// Select a [`Candidate`] from a set of candidate versions and files.
    ///
    /// Unless present in the provided [`Exclusions`], local distributions from the
    /// [`InstalledPackages`] are preferred over remote distributions in the [`VersionMap`]s.
    pub fn select<'a>(
        &self,
        package_name: &'a PackageName,
        range: &Ranges<u64>,
        version_maps: &'a [VersionMap],
        preferences: &'a Preferences,
        installed_packages: &'a InstalledPackages,
        exclusions: &Exclusions,
        index: Option<&'a IndexUrl>,
        env: &ResolverEnvironment,
    ) -> (candidate: Option<Candidate<'a>>)
        ensures
            candidate == self.spec_select(
                package_name,
                range_orders(*range),
                version_maps@,
                preferences.spec_get(package_name@),
                installed_packages.spec_get_packages(package_name@),
                exclusions.spec_contains(package_name@),
                index,
                *env,
            ),
    {
        let is_excluded = exclusions.contains(package_name);

        // Check for a preference from a lockfile or a previous fork that satisfies the range and
        // is allowed.
        if let Some(preferred) = self.get_preferred(
            package_name,
            range,
            version_maps,
            preferences,
            installed_packages,
            is_excluded,
            index,
            env,
        ) {
            return Some(preferred);
        }

        // Check for a locally installed distribution that satisfies the range and is allowed.
        if !is_excluded {
            if let Some(installed) = Self::get_installed(package_name, range, installed_packages) {
                return Some(installed);
            }
        }
        self.select_no_preference(package_name, range, version_maps, env)
    }

    /// If the package has a preference, an existing version from an existing lockfile or a version
    /// from a sibling fork, and the preference satisfies the current range, use that.
    ///
    /// We try to find a resolution that, depending on the input, does not diverge from the
    /// lockfile or matches a sibling fork. We try an exact match for the current markers (fork
    /// or specific) first, to ensure stability with repeated locking. If that doesn't work, we
    /// fall back to preferences that don't match in hopes of still resolving different forks into
    /// the same version; A solution with less different versions is more desirable than one where
    /// we may have more recent version in some cases, but overall more versions.
    pub fn get_preferred<'a>(
        &self,
        package_name: &'a PackageName,
        range: &Ranges<u64>,
        version_maps: &'a [VersionMap],
        preferences: &'a Preferences,
        installed_packages: &'a InstalledPackages,
        is_excluded: bool,
        index: Option<&'a IndexUrl>,
        env: &ResolverEnvironment,
    ) -> (candidate: Option<Candidate<'a>>)
        ensures
            candidate == self.spec_get_preferred(
                package_name,
                range_orders(*range),
                version_maps@,
                preferences.spec_get(package_name@),
                installed_packages.spec_get_packages(package_name@),
                is_excluded,
                index,
                *env,
            ),
    {
        let all = preferences.get(package_name);
        // The preferences are sorted by whether their marker matches: first the matching half, then
        // the mismatching half.
        let mut choices: Vec<(Option<&'a MarkerTree>, &'a Version)> = Vec::new();
        push_half(&mut choices, &all, index, env, true);
        push_half(&mut choices, &all, index, env, false);
        assert(choices@ == preferred_choices(all@, index, *env));
        self.get_preferred_from_iter(
            &choices,
            package_name,
            range,
            version_maps,
            installed_packages,
            is_excluded,
            env,
        )
    }

    /// Return the first preference that satisfies the current range and is allowed.
    pub fn get_preferred_from_iter<'a>(
        &self,
        preferences: &Vec<(Option<&'a MarkerTree>, &'a Version)>,
        package_name: &'a PackageName,
        range: &Ranges<u64>,
        version_maps: &'a [VersionMap],
        installed_packages: &'a InstalledPackages,
        is_excluded: bool,
        env: &ResolverEnvironment,
    ) -> (candidate: Option<Candidate<'a>>)
        ensures
            candidate == self.spec_get_preferred_from_iter(
                preferences@,
                package_name,
                range_orders(*range),
                version_maps@,
                installed_packages.spec_get_packages(package_name@),
                is_excluded,
                *env,
            ),
    {
        let ghost orders = range_orders(*range);
        let ghost installed = installed_packages.spec_get_packages(package_name@);
        let ghost allow = self.prerelease_strategy.spec_allows(package_name@, *env);
        let ghost candidates = preferred_candidates(
            preferences@,
            package_name,
            orders,
            version_maps@,
            installed,
            is_excluded,
            allow,
        );
        let mut i: usize = 0;
        while i < preferences.len()
            invariant
                i <= preferences.len(),
                orders == range_orders(*range),
                installed == installed_packages.spec_get_packages(package_name@),
                allow == self.prerelease_strategy.spec_allows(package_name@, *env),
                candidates == preferred_candidates(
                    preferences@,
                    package_name,
                    orders,
                    version_maps@,
                    installed,
                    is_excluded,
                    allow,
                ),
                forall|j: int| 0 <= j < i ==> candidates[j] is None,
            decreases preferences.len() - i,
        {
            let (marker, version) = preferences[i];
            let ghost place = i as int;
            assert(candidates[place] == preferred_candidate(
                preferences@[place],
                package_name,
                orders,
                version_maps@,
                installed,
                is_excluded,
                allow,
            ));
            i += 1;

            // Respect the version range for this requirement.
            if !range_contains(range, version) {
                continue;
            }

            // Check for a locally installed distribution that matches the preferred version.
            // Installed distributions with multiple versions are not considered, because during
            // installation these must be reinstalled from the remote.
            if !is_excluded {
                let installed_dists = installed_packages.get_packages(package_name);
                if installed_dists.len() == 1 {
                    let dist = installed_dists[0];
                    if *dist.version() == *version {
                        proof {
                            lemma_first_some_at(candidates, place);
                        }
                        return Some(
                            Candidate {
                                name: package_name,
                                version,
                                dist: CandidateDist::Compatible(
                                    CompatibleDist::InstalledDist(dist),
                                ),
                                choice_kind: VersionChoiceKind::Preference,
                            },
                        );
                    }
                }
            }

            // Respect the pre-release strategy for this fork.
            if version.any_prerelease() {
                let allow = match self.prerelease_strategy.allows(package_name, env) {
                    AllowPrerelease::Yes => true,
                    AllowPrerelease::No => false,
                    // If the pre-release is "global" (i.e., provided via a lockfile, rather than
                    // a fork), accept it unless pre-releases are completely banned.
                    AllowPrerelease::IfNecessary => marker.is_none(),
                };
                if !allow {
                    continue;
                }
            }

            // Check for a remote distribution that matches the preferred version.
            if let Some(file) = find_remote(version_maps, version) {
                proof {
                    lemma_first_some_at(candidates, place);
                }
                return Some(
                    Candidate::new(package_name, version, file, VersionChoiceKind::Preference),
                );
            }
        }
        proof {
            lemma_first_some_is_none(candidates);
        }
        None
    }

    /// Check for an installed distribution that satisfies the current range and is allowed.
    pub fn get_installed<'a>(
        package_name: &'a PackageName,
        range: &Ranges<u64>,
        installed_packages: &'a InstalledPackages,
    ) -> (candidate: Option<Candidate<'a>>)
        ensures
            candidate == installed_choice(
                package_name,
                range_orders(*range),
                installed_packages.spec_get_packages(package_name@),
            ),
    {
        let installed_dists = installed_packages.get_packages(package_name);
        // Installed distributions with multiple versions are not considered, because during
        // installation these must be reinstalled from the remote.
        if installed_dists.len() != 1 {
            return None;
        }
        let dist = installed_dists[0];
        let version = dist.version();

        // Respect the version range for this requirement.
        if !range_contains(range, version) {
            return None;
        }
        Some(
            Candidate {
                name: package_name,
                version,
                dist: CandidateDist::Compatible(CompatibleDist::InstalledDist(dist)),
                choice_kind: VersionChoiceKind::Installed,
            },
        )
    }

    /// Select a [`Candidate`] without checking for version preference such as an existing
    /// lockfile.
    pub fn select_no_preference<'a>(
        &self,
        package_name: &'a PackageName,
        range: &Ranges<u64>,
        version_maps: &'a [VersionMap],
        env: &ResolverEnvironment,
    ) -> (candidate: Option<Candidate<'a>>)
        ensures
            candidate == self.spec_select_no_preference(
                package_name,
                range_orders(*range),
                version_maps@,
                *env,
            ),
            candidate is None <==> forall|m: int, k: int|
                !#[trigger] is_eligible_entry(
                    version_maps@,
                    range_orders(*range),
                    self.spec_allow_prerelease(package_name@, version_maps@, *env),
                    m,
                    k,
                ),
    {
        let highest = self.use_highest_version(package_name, env);
        let allow_prerelease = match self.prerelease_strategy.allows(package_name, env) {
            AllowPrerelease::Yes => true,
            AllowPrerelease::No => false,
            // Allow pre-releases if there are no stable versions available.
            AllowPrerelease::IfNecessary => !has_stable(version_maps),
        };
        if self.index_strategy == IndexStrategy::UnsafeBestMatch {
            select_best_match(version_maps, package_name, range, allow_prerelease, highest)
        } else {
            select_first_match(version_maps, package_name, range, allow_prerelease, highest)
        }
    }

    /// By default, we select the latest version, but we also allow using the lowest version instead
    /// to check the lower bounds.
    pub fn use_highest_version(
        &self,
        package_name: &PackageName,
        env: &ResolverEnvironment,
    ) -> (highest: bool)
        ensures
            highest == self.spec_use_highest_version(package_name@, *env),
    {
        match &self.resolution_strategy {
            ResolutionStrategy::Highest => true,
            ResolutionStrategy::Lowest => false,
            ResolutionStrategy::LowestDirect(direct_dependencies) => {
                !direct_dependencies.contains(package_name, env)
            },
        }
    }

    /// Select the first-matching [`Candidate`] from a list of candidate versions and files,
    /// preferring wheels to source distributions.
    ///
    /// The returned [`Candidate`] _may not_ be compatible with the current platform; in such
    /// cases, the resolver is responsible for tracking the incompatibility and re-running the
    /// selection process with additional constraints.
    pub fn select_candidate<'a>(
        versions: &Vec<(&'a Version, VersionMapDistHandle<'a>)>,
        package_name: &'a PackageName,
        range: &Ranges<u64>,
        allow_prerelease: bool,
    ) -> (candidate: Option<Candidate<'a>>)
        ensures
            candidate == selected_item(
                versions@,
                package_name,
                range_orders(*range),
                allow_prerelease,
            ),
    {
        let ghost items = versions@;
        let ghost orders = range_orders(*range);
        // The place of the incompatible candidate, if there is one.
        let ghost mut first: int = 0;
        let mut incompatible: Option<Candidate<'a>> = None;
        let mut n: usize = 0;
        while n < versions.len()
            invariant
                n <= versions.len(),
                items == versions@,
                orders == range_orders(*range),
                incompatible is None ==> forall|j: int|
                    0 <= j < n ==> !item_eligible(#[trigger] items[j], orders, allow_prerelease),
                incompatible matches Some(candidate) ==> {
                    &&& is_first_eligible(items, orders, allow_prerelease, first)
                    &&& first < n
                    &&& same_version(items, first, n - 1)
                    &&& candidate == item_candidate(items[first], package_name)
                    &&& forall|j: int|
                        j < n ==> !#[trigger] is_usable_from(
                            items,
                            orders,
                            allow_prerelease,
                            first,
                            j,
                        )
                },
            decreases versions.len() - n,
        {
            let (version, maybe_dist) = versions[n];

            // If we have an incompatible candidate, and we've progressed past it, return it.
            if let Some(candidate) = incompatible {
                if *version != *candidate.version {
                    proof {
                        assert forall|j: int| !#[trigger] is_usable_from(
                            items,
                            orders,
                            allow_prerelease,
                            first,
                            j,
                        ) by {
                            if j >= n && same_version(items, first, j) {
                                assert(*items[n as int].0 == *items[first].0);
                            }
                        }
                        assert(is_selected(items, orders, allow_prerelease, first));
                        lemma_selected_item_at(
                            items,
                            package_name,
                            orders,
                            allow_prerelease,
                            first,
                        );
                    }
                    return incompatible;
                }
            }
            let ghost before = n as int;
            n += 1;

            if version.any_prerelease() && !allow_prerelease {
                continue;
            }
            if !range_contains(range, version) {
                continue;
            }
            let dist = match maybe_dist.prioritized_dist() {
                Some(dist) => dist,
                None => {
                    continue;
                },
            };
            let candidate = Candidate::new(
                package_name,
                version,
                dist,
                VersionChoiceKind::Compatible,
            );

            // Versions that were uploaded after the cutoff are taken not to exist.
            if candidate.dist().is_exclude_newer() {
                continue;
            }

            // An incompatible candidate is kept, and the search goes on: the same version may
            // occur again, on another index, where it is compatible.
            if let CandidateDist::Incompatible(_) = candidate.dist() {
                if incompatible.is_none() {
                    incompatible = Some(candidate);
                    proof {
                        first = before;
                    }
                }
                continue;
            }

            proof {
                if incompatible is None {
                    first = before;
                    assert(is_first_eligible(items, orders, allow_prerelease, first));
                }
                assert(is_usable_from(items, orders, allow_prerelease, first, before));
                assert(is_selected_from(items, orders, allow_prerelease, first, before));
                assert(is_selected(items, orders, allow_prerelease, before));
                lemma_selected_item_at(items, package_name, orders, allow_prerelease, before);
            }
            return Some(candidate);
        }
        proof {
            if incompatible is Some {
                assert(is_selected(items, orders, allow_prerelease, first));
                lemma_selected_item_at(items, package_name, orders, allow_prerelease, first);
            } else {
                lemma_nothing_selected(items, package_name, orders, allow_prerelease);
            }
        }
        incompatible
    }
}

/// Whether any version map has a stable version.
pub open spec fn any_stable(maps: Seq<VersionMap>) -> bool {
    exists|m: int| 0 <= m < maps.len() && (#[trigger] maps[m]).spec_stable()
}

/// Whether any version map has a stable version.
fn has_stable(version_maps: &[VersionMap]) -> (stable: bool)
    ensures
        stable == any_stable(version_maps@),
{
    let mut i: usize = 0;
    while i < version_maps.len()
        invariant
            i <= version_maps.len(),
            forall|m: int| 0 <= m < i ==> !(#[trigger] version_maps@[m]).spec_stable(),
        decreases version_maps.len() - i,
    {
        if version_maps[i].stable() {
            assert(version_maps@[i as int].spec_stable());
            return true;
        }
        i += 1;
    }
    false
}

/// Find the distributions of `version` on the first index that has any.
fn find_remote<'a>(version_maps: &'a [VersionMap], version: &Version) -> (dist: Option<
    &'a PrioritizedDist,
>)
    ensures
        dist == first_some(remote_dists(version_maps@, *version)),
{
    let ghost dists = remote_dists(version_maps@, *version);
    let mut i: usize = 0;
    while i < version_maps.len()
        invariant
            i <= version_maps.len(),
            dists == remote_dists(version_maps@, *version),
            forall|m: int| 0 <= m < i ==> dists[m] is None,
        decreases version_maps.len() - i,
    {
        let found = version_maps[i].get(version);
        assert(found == dists[i as int]);
        if found.is_some() {
            proof {
                lemma_first_some_at(dists, i as int);
            }
            return found;
        }
        i += 1;
    }
    proof {
        lemma_first_some_is_none(dists);
    }
    None
}

/// Append the preferred versions of the preferences whose marker matches `env`, or of those whose
/// marker does not, leaving out those that come from another index than the given one.
fn push_half<'a>(
    choices: &mut Vec<(Option<&'a MarkerTree>, &'a Version)>,
    preferences: &Vec<&'a Preference>,
    index: Option<&'a IndexUrl>,
    env: &ResolverEnvironment,
    matching: bool,
)
    ensures
        final(choices)@ == old(choices)@ + preferences_half(
            preferences@,
            index,
            *env,
            matching,
        ).map_values(|preference: &'a Preference| preference.spec_choice()),
{
    let ghost wanted = |preference: &'a Preference|
        preference.spec_matches(*env) == matching && preference.spec_from_index(index);
    let ghost choice = |preference: &'a Preference| preference.spec_choice();
    let ghost start = choices@;
    let mut i: usize = 0;
    assert(preferences@.take(0).filter(wanted).map_values(choice) == Seq::<
        (Option<&'a MarkerTree>, &'a Version),
    >::empty()) by {
        reveal(Seq::filter);
    }
    while i < preferences.len()
        invariant
            i <= preferences.len(),
            wanted == (|preference: &'a Preference|
                preference.spec_matches(*env) == matching && preference.spec_from_index(index)),
            choice == (|preference: &'a Preference| preference.spec_choice()),
            choices@ == start + preferences@.take(i as int).filter(wanted).map_values(choice),
        decreases preferences.len() - i,
    {
        let preference = preferences[i];
        proof {
            preferences@.take(i as int).lemma_filter_push(preference, wanted);
            assert(preferences@.take(i + 1) == preferences@.take(i as int).push(preference));
        }
        if preference.matches(env) == matching && preference.from_index(index) {
            choices.push(preference.choice());
        }
        i += 1;
    }
    assert(preferences@.take(i as int) == preferences@);
}

/// Select from the versions of all indexes together.
fn select_best_match<'a>(
    version_maps: &'a [VersionMap],
    package_name: &'a PackageName,
    range: &Ranges<u64>,
    allow_prerelease: bool,
    highest: bool,
) -> (candidate: Option<Candidate<'a>>)
    ensures
        candidate == chosen_candidate(
            version_maps@,
            package_name,
            range_orders(*range),
            allow_prerelease,
            highest,
            true,
        ),
        candidate is None <==> forall|m: int, k: int|
            !#[trigger] is_eligible_entry(
                version_maps@,
                range_orders(*range),
                allow_prerelease,
                m,
                k,
            ),
{
    let ghost orders = range_orders(*range);
    let ghost maps = version_maps@;
    let mut runs: Vec<Vec<(usize, (&'a Version, VersionMapDistHandle<'a>))>> = Vec::new();
    let mut m: usize = 0;
    while m < version_maps.len()
        invariant
            m <= version_maps.len(),
            maps == version_maps@,
            orders == range_orders(*range),
            runs.len() == m,
            forall|r: int| 0 <= r < m ==> (#[trigger] maps[r]).wf(),
            forall|r: int|
                0 <= r < m ==> (#[trigger] runs@[r])@ == tagged_items(
                    &maps[r],
                    orders,
                    highest,
                    r as usize,
                ),
        decreases version_maps.len() - m,
    {
        let version_map = &version_maps[m];
        proof {
            use_type_invariant(version_map);
        }
        let items = version_map.iter_preferred(range, highest);
        let run = tag(&items, m);
        runs.push(run);
        m += 1;
    }
    let ghost all_runs = runs@;
    let merged = kmerge_by(runs, highest);
    let versions = untag(&merged);
    proof {
        lemma_merged_runs(all_runs, merged@, maps, orders, highest);
        lemma_select_from_all(
            merged@,
            maps,
            package_name,
            orders,
            allow_prerelease,
            highest,
        );
    }
    CandidateSelector::select_candidate(&versions, package_name, range, allow_prerelease)
}

/// Select from the versions of the first index that has one that will do.
fn select_first_match<'a>(
    version_maps: &'a [VersionMap],
    package_name: &'a PackageName,
    range: &Ranges<u64>,
    allow_prerelease: bool,
    highest: bool,
) -> (candidate: Option<Candidate<'a>>)
    ensures
        candidate == chosen_candidate(
            version_maps@,
            package_name,
            range_orders(*range),
            allow_prerelease,
            highest,
            false,
        ),
        candidate is None <==> forall|m: int, k: int|
            !#[trigger] is_eligible_entry(
                version_maps@,
                range_orders(*range),
                allow_prerelease,
                m,
                k,
            ),
{
    let ghost orders = range_orders(*range);
    let ghost maps = version_maps@;
    let mut i: usize = 0;
    while i < version_maps.len()
        invariant
            i <= version_maps.len(),
            maps == version_maps@,
            orders == range_orders(*range),
            forall|m: int, k: int|
                m < i ==> !#[trigger] is_eligible_entry(maps, orders, allow_prerelease, m, k),
        decreases version_maps.len() - i,
    {
        let version_map = &version_maps[i];
        proof {
            use_type_invariant(version_map);
            lemma_select_from_one(version_map, package_name, orders, allow_prerelease, highest);
        }
        let versions = version_map.iter_preferred(range, highest);
        let candidate = CandidateSelector::select_candidate(
            &versions,
            package_name,
            range,
            allow_prerelease,
        );
        if candidate.is_some() {
            proof {
                lemma_first_match_at(
                    maps,
                    package_name,
                    orders,
                    allow_prerelease,
                    highest,
                    i as int,
                );
            }
            return candidate;
        }
        assert forall|m: int, k: int| m < i + 1 implies !#[trigger] is_eligible_entry(
            maps,
            orders,
            allow_prerelease,
            m,
            k,
        ) by {
            if m == i && is_eligible_entry(maps, orders, allow_prerelease, m, k) {
                assert(is_eligible_entry(seq![*version_map], orders, allow_prerelease, 0, k));
            }
        }
        i += 1;
    }
    None
}

/// Tag items with the place of the version map that they come from.
fn tag<'a>(items: &Vec<(&'a Version, VersionMapDistHandle<'a>)>, place: usize) -> (tagged: Vec<
    (usize, (&'a Version, VersionMapDistHandle<'a>)),
>)
    ensures
        tagged@ == items@.map_values(
            |item: (&'a Version, VersionMapDistHandle<'a>)| (place, item),
        ),
{
    let mut tagged: Vec<(usize, (&'a Version, VersionMapDistHandle<'a>))> = Vec::new();
    let mut i: usize = 0;
    while i < items.len()
        invariant
            i <= items.len(),
            tagged@ == items@.take(i as int).map_values(
                |item: (&'a Version, VersionMapDistHandle<'a>)| (place, item),
            ),
        decreases items.len() - i,
    {
        tagged.push((place, items[i]));
        i += 1;
    }
    assert(items@.take(i as int) == items@);
    tagged
}

/// Take the tags off again.
fn untag<'a>(tagged: &Vec<(usize, (&'a Version, VersionMapDistHandle<'a>))>) -> (items: Vec<
    (&'a Version, VersionMapDistHandle<'a>),
>)
    ensures
        items@ == untagged(tagged@),
{
    let mut items: Vec<(&'a Version, VersionMapDistHandle<'a>)> = Vec::new();
    let mut i: usize = 0;
    while i < tagged.len()
        invariant
            i <= tagged.len(),
            items@ == untagged(tagged@.take(i as int)),
        decreases tagged.len() - i,
    {
        items.push(tagged[i].1);
        i += 1;
    }
    assert(tagged@.take(i as int) == tagged@);
    items
}

} // verus!
