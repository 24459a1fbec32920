use vstd::prelude::*;
use crate::candidate::{Candidate, CandidateDist, VersionChoiceKind};
use crate::distribution::{CompatibleDist, InstalledDist, PrioritizedDist};
use crate::environment::{MarkerTree, ResolverEnvironment};
use crate::first::first_some;
use crate::names::{IndexUrl, PackageName};
use crate::preferences::Preference;
use crate::strategy::AllowPrerelease;
use crate::version::Version;
use crate::version_map::VersionMap;

verus! {

/// The candidate for a version that is installed.
pub open spec fn installed_candidate<'a>(
    name: &'a PackageName,
    version: &'a Version,
    dist: &'a InstalledDist,
    choice_kind: VersionChoiceKind,
) -> Candidate<'a> {
    Candidate {
        name,
        version,
        dist: CandidateDist::Compatible(CompatibleDist::InstalledDist(dist)),
        choice_kind,
    }
}

/// The candidate for the package `name` that is installed, if there is one that will do.
/// `dists` are its distributions that are installed: there must be exactly one, and the range must
/// admit its version.
pub open spec fn installed_choice<'a>(
    name: &'a PackageName,
    orders: Set<u64>,
    dists: Seq<&'a InstalledDist>,
) -> Option<Candidate<'a>> {
    if dists.len() == 1 && orders.contains(dists[0].version.order) {
        Some(
            installed_candidate(
                name,
                &dists[0].version,
                dists[0],
                VersionChoiceKind::Installed,
            ),
        )
    } else {
        None
    }
}

/// What each version map in turn has for `version`.
pub open spec fn remote_dists<'a>(maps: Seq<VersionMap>, version: Version) -> Seq<
    Option<&'a PrioritizedDist>,
> {
    maps.map_values(|map: VersionMap| map.spec_get(version))
}

/// Whether a preferred version may be chosen if it is a pre-release. One that is preferred
/// universally may, unless pre-releases are ruled out.
pub open spec fn preferred_prerelease_allowed(
    marker: Option<&MarkerTree>,
    allow: AllowPrerelease,
) -> bool {
    match allow {
        AllowPrerelease::Yes => true,
        AllowPrerelease::No => false,
        AllowPrerelease::IfNecessary => marker is None,
    }
}

/// The candidate for the preferred version `choice.1`, if it will do: the range must admit it, and
/// either it is the one version that is installed (and installed distributions are considered), or
/// an index has it and it is no pre-release that may not be chosen.
pub open spec fn preferred_candidate<'a>(
    choice: (Option<&'a MarkerTree>, &'a Version),
    name: &'a PackageName,
    orders: Set<u64>,
    maps: Seq<VersionMap>,
    installed: Seq<&'a InstalledDist>,
    is_excluded: bool,
    allow: AllowPrerelease,
) -> Option<Candidate<'a>> {
    let version = choice.1;
    if !orders.contains(version.order) {
        None
    } else if !is_excluded && installed.len() == 1 && installed[0].version == *version {
        Some(installed_candidate(name, version, installed[0], VersionChoiceKind::Preference))
    } else if version.prerelease && !preferred_prerelease_allowed(choice.0, allow) {
        None
    } else {
        match first_some(remote_dists(maps, *version)) {
            Some(dist) => Some(
                Candidate::spec_new(name, version, dist, VersionChoiceKind::Preference),
            ),
            None => None,
        }
    }
}

/// The candidate for each preferred version in turn.
pub open spec fn preferred_candidates<'a>(
    choices: Seq<(Option<&'a MarkerTree>, &'a Version)>,
    name: &'a PackageName,
    orders: Set<u64>,
    maps: Seq<VersionMap>,
    installed: Seq<&'a InstalledDist>,
    is_excluded: bool,
    allow: AllowPrerelease,
) -> Seq<Option<Candidate<'a>>> {
    choices.map_values(
        |choice: (Option<&'a MarkerTree>, &'a Version)|
            preferred_candidate(choice, name, orders, maps, installed, is_excluded, allow),
    )
}

/// The preferences that come from the index that the package is mapped to, if it is mapped to one,
/// and that are meant for `env` (if `matching`), or that are not (if not `matching`).
pub open spec fn preferences_half<'a>(
    preferences: Seq<&'a Preference>,
    index: Option<&'a IndexUrl>,
    env: ResolverEnvironment,
    matching: bool,
) -> Seq<&'a Preference> {
    preferences.filter(
        |preference: &'a Preference|
            preference.spec_matches(env) == matching && preference.spec_from_index(index),
    )
}

/// The preferred versions in the order in which they are tried: those that are meant for `env`
/// first, then those that are not.
pub open spec fn preferred_choices<'a>(
    preferences: Seq<&'a Preference>,
    index: Option<&'a IndexUrl>,
    env: ResolverEnvironment,
) -> Seq<(Option<&'a MarkerTree>, &'a Version)> {
    (preferences_half(preferences, index, env, true) + preferences_half(
        preferences,
        index,
        env,
        false,
    )).map_values(|preference: &'a Preference| preference.spec_choice())
}

} // verus!
