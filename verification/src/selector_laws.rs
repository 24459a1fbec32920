//! What holds of choosing a candidate from preferences, installed packages and indexes together.

use vstd::prelude::*;
use crate::candidate::{Candidate, CandidateDist, VersionChoiceKind};
use crate::distribution::{CompatibleDist, InstalledDist};
use crate::environment::{MarkerTree, ResolverEnvironment};
use crate::first::{first_some, is_first_some, lemma_first_some_at, lemma_first_some_is_none};
use crate::index_choice::{all_ascending, is_eligible_entry};
use crate::index_laws::{law_chosen_iff_eligible, law_chosen_is_eligible, lemma_chosen_entry};
use crate::names::{IndexUrl, PackageName};
use crate::preferences::Preference;
use crate::preferred::{
    installed_choice, preferences_half, preferred_candidate, preferred_candidates,
    preferred_choices, remote_dists,
};
use crate::selector::{any_stable, CandidateSelector};
use crate::version::Version;
use crate::version_map::{ascending, VersionMap};

verus! {

/// Whether a candidate is to be taken from what is installed.
pub open spec fn is_installed(candidate: Candidate) -> bool {
    candidate.dist matches CandidateDist::Compatible(CompatibleDist::InstalledDist(_))
}

/// A candidate that comes from a preference is that of one of the preferred versions.
proof fn lemma_preferred_from(
    selector: CandidateSelector,
    choices: Seq<(Option<&MarkerTree>, &Version)>,
    name: &PackageName,
    orders: Set<u64>,
    maps: Seq<VersionMap>,
    installed: Seq<&InstalledDist>,
    is_excluded: bool,
    env: ResolverEnvironment,
) -> (i: int)
    requires
        selector.spec_get_preferred_from_iter(
            choices,
            name,
            orders,
            maps,
            installed,
            is_excluded,
            env,
        ) is Some,
    ensures
        0 <= i < choices.len(),
        selector.spec_get_preferred_from_iter(
            choices,
            name,
            orders,
            maps,
            installed,
            is_excluded,
            env,
        ) == preferred_candidate(
            choices[i],
            name,
            orders,
            maps,
            installed,
            is_excluded,
            selector.prerelease_strategy.spec_allows(name@, env),
        ),
{
    let candidates = preferred_candidates(
        choices,
        name,
        orders,
        maps,
        installed,
        is_excluded,
        selector.prerelease_strategy.spec_allows(name@, env),
    );
    let i = choose|i: int| is_first_some(candidates, i);
    i
}

/// What is selected bears the name that was asked for and is of a version that the range admits,
/// wherever it comes from.
pub proof fn law_selected_in_range(
    selector: CandidateSelector,
    name: &PackageName,
    orders: Set<u64>,
    maps: Seq<VersionMap>,
    preferences: Seq<&Preference>,
    installed: Seq<&InstalledDist>,
    is_excluded: bool,
    index: Option<&IndexUrl>,
    env: ResolverEnvironment,
)
    ensures
        selector.spec_select(
            name,
            orders,
            maps,
            preferences,
            installed,
            is_excluded,
            index,
            env,
        ) matches Some(candidate) ==> candidate.name == name && orders.contains(
            candidate.version.order,
        ),
{
    let choices = preferred_choices(preferences, index, env);
    if selector.spec_get_preferred(
        name,
        orders,
        maps,
        preferences,
        installed,
        is_excluded,
        index,
        env,
    ) is Some {
        let i = lemma_preferred_from(
            selector,
            choices,
            name,
            orders,
            maps,
            installed,
            is_excluded,
            env,
        );
    } else if selector.spec_select_no_preference(name, orders, maps, env) is Some {
        law_chosen_is_eligible(
            maps,
            name,
            orders,
            selector.spec_allow_prerelease(name@, maps, env),
            selector.spec_use_highest_version(name@, env),
            selector.index_strategy is UnsafeBestMatch,
        );
    }
}

/// The kind of a candidate tells where it comes from: from a preference if any will do; else from
/// what is installed, if that will do and the package is not excluded; else from the indexes.
pub proof fn law_choice_kind_tells_the_source(
    selector: CandidateSelector,
    name: &PackageName,
    orders: Set<u64>,
    maps: Seq<VersionMap>,
    preferences: Seq<&Preference>,
    installed: Seq<&InstalledDist>,
    is_excluded: bool,
    index: Option<&IndexUrl>,
    env: ResolverEnvironment,
)
    requires
        selector.spec_select(
            name,
            orders,
            maps,
            preferences,
            installed,
            is_excluded,
            index,
            env,
        ) is Some,
    ensures
        ({
            let candidate = selector.spec_select(
                name,
                orders,
                maps,
                preferences,
                installed,
                is_excluded,
                index,
                env,
            );
            let preferred = selector.spec_get_preferred(
                name,
                orders,
                maps,
                preferences,
                installed,
                is_excluded,
                index,
                env,
            );
            let kept = installed_choice(name, orders, installed);
            match candidate->0.choice_kind {
                VersionChoiceKind::Preference => candidate == preferred,
                VersionChoiceKind::Installed => {
                    preferred is None && !is_excluded && candidate == kept
                },
                VersionChoiceKind::Compatible => {
                    &&& preferred is None
                    &&& is_excluded || kept is None
                    &&& candidate == selector.spec_select_no_preference(name, orders, maps, env)
                },
            }
        }),
{
    let choices = preferred_choices(preferences, index, env);
    if selector.spec_get_preferred(
        name,
        orders,
        maps,
        preferences,
        installed,
        is_excluded,
        index,
        env,
    ) is Some {
        let i = lemma_preferred_from(
            selector,
            choices,
            name,
            orders,
            maps,
            installed,
            is_excluded,
            env,
        );
    } else if is_excluded || installed_choice(name, orders, installed) is None {
        law_chosen_is_eligible(
            maps,
            name,
            orders,
            selector.spec_allow_prerelease(name@, maps, env),
            selector.spec_use_highest_version(name@, env),
            selector.index_strategy is UnsafeBestMatch,
        );
    }
}

/// Unless the package is excluded, what is installed is preferred to what the indexes have: if the
/// range admits the one version that is installed, the candidate comes from a preference or is that
/// very distribution.
pub proof fn law_installed_before_indexes(
    selector: CandidateSelector,
    name: &PackageName,
    orders: Set<u64>,
    maps: Seq<VersionMap>,
    preferences: Seq<&Preference>,
    installed: Seq<&InstalledDist>,
    index: Option<&IndexUrl>,
    env: ResolverEnvironment,
)
    requires
        installed.len() == 1,
        orders.contains(installed[0].version.order),
    ensures
        selector.spec_select(name, orders, maps, preferences, installed, false, index, env) matches
            Some(candidate) && (candidate.choice_kind is Preference || candidate.dist
            == CandidateDist::Compatible(CompatibleDist::InstalledDist(installed[0]))),
{
    if selector.spec_get_preferred(
        name,
        orders,
        maps,
        preferences,
        installed,
        false,
        index,
        env,
    ) is Some {
        let i = lemma_preferred_from(
            selector,
            preferred_choices(preferences, index, env),
            name,
            orders,
            maps,
            installed,
            false,
            env,
        );
    }
}

/// What is installed of an excluded package makes no difference, and is never selected. The same
/// holds of a package that is installed more than once.
pub proof fn law_installed_not_considered(
    selector: CandidateSelector,
    name: &PackageName,
    orders: Set<u64>,
    maps: Seq<VersionMap>,
    preferences: Seq<&Preference>,
    installed: Seq<&InstalledDist>,
    is_excluded: bool,
    index: Option<&IndexUrl>,
    env: ResolverEnvironment,
)
    requires
        is_excluded || installed.len() != 1,
    ensures
        selector.spec_select(name, orders, maps, preferences, installed, is_excluded, index, env)
            == selector.spec_select(
            name,
            orders,
            maps,
            preferences,
            Seq::empty(),
            is_excluded,
            index,
            env,
        ),
        selector.spec_select(
            name,
            orders,
            maps,
            preferences,
            installed,
            is_excluded,
            index,
            env,
        ) matches Some(candidate) ==> !is_installed(candidate),
{
    let choices = preferred_choices(preferences, index, env);
    let allow = selector.prerelease_strategy.spec_allows(name@, env);
    let none: Seq<&InstalledDist> = Seq::empty();
    assert(preferred_candidates(choices, name, orders, maps, installed, is_excluded, allow)
        =~= preferred_candidates(choices, name, orders, maps, none, is_excluded, allow));
    if selector.spec_get_preferred(
        name,
        orders,
        maps,
        preferences,
        installed,
        is_excluded,
        index,
        env,
    ) is Some {
        let i = lemma_preferred_from(
            selector,
            choices,
            name,
            orders,
            maps,
            installed,
            is_excluded,
            env,
        );
    }
}

/// Preferences that are meant for the environment are tried before those that are not: if one of
/// the former will do, the latter make no difference.
pub proof fn law_matching_preferences_first(
    selector: CandidateSelector,
    name: &PackageName,
    orders: Set<u64>,
    maps: Seq<VersionMap>,
    preferences: Seq<&Preference>,
    installed: Seq<&InstalledDist>,
    is_excluded: bool,
    index: Option<&IndexUrl>,
    env: ResolverEnvironment,
)
    ensures
        ({
            let matching = selector.spec_get_preferred(
                name,
                orders,
                maps,
                preferences_half(preferences, index, env, true),
                installed,
                is_excluded,
                index,
                env,
            );
            let mismatching = selector.spec_get_preferred(
                name,
                orders,
                maps,
                preferences_half(preferences, index, env, false),
                installed,
                is_excluded,
                index,
                env,
            );
            selector.spec_get_preferred(
                name,
                orders,
                maps,
                preferences,
                installed,
                is_excluded,
                index,
                env,
            ) == if matching is Some {
                matching
            } else {
                mismatching
            }
        }),
{
    let first_half = preferences_half(preferences, index, env, true);
    let second_half = preferences_half(preferences, index, env, false);
    let allow = selector.prerelease_strategy.spec_allows(name@, env);
    lemma_half_of_half(preferences, index, env, true);
    lemma_half_of_half(preferences, index, env, false);
    let choices1 = preferred_choices(first_half, index, env);
    let choices2 = preferred_choices(second_half, index, env);
    let choices = preferred_choices(preferences, index, env);
    assert(choices =~= choices1 + choices2);
    let candidates1 = preferred_candidates(
        choices1,
        name,
        orders,
        maps,
        installed,
        is_excluded,
        allow,
    );
    let candidates2 = preferred_candidates(
        choices2,
        name,
        orders,
        maps,
        installed,
        is_excluded,
        allow,
    );
    let candidates = preferred_candidates(
        choices,
        name,
        orders,
        maps,
        installed,
        is_excluded,
        allow,
    );
    assert(candidates =~= candidates1 + candidates2);
    lemma_first_some_of_two(candidates1, candidates2);
}

/// The first value of two lists in a row is the first of the one, or else the first of the other.
proof fn lemma_first_some_of_two<T>(s1: Seq<Option<T>>, s2: Seq<Option<T>>)
    ensures
        first_some(s1 + s2) == if first_some(s1) is Some {
            first_some(s1)
        } else {
            first_some(s2)
        },
{
    let s = s1 + s2;
    lemma_first_some_is_none(s1);
    lemma_first_some_is_none(s2);
    lemma_first_some_is_none(s);
    if first_some(s1) is Some {
        let i = choose|i: int| is_first_some(s1, i);
        assert(is_first_some(s, i));
        lemma_first_some_at(s, i);
    } else if first_some(s2) is Some {
        let i = choose|i: int| is_first_some(s2, i);
        assert(is_first_some(s, s1.len() + i));
        lemma_first_some_at(s, s1.len() + i);
    } else {
        assert forall|i: int| 0 <= i < s.len() implies s[i] is None by {
            if i < s1.len() {
                assert(s1[i] is None);
            } else {
                assert(s2[i - s1.len()] is None);
            }
        }
    }
}

/// Of the preferences of one half, the halves are all of them and none.
proof fn lemma_half_of_half(
    preferences: Seq<&Preference>,
    index: Option<&IndexUrl>,
    env: ResolverEnvironment,
    matching: bool,
)
    ensures
        preferences_half(preferences_half(preferences, index, env, matching), index, env, matching)
            == preferences_half(preferences, index, env, matching),
        preferences_half(
            preferences_half(preferences, index, env, matching),
            index,
            env,
            !matching,
        ) == Seq::<&Preference>::empty(),
    decreases preferences.len(),
{
    reveal(Seq::filter);
    if preferences.len() > 0 {
        let rest = preferences.drop_last();
        lemma_half_of_half(rest, index, env, matching);
        let half = preferences_half(rest, index, env, matching);
        assert(half.push(preferences.last()).drop_last() == half);
    }
}

/// If the package is mapped to an index, a preference for a version from elsewhere is not used.
pub proof fn law_preference_from_other_index_not_used(
    selector: CandidateSelector,
    name: &PackageName,
    orders: Set<u64>,
    maps: Seq<VersionMap>,
    preferences: Seq<&Preference>,
    installed: Seq<&InstalledDist>,
    is_excluded: bool,
    index: Option<&IndexUrl>,
    env: ResolverEnvironment,
)
    ensures
        selector.spec_get_preferred(
            name,
            orders,
            maps,
            preferences,
            installed,
            is_excluded,
            index,
            env,
        ) matches Some(candidate) ==> exists|i: int|
            0 <= i < preferences.len() && (#[trigger] preferences[i]).spec_from_index(index)
                && preferences[i].version == *candidate.version,
{
    if selector.spec_get_preferred(
        name,
        orders,
        maps,
        preferences,
        installed,
        is_excluded,
        index,
        env,
    ) is Some {
        let first_half = preferences_half(preferences, index, env, true);
        let second_half = preferences_half(preferences, index, env, false);
        let i = lemma_preferred_from(
            selector,
            preferred_choices(preferences, index, env),
            name,
            orders,
            maps,
            installed,
            is_excluded,
            env,
        );
        if i < first_half.len() {
            lemma_half_contains(preferences, index, env, true, i);
        } else {
            lemma_half_contains(preferences, index, env, false, i - first_half.len());
        }
    }
}

/// What is in one half of the preferences is one of the preferences, and from the right index.
proof fn lemma_half_contains(
    preferences: Seq<&Preference>,
    index: Option<&IndexUrl>,
    env: ResolverEnvironment,
    matching: bool,
    i: int,
)
    requires
        0 <= i < preferences_half(preferences, index, env, matching).len(),
    ensures
        exists|j: int|
            0 <= j < preferences.len() && #[trigger] preferences[j] == preferences_half(
                preferences,
                index,
                env,
                matching,
            )[i],
        preferences_half(preferences, index, env, matching)[i].spec_from_index(index),
{
    let wanted = |preference: &Preference|
        preference.spec_matches(env) == matching && preference.spec_from_index(index);
    let half = preferences_half(preferences, index, env, matching);
    assert(half == preferences.filter(wanted));
    preferences.lemma_filter_contains_rev(wanted, half[i]);
    preferences.lemma_filter_pred(wanted, i);
    let j = preferences.index_of(half[i]);
    assert(preferences[j] == half[i]);
}

/// Where pre-releases are not allowed, none is selected, unless it is already installed. Where they
/// are allowed if necessary, none is selected from the indexes as long as an index has a stable
/// version.
pub proof fn law_prereleases(
    selector: CandidateSelector,
    name: &PackageName,
    orders: Set<u64>,
    maps: Seq<VersionMap>,
    preferences: Seq<&Preference>,
    installed: Seq<&InstalledDist>,
    is_excluded: bool,
    index: Option<&IndexUrl>,
    env: ResolverEnvironment,
)
    requires
        selector.spec_select(
            name,
            orders,
            maps,
            preferences,
            installed,
            is_excluded,
            index,
            env,
        ) is Some,
    ensures
        ({
            let candidate = selector.spec_select(
                name,
                orders,
                maps,
                preferences,
                installed,
                is_excluded,
                index,
                env,
            )->0;
            let allow = selector.prerelease_strategy.spec_allows(name@, env);
            &&& allow is No && !is_installed(candidate) ==> !candidate.version.prerelease
            &&& allow is IfNecessary && candidate.choice_kind is Compatible && any_stable(maps)
                ==> !candidate.version.prerelease
        }),
{
    law_choice_kind_tells_the_source(
        selector,
        name,
        orders,
        maps,
        preferences,
        installed,
        is_excluded,
        index,
        env,
    );
    let candidate = selector.spec_select(
        name,
        orders,
        maps,
        preferences,
        installed,
        is_excluded,
        index,
        env,
    )->0;
    if candidate.choice_kind is Preference {
        let i = lemma_preferred_from(
            selector,
            preferred_choices(preferences, index, env),
            name,
            orders,
            maps,
            installed,
            is_excluded,
            env,
        );
    } else if candidate.choice_kind is Compatible {
        law_chosen_is_eligible(
            maps,
            name,
            orders,
            selector.spec_allow_prerelease(name@, maps, env),
            selector.spec_use_highest_version(name@, env),
            selector.index_strategy is UnsafeBestMatch,
        );
    }
}

/// Locking again is stable: if the first preference that is meant for the environment (and comes
/// from the index that the package is mapped to, if it is mapped to one) is for the version that
/// was selected, that version is selected again, whatever the other preferences are.
///
/// One kind of preference is left out, which may be passed over: one of a single fork, for a
/// pre-release that is not installed, where pre-releases are allowed only if necessary.
pub proof fn law_repeated_locking_is_stable(
    selector: CandidateSelector,
    name: &PackageName,
    orders: Set<u64>,
    maps: Seq<VersionMap>,
    preferences: Seq<&Preference>,
    again: Seq<&Preference>,
    installed: Seq<&InstalledDist>,
    is_excluded: bool,
    index: Option<&IndexUrl>,
    env: ResolverEnvironment,
)
    requires
        all_ascending(maps),
        preferences_half(again, index, env, true).len() > 0,
        selector.spec_select(
            name,
            orders,
            maps,
            preferences,
            installed,
            is_excluded,
            index,
            env,
        ) matches Some(candidate) && *candidate.version == preferences_half(
            again,
            index,
            env,
            true,
        )[0].version,
        ({
            let locked = preferences_half(again, index, env, true)[0];
            ||| !locked.version.prerelease
            ||| locked.marker is None
            ||| !(selector.prerelease_strategy.spec_allows(name@, env) is IfNecessary)
            ||| !is_excluded && installed.len() == 1 && installed[0].version == locked.version
        }),
    ensures
        selector.spec_select(
            name,
            orders,
            maps,
            again,
            installed,
            is_excluded,
            index,
            env,
        ) matches Some(candidate) && *candidate.version == preferences_half(
            again,
            index,
            env,
            true,
        )[0].version && candidate.choice_kind is Preference,
{
    let locked = preferences_half(again, index, env, true)[0];
    let version = locked.version;
    let allow = selector.prerelease_strategy.spec_allows(name@, env);
    lemma_selected_available(
        selector,
        name,
        orders,
        maps,
        preferences,
        installed,
        is_excluded,
        index,
        env,
    );
    let choices = preferred_choices(again, index, env);
    assert(choices[0] == locked.spec_choice());
    let candidates = preferred_candidates(
        choices,
        name,
        orders,
        maps,
        installed,
        is_excluded,
        allow,
    );
    assert(candidates[0] == preferred_candidate(
        locked.spec_choice(),
        name,
        orders,
        maps,
        installed,
        is_excluded,
        allow,
    ));
    assert(is_first_some(candidates, 0));
    lemma_first_some_at(candidates, 0);
}

/// The version that is selected is in the range, and is installed or to be had from an index; in
/// the latter case it is no pre-release if pre-releases are ruled out.
proof fn lemma_selected_available(
    selector: CandidateSelector,
    name: &PackageName,
    orders: Set<u64>,
    maps: Seq<VersionMap>,
    preferences: Seq<&Preference>,
    installed: Seq<&InstalledDist>,
    is_excluded: bool,
    index: Option<&IndexUrl>,
    env: ResolverEnvironment,
)
    requires
        all_ascending(maps),
        selector.spec_select(
            name,
            orders,
            maps,
            preferences,
            installed,
            is_excluded,
            index,
            env,
        ) is Some,
    ensures
        ({
            let version = *selector.spec_select(
                name,
                orders,
                maps,
                preferences,
                installed,
                is_excluded,
                index,
                env,
            )->0.version;
            &&& orders.contains(version.order)
            &&& {
                ||| !is_excluded && installed.len() == 1 && installed[0].version == version
                ||| {
                    &&& first_some(remote_dists(maps, version)) is Some
                    &&& selector.prerelease_strategy.spec_allows(name@, env) is No
                        ==> !version.prerelease
                }
            }
        }),
{
    law_selected_in_range(
        selector,
        name,
        orders,
        maps,
        preferences,
        installed,
        is_excluded,
        index,
        env,
    );
    law_prereleases(
        selector,
        name,
        orders,
        maps,
        preferences,
        installed,
        is_excluded,
        index,
        env,
    );
    law_choice_kind_tells_the_source(
        selector,
        name,
        orders,
        maps,
        preferences,
        installed,
        is_excluded,
        index,
        env,
    );
    let candidate = selector.spec_select(
        name,
        orders,
        maps,
        preferences,
        installed,
        is_excluded,
        index,
        env,
    )->0;
    let version = *candidate.version;
    if candidate.choice_kind is Preference {
        let i = lemma_preferred_from(
            selector,
            preferred_choices(preferences, index, env),
            name,
            orders,
            maps,
            installed,
            is_excluded,
            env,
        );
    } else if candidate.choice_kind is Compatible {
        let (m, k) = lemma_chosen_entry(
            maps,
            name,
            orders,
            selector.spec_allow_prerelease(name@, maps, env),
            selector.spec_use_highest_version(name@, env),
            selector.index_strategy is UnsafeBestMatch,
        );
        assert(ascending(maps[m]@));
        assert(maps[m]@[k].version == version);
        assert(maps[m].spec_get(version) is Some) by {
            let k2 = choose|k2: int|
                0 <= k2 < maps[m]@.len() && (#[trigger] maps[m]@[k2]).version == version;
            if k < k2 {
                assert(maps[m]@[k].version.precedes(maps[m]@[k2].version));
            } else if k2 < k {
                assert(maps[m]@[k2].version.precedes(maps[m]@[k].version));
            }
        }
        assert(remote_dists(maps, version)[m] is Some);
        lemma_first_some_is_none(remote_dists(maps, version));
    }
}

/// Nothing is selected if and only if no preference will do, nothing that is installed will do or it
/// is not considered, and no index has an entry that can be a candidate.
pub proof fn law_nothing_selected(
    selector: CandidateSelector,
    name: &PackageName,
    orders: Set<u64>,
    maps: Seq<VersionMap>,
    preferences: Seq<&Preference>,
    installed: Seq<&InstalledDist>,
    is_excluded: bool,
    index: Option<&IndexUrl>,
    env: ResolverEnvironment,
)
    ensures
        selector.spec_select(
            name,
            orders,
            maps,
            preferences,
            installed,
            is_excluded,
            index,
            env,
        ) is None <==> {
            let choices = preferred_choices(preferences, index, env);
            &&& forall|i: int|
                0 <= i < choices.len() ==> preferred_candidate(
                    #[trigger] choices[i],
                    name,
                    orders,
                    maps,
                    installed,
                    is_excluded,
                    selector.prerelease_strategy.spec_allows(name@, env),
                ) is None
            &&& is_excluded || installed.len() != 1 || !orders.contains(
                installed[0].version.order,
            )
            &&& forall|m: int, k: int|
                !#[trigger] is_eligible_entry(
                    maps,
                    orders,
                    selector.spec_allow_prerelease(name@, maps, env),
                    m,
                    k,
                )
        },
{
    let choices = preferred_choices(preferences, index, env);
    let allow = selector.prerelease_strategy.spec_allows(name@, env);
    let candidates = preferred_candidates(
        choices,
        name,
        orders,
        maps,
        installed,
        is_excluded,
        allow,
    );
    assert forall|i: int| 0 <= i < choices.len() implies candidates[i] == preferred_candidate(
        #[trigger] choices[i],
        name,
        orders,
        maps,
        installed,
        is_excluded,
        allow,
    ) by {}
    lemma_first_some_is_none(candidates);
    law_chosen_iff_eligible(
        maps,
        name,
        orders,
        selector.spec_allow_prerelease(name@, maps, env),
        selector.spec_use_highest_version(name@, env),
        selector.index_strategy is UnsafeBestMatch,
    );
}

/// Where pre-releases are allowed only if necessary, a preference for one that is not installed is
/// used only if the preference holds universally.
pub proof fn law_preferred_prerelease_is_universal(
    selector: CandidateSelector,
    name: &PackageName,
    orders: Set<u64>,
    maps: Seq<VersionMap>,
    preferences: Seq<&Preference>,
    installed: Seq<&InstalledDist>,
    is_excluded: bool,
    index: Option<&IndexUrl>,
    env: ResolverEnvironment,
)
    requires
        selector.prerelease_strategy.spec_allows(name@, env) is IfNecessary,
        selector.spec_get_preferred(
            name,
            orders,
            maps,
            preferences,
            installed,
            is_excluded,
            index,
            env,
        ) matches Some(candidate) && candidate.version.prerelease && !is_installed(candidate),
    ensures
        exists|i: int|
            0 <= i < preferences.len() && (#[trigger] preferences[i]).marker is None
                && preferences[i].version == *selector.spec_get_preferred(
                name,
                orders,
                maps,
                preferences,
                installed,
                is_excluded,
                index,
                env,
            )->0.version,
{
    let first_half = preferences_half(preferences, index, env, true);
    let i = lemma_preferred_from(
        selector,
        preferred_choices(preferences, index, env),
        name,
        orders,
        maps,
        installed,
        is_excluded,
        env,
    );
    if i < first_half.len() {
        lemma_half_contains(preferences, index, env, true, i);
    } else {
        lemma_half_contains(preferences, index, env, false, i - first_half.len());
    }
}

} // verus!
