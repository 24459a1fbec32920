use vstd::prelude::*;
use crate::environment::{MarkerTree, ResolverEnvironment};
use crate::names::{IndexUrl, PackageName};
use crate::version::Version;

verus! {

/// A version of a package that is to be kept where possible: one from a lockfile, or one that a
/// sibling fork settled on.
#[derive(Debug, Clone)]
pub struct Preference {
    /// The name of the package.
    pub package: PackageName,
    /// The marker of the fork that the preference comes from; none if it holds universally.
    pub marker: Option<MarkerTree>,
    /// The index that the version was taken from, where it is known.
    pub index: Option<IndexUrl>,
    /// The preferred version.
    pub version: Version,
}

impl Preference {
    /// Whether the preference is meant for `env`. One that holds universally is meant for every
    /// environment.
    pub open spec fn spec_matches(self, env: ResolverEnvironment) -> bool {
        match self.marker {
            Some(marker) => env.includes(marker),
            None => true,
        }
    }

    /// Whether the preference is meant for `env`.
    pub fn matches(&self, env: &ResolverEnvironment) -> (matches: bool)
        ensures
            matches == self.spec_matches(*env),
    {
        match &self.marker {
            Some(marker) => env.included_by_marker(marker),
            None => true,
        }
    }

    /// Whether the preference comes from `index`, if the package is mapped to an index.
    pub open spec fn spec_from_index(self, index: Option<&IndexUrl>) -> bool {
        match index {
            Some(index) => match self.index {
                Some(source) => source@ == index@,
                None => false,
            },
            None => true,
        }
    }

    /// Whether the preference comes from `index`, if the package is mapped to an index.
    pub fn from_index(&self, index: Option<&IndexUrl>) -> (from_index: bool)
        ensures
            from_index == self.spec_from_index(index),
    {
        match index {
            Some(index) => match &self.index {
                Some(source) => *source == *index,
                None => false,
            },
            None => true,
        }
    }

    /// What is left of a preference when its package and index have been matched.
    pub open spec fn spec_choice<'a>(&'a self) -> (Option<&'a MarkerTree>, &'a Version) {
        (
            match self.marker {
                Some(marker) => Some(&marker),
                None => None,
            },
            &self.version,
        )
    }

    /// What is left of a preference when its package and index have been matched.
    pub fn choice<'a>(&'a self) -> (choice: (Option<&'a MarkerTree>, &'a Version))
        ensures
            choice == self.spec_choice(),
    {
        match &self.marker {
            Some(marker) => (Some(marker), &self.version),
            None => (None, &self.version),
        }
    }
}

/// The preferences for all packages.
#[derive(Debug, Clone)]
pub struct Preferences {
    /// The preferences; those of one package are in the order in which they are tried.
    pub preferences: Vec<Preference>,
}

impl Preferences {
    /// The preferences for the package `name`.
    pub open spec fn spec_get<'a>(&'a self, name: Seq<char>) -> Seq<&'a Preference> {
        self.preferences@.filter(|preference: Preference| preference.package@ == name).map_values(
            |preference: Preference| &preference,
        )
    }

    /// Return the preferences for the package `name`.
    pub fn get<'a>(&'a self, name: &PackageName) -> (preferences: Vec<&'a Preference>)
        ensures
            preferences@ == self.spec_get(name@),
    {
        let ghost named = |preference: Preference| preference.package@ == name@;
        let ghost borrowed = |preference: Preference| &preference;
        let mut preferences: Vec<&'a Preference> = Vec::new();
        let mut i: usize = 0;
        while i < self.preferences.len()
            invariant
                i <= self.preferences.len(),
                named == (|preference: Preference| preference.package@ == name@),
                borrowed == (|preference: Preference| &preference),
                preferences@ == self.preferences@.take(i as int).filter(named).map_values(borrowed),
            decreases self.preferences.len() - i,
        {
            let preference = &self.preferences[i];
            proof {
                self.preferences@.take(i as int).lemma_filter_push(*preference, named);
                assert(self.preferences@.take(i + 1) == self.preferences@.take(i as int).push(
                    *preference,
                ));
            }
            if preference.package == *name {
                preferences.push(preference);
            }
            i += 1;
        }
        assert(self.preferences@.take(i as int) == self.preferences@);
        preferences
    }
}

} // verus!
