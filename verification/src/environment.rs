use vstd::prelude::*;
use crate::names::PackageName;

verus! {

/// A marker, by the number under which it is kept.
#[derive(Debug, Clone, Copy, PartialEq, Eq, Structural)]
pub struct MarkerTree {
    /// The number of the marker.
    pub id: u64,
}

/// The environment, or the fork of a universal resolution, for which versions are being chosen.
#[derive(Debug, Clone)]
pub struct ResolverEnvironment {
    /// The markers that this environment includes.
    pub included: Vec<MarkerTree>,
}

impl ResolverEnvironment {
    /// Whether this environment includes `marker`.
    pub open spec fn includes(self, marker: MarkerTree) -> bool {
        self.included@.contains(marker)
    }

    /// Whether this environment includes `marker`.
    pub fn included_by_marker(&self, marker: &MarkerTree) -> (included: bool)
        ensures
            included == self.includes(*marker),
    {
        let mut i: usize = 0;
        while i < self.included.len()
            invariant
                i <= self.included.len(),
                forall|j: int| 0 <= j < i ==> self.included@[j] != *marker,
            decreases self.included.len() - i,
        {
            if self.included[i] == *marker {
                return true;
            }
            i += 1;
        }
        false
    }
}

/// A package, in the environments that include a marker.
#[derive(Debug, Clone)]
pub struct ForkEntry {
    /// The name of the package.
    pub package: PackageName,
    /// The marker under which the entry holds.
    pub marker: MarkerTree,
}

impl ForkEntry {
    /// Whether the entry is about the package `name` and holds in `env`.
    pub open spec fn spec_applies(self, name: Seq<char>, env: ResolverEnvironment) -> bool {
        self.package@ == name && env.includes(self.marker)
    }

    /// Whether the entry is about the package `name` and holds in `env`.
    pub fn applies(&self, name: &PackageName, env: &ResolverEnvironment) -> (applies: bool)
        ensures
            applies == self.spec_applies(name@, *env),
    {
        self.package == *name && env.included_by_marker(&self.marker)
    }
}

/// A set of packages that depends on the environment.
#[derive(Debug, Clone)]
pub struct ForkSet {
    /// The members of the set, each with the marker under which it is one.
    pub entries: Vec<ForkEntry>,
}

impl ForkSet {
    /// Whether the package `name` is in the set, in the environment `env`.
    pub open spec fn spec_contains(self, name: Seq<char>, env: ResolverEnvironment) -> bool {
        exists|i: int|
            0 <= i < self.entries@.len() && (#[trigger] self.entries@[i]).spec_applies(name, env)
    }

    /// Whether the package `name` is in the set, in the environment `env`.
    pub fn contains(&self, name: &PackageName, env: &ResolverEnvironment) -> (contained: bool)
        ensures
            contained == self.spec_contains(name@, *env),
    {
        let mut i: usize = 0;
        while i < self.entries.len()
            invariant
                i <= self.entries.len(),
                forall|j: int|
                    0 <= j < i ==> !(#[trigger] self.entries@[j]).spec_applies(name@, *env),
            decreases self.entries.len() - i,
        {
            if self.entries[i].applies(name, env) {
                return true;
            }
            i += 1;
        }
        false
    }
}

} // verus!
