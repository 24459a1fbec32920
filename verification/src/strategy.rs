use vstd::prelude::*;
use crate::environment::{ForkEntry, ForkSet, ResolverEnvironment};
use crate::first::{first_some, is_first_some, lemma_first_some_at, lemma_first_some_is_none};
use crate::names::PackageName;

verus! {

/// How the indexes that offer a package are searched.
#[derive(Debug, Clone, Copy, PartialEq, Eq, Structural)]
pub enum IndexStrategy {
    /// Take the package from the first index that has it.
    FirstIndex,
    /// Take the first index that has a version that will do.
    UnsafeFirstMatch,
    /// Take the best version that any index has.
    UnsafeBestMatch,
}

/// Which end of the range of versions is preferred.
#[derive(Debug, Clone)]
pub enum ResolutionStrategy {
    /// The highest version of every package.
    Highest,
    /// The lowest version of every package.
    Lowest,
    /// The lowest version of the direct dependencies, the highest of all other packages.
    LowestDirect(ForkSet),
}

/// Whether pre-releases of a package may be chosen.
#[derive(Debug, Clone, Copy, PartialEq, Eq, Structural)]
pub enum AllowPrerelease {
    /// Pre-releases may be chosen.
    Yes,
    /// Pre-releases may not be chosen.
    No,
    /// Pre-releases may be chosen where there is no stable version.
    IfNecessary,
}

/// Whether pre-releases of one package may be chosen, in the environments of a marker.
#[derive(Debug, Clone)]
pub struct PrereleaseRule {
    /// The package that the rule is about, and the marker under which it holds.
    pub subject: ForkEntry,
    /// What the rule allows.
    pub allow: AllowPrerelease,
}

impl PrereleaseRule {
    /// What the rule allows for the package `name` in `env`, if it has a say there.
    pub open spec fn verdict(self, name: Seq<char>, env: ResolverEnvironment) -> Option<
        AllowPrerelease,
    > {
        if self.subject.spec_applies(name, env) {
            Some(self.allow)
        } else {
            None
        }
    }
}

/// For which packages pre-releases may be chosen.
#[derive(Debug, Clone)]
pub struct PrereleaseStrategy {
    /// The rules for single packages, of which the first that applies decides.
    pub rules: Vec<PrereleaseRule>,
    /// What holds where no rule applies.
    pub default: AllowPrerelease,
}

impl PrereleaseStrategy {
    /// What each rule in turn has to say of the package `name` in `env`.
    pub open spec fn verdicts(self, name: Seq<char>, env: ResolverEnvironment) -> Seq<
        Option<AllowPrerelease>,
    > {
        self.rules@.map_values(|rule: PrereleaseRule| rule.verdict(name, env))
    }

    /// Whether pre-releases of the package `name` may be chosen in `env`.
    pub open spec fn spec_allows(
        self,
        name: Seq<char>,
        env: ResolverEnvironment,
    ) -> AllowPrerelease {
        match first_some(self.verdicts(name, env)) {
            Some(allow) => allow,
            None => self.default,
        }
    }

    /// Whether pre-releases of the package `name` may be chosen in `env`.
    pub fn allows(&self, name: &PackageName, env: &ResolverEnvironment) -> (allow: AllowPrerelease)
        ensures
            allow == self.spec_allows(name@, *env),
    {
        let ghost verdicts = self.verdicts(name@, *env);
        let mut i: usize = 0;
        while i < self.rules.len()
            invariant
                i <= self.rules.len(),
                verdicts == self.verdicts(name@, *env),
                forall|j: int| 0 <= j < i ==> verdicts[j] is None,
            decreases self.rules.len() - i,
        {
            if self.rules[i].subject.applies(name, env) {
                proof {
                    assert(is_first_some(verdicts, i as int));
                    lemma_first_some_at(verdicts, i as int);
                }
                return self.rules[i].allow;
            }
            i += 1;
        }
        proof {
            lemma_first_some_is_none(verdicts);
        }
        self.default
    }
}

} // verus!
