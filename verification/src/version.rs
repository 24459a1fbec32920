use vstd::prelude::*;

verus! {

/// A version of a package, reduced to what choosing between versions takes.
///
/// `order` is the place of the version in the total order of the versions in play: equal versions
/// share a number, and a later version has a higher one.
#[derive(Debug, Clone, Copy, PartialEq, Eq, Structural)]
pub struct Version {
    /// The place of this version in the order of versions.
    pub order: u64,
    /// Whether this is an alpha, beta, release candidate or development release.
    pub prerelease: bool,
}

impl Version {
    /// Whether `self` comes strictly before `other`.
    ///
    /// Should a pre-release and a stable version be given the same number, the pre-release is the
    /// earlier one, so that any two versions that differ are ordered.
    pub open spec fn precedes(self, other: Version) -> bool {
        self.order < other.order || (self.order == other.order && self.prerelease
            && !other.prerelease)
    }

    /// Whether `self` is to be tried before `other`: a later version where the highest version is
    /// wanted, an earlier one where the lowest is.
    pub open spec fn preferred_to(self, other: Version, highest: bool) -> bool {
        if highest {
            other.precedes(self)
        } else {
            self.precedes(other)
        }
    }

    /// Whether this version is a pre-release.
    pub fn any_prerelease(&self) -> (prerelease: bool)
        ensures
            prerelease == self.prerelease,
    {
        self.prerelease
    }

    /// Whether this version comes strictly before `other`.
    pub fn is_before(&self, other: &Version) -> (before: bool)
        ensures
            before == self.precedes(*other),
    {
        self.order < other.order || (self.order == other.order && self.prerelease
            && !other.prerelease)
    }
}

} // verus!
