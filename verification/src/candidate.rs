use vstd::prelude::*;
use crate::distribution::{
    CompatibleDist, IncompatibleDist, IncompatibleSource, IncompatibleWheel, PrioritizedDist,
};
use crate::names::PackageName;
use crate::version::Version;

verus! {

/// The distribution of a candidate, or the reason why it has none that can be used.
#[derive(Debug, Clone, Copy)]
pub enum CandidateDist<'a> {
    /// The candidate can be used.
    Compatible(CompatibleDist<'a>),
    /// The candidate cannot be used.
    Incompatible(IncompatibleDist),
}

impl<'a> CandidateDist<'a> {
    /// Whether the distributions were left out because they were uploaded after the cutoff.
    pub open spec fn spec_is_exclude_newer(self) -> bool {
        match self {
            CandidateDist::Incompatible(
                IncompatibleDist::Source(IncompatibleSource::ExcludeNewer(_)),
            ) => true,
            CandidateDist::Incompatible(
                IncompatibleDist::Wheel(IncompatibleWheel::ExcludeNewer(_)),
            ) => true,
            _ => false,
        }
    }

    /// Whether the distributions were left out because they were uploaded after the cutoff.
    pub fn is_exclude_newer(&self) -> (exclude_newer: bool)
        ensures
            exclude_newer == self.spec_is_exclude_newer(),
    {
        match self {
            CandidateDist::Incompatible(
                IncompatibleDist::Source(IncompatibleSource::ExcludeNewer(_)),
            ) => true,
            CandidateDist::Incompatible(
                IncompatibleDist::Wheel(IncompatibleWheel::ExcludeNewer(_)),
            ) => true,
            _ => false,
        }
    }
}

impl<'a> From<&'a PrioritizedDist> for CandidateDist<'a> {
    fn from(value: &'a PrioritizedDist) -> (dist: CandidateDist<'a>) {
        if let Some(dist) = value.get() {
            CandidateDist::Compatible(dist)
        } else {
            // The source distribution speaks for the version where both kinds are unusable.
            let dist = if let Some(incompatibility) = value.incompatible_source() {
                IncompatibleDist::Source(*incompatibility)
            } else if let Some(incompatibility) = value.incompatible_wheel() {
                IncompatibleDist::Wheel(*incompatibility)
            } else {
                IncompatibleDist::Unavailable
            };
            CandidateDist::Incompatible(dist)
        }
    }
}

impl<'a> vstd::std_specs::convert::FromSpecImpl<&'a PrioritizedDist> for CandidateDist<'a> {
    open spec fn obeys_from_spec() -> bool {
        true
    }

    open spec fn from_spec(value: &'a PrioritizedDist) -> CandidateDist<'a> {
        match (value.best, value.source, value.wheel) {
            (Some(best), _, _) => CandidateDist::Compatible(CompatibleDist::RegistryDist(&best)),
            (None, Some(source), _) => CandidateDist::Incompatible(
                IncompatibleDist::Source(source),
            ),
            (None, None, Some(wheel)) => CandidateDist::Incompatible(
                IncompatibleDist::Wheel(wheel),
            ),
            (None, None, None) => CandidateDist::Incompatible(IncompatibleDist::Unavailable),
        }
    }
}

/// The reason why the version of a candidate was chosen.
#[derive(Debug, Clone, Copy, PartialEq, Eq, Structural)]
pub enum VersionChoiceKind {
    /// A preference from an output file such as `-o requirements.txt` or `uv.lock`.
    Preference,
    /// A preference from an installed version.
    Installed,
    /// The next compatible version in a version map.
    Compatible,
}

impl VersionChoiceKind {
    /// The reason in one word, for messages.
    pub fn as_str(&self) -> (word: &'static str)
        ensures
            word@ == (match self {
                VersionChoiceKind::Preference => "preference"@,
                VersionChoiceKind::Installed => "installed"@,
                VersionChoiceKind::Compatible => "compatible"@,
            }),
    {
        match self {
            VersionChoiceKind::Preference => "preference",
            VersionChoiceKind::Installed => "installed",
            VersionChoiceKind::Compatible => "compatible",
        }
    }
}

/// What tells one release of a package from another.
#[derive(Debug, Clone, Copy)]
pub enum VersionOrUrlRef<'a> {
    /// The version of the release.
    Version(&'a Version),
    /// The address of the release.
    Url(&'a str),
}

/// A version of a package that was chosen, with the distribution to take it from.
#[derive(Debug, Clone, Copy)]
pub struct Candidate<'a> {
    /// The name of the package.
    pub name: &'a PackageName,
    /// The version of the package.
    pub version: &'a Version,
    /// The distributions to use for resolving and installing the package.
    pub dist: CandidateDist<'a>,
    /// Whether this candidate was selected from a preference.
    pub choice_kind: VersionChoiceKind,
}

impl<'a> Candidate<'a> {
    /// The candidate for a version that an index offers.
    pub open spec fn spec_new(
        name: &'a PackageName,
        version: &'a Version,
        dist: &'a PrioritizedDist,
        choice_kind: VersionChoiceKind,
    ) -> Candidate<'a> {
        Candidate {
            name,
            version,
            dist: vstd::std_specs::convert::FromSpec::from_spec(dist),
            choice_kind,
        }
    }

    /// The candidate for a version that an index offers.
    pub fn new(
        name: &'a PackageName,
        version: &'a Version,
        dist: &'a PrioritizedDist,
        choice_kind: VersionChoiceKind,
    ) -> (candidate: Candidate<'a>)
        ensures
            candidate == Candidate::spec_new(name, version, dist, choice_kind),
    {
        Candidate { name, version, dist: CandidateDist::from(dist), choice_kind }
    }

    /// Return the name of the package.
    pub fn name(&self) -> (name: &'a PackageName)
        ensures
            name == self.name,
    {
        self.name
    }

    /// Return the version of the package.
    pub fn version(&self) -> (version: &'a Version)
        ensures
            version == self.version,
    {
        self.version
    }

    /// Return the distribution for the package, if compatible.
    pub fn compatible(&self) -> (dist: Option<&CompatibleDist<'a>>)
        ensures
            dist == (match self.dist {
                CandidateDist::Compatible(dist) => Some(&dist),
                CandidateDist::Incompatible(_) => None,
            }),
    {
        if let CandidateDist::Compatible(dist) = &self.dist {
            Some(dist)
        } else {
            None
        }
    }

    /// Return whether this candidate was selected from a preference.
    pub fn choice_kind(&self) -> (choice_kind: VersionChoiceKind)
        ensures
            choice_kind == self.choice_kind,
    {
        self.choice_kind
    }

    /// Return the distribution for the candidate.
    pub fn dist(&self) -> (dist: &CandidateDist<'a>)
        ensures
            *dist == self.dist,
    {
        &self.dist
    }

    /// Return what tells this candidate from other releases of the package: its version.
    pub fn version_or_url(&self) -> (version_or_url: VersionOrUrlRef<'a>)
        ensures
            version_or_url == VersionOrUrlRef::Version(self.version),
    {
        VersionOrUrlRef::Version(self.version)
    }
}

} // verus!
