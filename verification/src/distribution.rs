use vstd::prelude::*;
use crate::version::Version;

verus! {

/// A distribution that is installed locally, by the number under which it is kept.
#[derive(Debug, Clone, Copy, PartialEq, Eq, Structural)]
pub struct InstalledDist {
    /// The number of the distribution.
    pub id: u64,
    /// The version that is installed.
    pub version: Version,
}

impl InstalledDist {
    /// The version that is installed.
    pub fn version(&self) -> (version: &Version)
        ensures
            *version == self.version,
    {
        &self.version
    }
}

/// A wheel or source distribution that an index offers, by the number under which it is kept.
#[derive(Debug, Clone, Copy, PartialEq, Eq, Structural)]
pub struct RegistryDist {
    /// The number of the distribution.
    pub id: u64,
}

/// Why a source distribution cannot be used.
#[derive(Debug, Clone, Copy, PartialEq, Eq)]
pub enum IncompatibleSource {
    /// It was uploaded after the cutoff, at the given time where that is known.
    ExcludeNewer(Option<i64>),
    /// For another reason, by the number under which the reason is kept.
    Other(u64),
}

/// Why a wheel cannot be used.
#[derive(Debug, Clone, Copy, PartialEq, Eq)]
pub enum IncompatibleWheel {
    /// It was uploaded after the cutoff, at the given time where that is known.
    ExcludeNewer(Option<i64>),
    /// For another reason, by the number under which the reason is kept.
    Other(u64),
}

/// Why no distribution of a version can be used.
#[derive(Debug, Clone, Copy, PartialEq, Eq)]
pub enum IncompatibleDist {
    /// The source distribution cannot be used.
    Source(IncompatibleSource),
    /// The wheel cannot be used.
    Wheel(IncompatibleWheel),
    /// There is no distribution.
    Unavailable,
}

/// A distribution that can be used.
#[derive(Debug, Clone, Copy, PartialEq, Eq)]
pub enum CompatibleDist<'a> {
    /// One that is installed locally.
    InstalledDist(&'a InstalledDist),
    /// One that an index offers.
    RegistryDist(&'a RegistryDist),
}

/// The distributions of one version on one index, with the best of them singled out.
#[derive(Debug, Clone, Copy, PartialEq, Eq)]
pub struct PrioritizedDist {
    /// The best distribution that can be used, if there is any.
    pub best: Option<RegistryDist>,
    /// Why the source distribution cannot be used, if there is one that cannot.
    pub source: Option<IncompatibleSource>,
    /// Why the best wheel cannot be used, if there is one that cannot.
    pub wheel: Option<IncompatibleWheel>,
}

impl PrioritizedDist {
    /// The best distribution that can be used, if there is any.
    pub fn get(&self) -> (dist: Option<CompatibleDist<'_>>)
        ensures
            dist == (match self.best {
                Some(best) => Some(CompatibleDist::RegistryDist(&best)),
                None => None,
            }),
    {
        match &self.best {
            Some(best) => Some(CompatibleDist::RegistryDist(best)),
            None => None,
        }
    }

    /// Why the source distribution cannot be used, if there is one that cannot.
    pub fn incompatible_source(&self) -> (reason: Option<&IncompatibleSource>)
        ensures
            reason == (match self.source {
                Some(source) => Some(&source),
                None => None,
            }),
    {
        match &self.source {
            Some(source) => Some(source),
            None => None,
        }
    }

    /// Why the best wheel cannot be used, if there is one that cannot.
    pub fn incompatible_wheel(&self) -> (reason: Option<&IncompatibleWheel>)
        ensures
            reason == (match self.wheel {
                Some(wheel) => Some(&wheel),
                None => None,
            }),
    {
        match &self.wheel {
            Some(wheel) => Some(wheel),
            None => None,
        }
    }
}

} // verus!
