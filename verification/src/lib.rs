//! Choosing the version of a package, and the distribution to take it from.
//!
//! [`selector::CandidateSelector`] makes the choice: from the versions that are preferred, from what
//! is installed, and from what the package indexes have. [`selection`], [`index_choice`] and
//! [`preferred`] say what the right choice is. What follows from that for the choice as a whole is in
//! [`index_laws`] and [`selector_laws`]; what the calls give back, in terms of what the lists and
//! maps that they are handed hold, is in [`model_laws`], [`choice_laws`] and [`source_laws`]. Two
//! calls are left to other crates: [`range`] asks `pubgrub` whether a range admits a version, and
//! [`merge`] has `itertools` merge the versions of several indexes.

pub mod candidate;
pub mod choice_laws;
pub mod distribution;
pub mod environment;
pub mod exclusions;
pub mod first;
pub mod index_choice;
pub mod index_laws;
pub mod installed;
pub mod merge;
pub mod model_laws;
pub mod names;
pub mod preferences;
pub mod preferred;
pub mod range;
pub mod selection;
pub mod selector;
pub mod selector_laws;
pub mod source_laws;
pub mod strategy;
pub mod version;
pub mod version_map;
