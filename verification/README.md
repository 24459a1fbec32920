# candidate_selector

Chooses the version of a package, and the distribution to take it from: the version that a lockfile
or a sibling fork prefers, the one that is installed, or the best that the package indexes have.

- `src/` is the library, verified with Verus. `selector.rs` makes the choice, `selection.rs`,
  `index_choice.rs` and `preferred.rs` say what the right choice is, and `index_laws.rs` and
  `selector_laws.rs` state what holds of it as a whole.
- `tests/` runs the library on concrete versions.

A version is kept as its place in the order of all versions in play, together with whether it is a
pre-release; distributions, markers and reasons are kept as numbers that the caller hands out.

Not proved but taken from other crates: that `pubgrub::Ranges::contains` tells whether a range admits
a version (`src/range.rs`), and that `itertools::Itertools::kmerge_by` merges sorted lists into a sorted
list of the same items (`src/merge.rs`).
