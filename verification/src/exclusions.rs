use vstd::prelude::*;
use crate::names::PackageName;

verus! {

/// The packages for which installed distributions are not considered.
#[derive(Debug, Clone)]
pub struct Exclusions {
    /// The names of the packages.
    pub packages: Vec<PackageName>,
}

impl Exclusions {
    /// Whether the package `name` is excluded.
    pub open spec fn spec_contains(self, name: Seq<char>) -> bool {
        exists|i: int| 0 <= i < self.packages@.len() && (#[trigger] self.packages@[i])@ == name
    }

    /// Whether the package `name` is excluded.
    pub fn contains(&self, name: &PackageName) -> (contained: bool)
        ensures
            contained == self.spec_contains(name@),
    {
        let mut i: usize = 0;
        while i < self.packages.len()
            invariant
                i <= self.packages.len(),
                forall|j: int| 0 <= j < i ==> (#[trigger] self.packages@[j])@ != name@,
            decreases self.packages.len() - i,
        {
            if self.packages[i] == *name {
                return true;
            }
            i += 1;
        }
        false
    }
}

} // verus!
