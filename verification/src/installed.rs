use vstd::prelude::*;
use crate::distribution::InstalledDist;
use crate::names::PackageName;

verus! {

/// A package that is installed.
#[derive(Debug, Clone)]
pub struct InstalledPackage {
    /// The name of the package.
    pub name: PackageName,
    /// The distribution that is installed.
    pub dist: InstalledDist,
}

/// The packages that are installed. A package may be there more than once.
#[derive(Debug, Clone)]
pub struct InstalledPackages {
    /// The packages.
    pub packages: Vec<InstalledPackage>,
}

impl InstalledPackages {
    /// The distributions of the package `name` that are installed.
    pub open spec fn spec_get_packages<'a>(&'a self, name: Seq<char>) -> Seq<&'a InstalledDist> {
        self.packages@.filter(|package: InstalledPackage| package.name@ == name).map_values(
            |package: InstalledPackage| &package.dist,
        )
    }

    /// Return the distributions of the package `name` that are installed.
    pub fn get_packages<'a>(&'a self, name: &PackageName) -> (dists: Vec<&'a InstalledDist>)
        ensures
            dists@ == self.spec_get_packages(name@),
    {
        let ghost named = |package: InstalledPackage| package.name@ == name@;
        let ghost dist = |package: InstalledPackage| &package.dist;
        let mut dists: Vec<&'a InstalledDist> = Vec::new();
        let mut i: usize = 0;
        while i < self.packages.len()
            invariant
                i <= self.packages.len(),
                named == (|package: InstalledPackage| package.name@ == name@),
                dist == (|package: InstalledPackage| &package.dist),
                dists@ == self.packages@.take(i as int).filter(named).map_values(dist),
            decreases self.packages.len() - i,
        {
            let package = &self.packages[i];
            proof {
                self.packages@.take(i as int).lemma_filter_push(*package, named);
                assert(self.packages@.take(i + 1) == self.packages@.take(i as int).push(*package));
            }
            if package.name == *name {
                dists.push(&package.dist);
            }
            i += 1;
        }
        assert(self.packages@.take(i as int) == self.packages@);
        dists
    }
}

} // verus!
