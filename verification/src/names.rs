use vstd::prelude::*;

verus! {

/// The normalized name of a package.
#[derive(Debug, Clone)]
pub struct PackageName {
    /// The name itself.
    pub name: String,
}

impl View for PackageName {
    type V = Seq<char>;

    open spec fn view(&self) -> Seq<char> {
        self.name@
    }
}

impl PartialEq for PackageName {
    fn eq(&self, other: &PackageName) -> (equal: bool) {
        self.name == other.name
    }
}

impl vstd::std_specs::cmp::PartialEqSpecImpl for PackageName {
    open spec fn obeys_eq_spec() -> bool {
        true
    }

    open spec fn eq_spec(&self, other: &PackageName) -> bool {
        self@ == other@
    }
}

impl Eq for PackageName {

}

/// The address of a package index.
#[derive(Debug, Clone)]
pub struct IndexUrl {
    /// The address itself.
    pub url: String,
}

impl View for IndexUrl {
    type V = Seq<char>;

    open spec fn view(&self) -> Seq<char> {
        self.url@
    }
}

impl PartialEq for IndexUrl {
    fn eq(&self, other: &IndexUrl) -> (equal: bool) {
        self.url == other.url
    }
}

impl vstd::std_specs::cmp::PartialEqSpecImpl for IndexUrl {
    open spec fn obeys_eq_spec() -> bool {
        true
    }

    open spec fn eq_spec(&self, other: &IndexUrl) -> bool {
        self@ == other@
    }
}

impl Eq for IndexUrl {

}

} // verus!
