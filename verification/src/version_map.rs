use pubgrub::Ranges;
use vstd::prelude::*;
use crate::distribution::PrioritizedDist;
use crate::range::{range_contains, range_orders};
use crate::version::Version;

verus! {

/// A version that an index has, with its distributions.
#[derive(Debug, Clone, Copy)]
pub struct VersionMapEntry {
    /// The version.
    pub version: Version,
    /// The distributions of the version, if any of its files is a distribution at all.
    pub dist: Option<PrioritizedDist>,
}

impl VersionMapEntry {
    /// The entry as it is handed out: the version, and the handle to its distributions.
    pub open spec fn item<'a>(&'a self) -> (&'a Version, VersionMapDistHandle<'a>) {
        (&self.version, VersionMapDistHandle { dist: &self.dist })
    }
}

/// A handle to the distributions of a version.
#[derive(Debug, Clone, Copy)]
pub struct VersionMapDistHandle<'a> {
    /// The distributions, if there are any.
    pub dist: &'a Option<PrioritizedDist>,
}

impl<'a> VersionMapDistHandle<'a> {
    /// The distributions of the version, if there are any.
    pub fn prioritized_dist(&self) -> (dist: Option<&'a PrioritizedDist>)
        ensures
            dist == (match *self.dist {
                Some(dist) => Some(&dist),
                None => None,
            }),
    {
        match self.dist {
            Some(dist) => Some(dist),
            None => None,
        }
    }
}

/// Whether `entries` are in the order of their versions, each version occurring once.
pub open spec fn ascending(entries: Seq<VersionMapEntry>) -> bool {
    forall|i: int, j: int|
        0 <= i < j < entries.len() ==> (#[trigger] entries[i]).version.precedes(
            (#[trigger] entries[j]).version,
        )
}

/// The versions of a package that one index has.
#[derive(Debug)]
pub struct VersionMap {
    entries: Vec<VersionMapEntry>,
}

impl View for VersionMap {
    type V = Seq<VersionMapEntry>;

    closed spec fn view(&self) -> Seq<VersionMapEntry> {
        self.entries@
    }
}

impl VersionMap {
    /// A version map is in the order of its versions, each occurring once.
    #[verifier::type_invariant]
    pub open spec fn wf(self) -> bool {
        ascending(self@)
    }

    /// The items of the versions that a range admits, given by their places, lowest first.
    pub open spec fn items<'a>(&'a self, orders: Set<u64>) -> Seq<
        (&'a Version, VersionMapDistHandle<'a>),
    > {
        self@.filter(|entry: VersionMapEntry| orders.contains(entry.version.order)).map_values(
            |entry: VersionMapEntry| entry.item(),
        )
    }

    /// Whether `item` is that of one of the entries.
    pub open spec fn has_item(self, item: (&Version, VersionMapDistHandle)) -> bool {
        exists|k: int| 0 <= k < self@.len() && item == (#[trigger] self@[k]).item()
    }

    /// The items of the versions that a range admits, preferred versions first.
    pub open spec fn preferred_items<'a>(&'a self, orders: Set<u64>, highest: bool) -> Seq<
        (&'a Version, VersionMapDistHandle<'a>),
    > {
        if highest {
            self.items(orders).reverse()
        } else {
            self.items(orders)
        }
    }

    /// The distributions of `version`, if the index has the version and the version has any.
    pub open spec fn spec_get<'a>(&'a self, version: Version) -> Option<&'a PrioritizedDist> {
        if exists|k: int| 0 <= k < self@.len() && (#[trigger] self@[k]).version == version {
            let k = choose|k: int|
                0 <= k < self@.len() && (#[trigger] self@[k]).version == version;
            match self@[k].dist {
                Some(dist) => Some(&dist),
                None => None,
            }
        } else {
            None
        }
    }

    /// Whether any version is stable, that is, not a pre-release.
    pub open spec fn spec_stable(self) -> bool {
        exists|k: int| 0 <= k < self@.len() && !(#[trigger] self@[k]).version.prerelease
    }

    /// The version map of `entries`, if they are in the order of their versions and no version
    /// occurs twice.
    pub fn from_entries(entries: Vec<VersionMapEntry>) -> (map: Option<VersionMap>)
        ensures
            map is Some <==> ascending(entries@),
            map matches Some(map) ==> map@ == entries@,
    {
        let mut i: usize = 1;
        while i < entries.len()
            invariant
                1 <= i,
                i <= entries.len() || i == 1,
                forall|j: int, k: int|
                    0 <= j < k < i && k < entries.len() ==> (
                    #[trigger] entries@[j]).version.precedes((#[trigger] entries@[k]).version),
            decreases entries.len() - i,
        {
            if !entries[i - 1].version.is_before(&entries[i].version) {
                return None;
            }
            assert forall|j: int| 0 <= j < i implies (
            #[trigger] entries@[j]).version.precedes(entries@[i as int].version) by {
                if j < i - 1 {
                    assert(entries@[j].version.precedes(entries@[i - 1].version));
                }
            }
            i += 1;
        }
        Some(VersionMap { entries })
    }

    /// Return the items of the versions that `range` admits, lowest version first.
    pub fn iter<'a>(&'a self, range: &Ranges<u64>) -> (items: Vec<
        (&'a Version, VersionMapDistHandle<'a>),
    >)
        ensures
            items@ == self.items(range_orders(*range)),
    {
        let ghost orders = range_orders(*range);
        let ghost admitted = |entry: VersionMapEntry| orders.contains(entry.version.order);
        let ghost item = |entry: VersionMapEntry| entry.item();
        let mut items: Vec<(&'a Version, VersionMapDistHandle<'a>)> = Vec::new();
        let mut i: usize = 0;
        while i < self.entries.len()
            invariant
                i <= self.entries.len(),
                orders == range_orders(*range),
                admitted == (|entry: VersionMapEntry| orders.contains(entry.version.order)),
                item == (|entry: VersionMapEntry| entry.item()),
                items@ == self@.take(i as int).filter(admitted).map_values(item),
            decreases self.entries.len() - i,
        {
            let entry = &self.entries[i];
            proof {
                self@.take(i as int).lemma_filter_push(*entry, admitted);
                assert(self@.take(i + 1) == self@.take(i as int).push(*entry));
            }
            if range_contains(range, &entry.version) {
                items.push((&entry.version, VersionMapDistHandle { dist: &entry.dist }));
            }
            i += 1;
        }
        assert(self@.take(i as int) == self@);
        items
    }

    /// Return the items of the versions that `range` admits, highest version first if the highest
    /// version is wanted, else lowest version first.
    pub fn iter_preferred<'a>(&'a self, range: &Ranges<u64>, highest: bool) -> (items: Vec<
        (&'a Version, VersionMapDistHandle<'a>),
    >)
        ensures
            items@ == self.preferred_items(range_orders(*range), highest),
    {
        let items = self.iter(range);
        if !highest {
            return items;
        }
        let mut reversed: Vec<(&'a Version, VersionMapDistHandle<'a>)> = Vec::new();
        let mut left: usize = items.len();
        while left > 0
            invariant
                left + reversed.len() == items.len(),
                reversed@ == items@.skip(left as int).reverse(),
            decreases left,
        {
            left -= 1;
            reversed.push(items[left]);
        }
        assert(items@.skip(0) == items@);
        reversed
    }

    /// Return the distributions of `version`, if the index has the version and the version has
    /// any.
    pub fn get<'a>(&'a self, version: &Version) -> (dist: Option<&'a PrioritizedDist>)
        ensures
            dist == self.spec_get(*version),
    {
        proof {
            use_type_invariant(self);
        }
        let mut low: usize = 0;
        let mut high: usize = self.entries.len();
        while low < high
            invariant
                ascending(self@),
                low <= high <= self@.len(),
                forall|k: int| 0 <= k < low ==> (#[trigger] self@[k]).version.precedes(*version),
                forall|k: int|
                    high <= k < self@.len() ==> version.precedes((#[trigger] self@[k]).version),
            decreases high - low,
        {
            let middle: usize = low + (high - low) / 2;
            let entry = &self.entries[middle];
            if entry.version.is_before(version) {
                low = middle + 1;
            } else if version.is_before(&entry.version) {
                high = middle;
            } else {
                assert(self@[middle as int].version == *version);
                let handle = VersionMapDistHandle { dist: &entry.dist };
                return handle.prioritized_dist();
            }
        }
        None
    }

    /// Return whether any version is stable.
    pub fn stable(&self) -> (stable: bool)
        ensures
            stable == self.spec_stable(),
    {
        let mut i: usize = 0;
        while i < self.entries.len()
            invariant
                i <= self.entries.len(),
                forall|k: int| 0 <= k < i ==> (#[trigger] self@[k]).version.prerelease,
            decreases self.entries.len() - i,
        {
            if !self.entries[i].version.any_prerelease() {
                assert(!self@[i as int].version.prerelease);
                return true;
            }
            i += 1;
        }
        false
    }
}

/// Leaving out entries keeps the others in order.
proof fn lemma_filter_ascending(
    entries: Seq<VersionMapEntry>,
    admitted: spec_fn(VersionMapEntry) -> bool,
)
    requires
        ascending(entries),
    ensures
        ascending(entries.filter(admitted)),
    decreases entries.len(),
{
    reveal(Seq::filter);
    if entries.len() > 0 {
        let rest = entries.drop_last();
        lemma_filter_ascending(rest, admitted);
        assert forall|i: int| 0 <= i < rest.filter(admitted).len() implies (
        #[trigger] rest.filter(admitted)[i]).version.precedes(entries.last().version) by {
            rest.lemma_filter_contains_rev(admitted, rest.filter(admitted)[i]);
            let k = rest.index_of(rest.filter(admitted)[i]);
            assert(entries[k].version.precedes(entries[entries.len() - 1].version));
        }
    }
}

/// The items that a version map hands out are those of the entries that the range admits, and
/// each is of a version that is preferred to those after it.
pub(crate) proof fn lemma_preferred_items(map: &VersionMap, orders: Set<u64>, highest: bool)
    requires
        map.wf(),
    ensures
        forall|i: int, j: int|
            0 <= i < j < map.preferred_items(orders, highest).len() ==> (*(
            #[trigger] map.preferred_items(orders, highest)[i]).0).preferred_to(
                *(#[trigger] map.preferred_items(orders, highest)[j]).0,
                highest,
            ),
        forall|i: int|
            0 <= i < map.preferred_items(orders, highest).len() ==> map.has_item(
                #[trigger] map.preferred_items(orders, highest)[i],
            ),
        forall|k: int|
            0 <= k < map@.len() && orders.contains((#[trigger] map@[k]).version.order)
                ==> map.preferred_items(orders, highest).contains(map@[k].item()),
{
    let admitted = |entry: VersionMapEntry| orders.contains(entry.version.order);
    let kept = map@.filter(admitted);
    let items = map.items(orders);
    let preferred = map.preferred_items(orders, highest);
    lemma_filter_ascending(map@, admitted);
    assert(items == kept.map_values(|entry: VersionMapEntry| entry.item()));
    assert forall|i: int, j: int| 0 <= i < j < preferred.len() implies (*(
    #[trigger] preferred[i]).0).preferred_to(*(#[trigger] preferred[j]).0, highest) by {
        if highest {
            let n = kept.len() as int;
            assert(kept[n - 1 - j].version.precedes(kept[n - 1 - i].version));
        } else {
            assert(kept[i].version.precedes(kept[j].version));
        }
    }
    assert forall|i: int| 0 <= i < preferred.len() implies map.has_item(
        #[trigger] preferred[i],
    ) by {
        let place = if highest {
            kept.len() - 1 - i
        } else {
            i
        };
        map@.lemma_filter_contains_rev(admitted, kept[place]);
        let k = map@.index_of(kept[place]);
        assert(map@[k] == kept[place]);
    }
    assert forall|k: int|
        0 <= k < map@.len() && orders.contains((#[trigger] map@[k]).version.order) implies
        preferred.contains(map@[k].item()) by {
        map@.lemma_filter_contains(admitted, k);
        let place = kept.index_of(map@[k]);
        assert(items[place] == map@[k].item());
        if highest {
            assert(preferred[kept.len() - 1 - place] == map@[k].item());
        } else {
            assert(preferred[place] == map@[k].item());
        }
    }
}

} // verus!
