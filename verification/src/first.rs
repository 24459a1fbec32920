use vstd::prelude::*;

verus! {

/// Whether `i` is the first place of `s` that holds a value.
pub open spec fn is_first_some<T>(s: Seq<Option<T>>, i: int) -> bool {
    &&& 0 <= i < s.len()
    &&& s[i] is Some
    &&& forall|j: int| 0 <= j < i ==> s[j] is None
}

/// The first value that `s` holds, if it holds any.
pub open spec fn first_some<T>(s: Seq<Option<T>>) -> Option<T> {
    if exists|i: int| is_first_some(s, i) {
        s[choose|i: int| is_first_some(s, i)]
    } else {
        None
    }
}

/// The first value of `s` is the one at `i`, if nothing before `i` holds one.
pub proof fn lemma_first_some_at<T>(s: Seq<Option<T>>, i: int)
    requires
        is_first_some(s, i),
    ensures
        first_some(s) == s[i],
{
    let k = choose|k: int| is_first_some(s, k);
    assert(is_first_some(s, k));
    if k < i {
        assert(s[k] is None);
    } else if i < k {
        assert(s[i] is None);
    }
}

/// `s` has no first value if and only if it holds none.
pub proof fn lemma_first_some_is_none<T>(s: Seq<Option<T>>)
    ensures
        first_some(s) is None <==> (forall|i: int| 0 <= i < s.len() ==> s[i] is None),
{
    if exists|i: int| is_first_some(s, i) {
        let i = choose|i: int| is_first_some(s, i);
        assert(s[i] is Some);
    } else if exists|i: int| 0 <= i < s.len() && s[i] is Some {
        let i = choose|i: int| 0 <= i < s.len() && s[i] is Some;
        lemma_first_exists(s, i);
    }
}

/// If some place of `s` up to `i` holds a value, there is a first such place.
proof fn lemma_first_exists<T>(s: Seq<Option<T>>, i: int)
    requires
        0 <= i < s.len(),
        s[i] is Some,
    ensures
        exists|k: int| is_first_some(s, k),
    decreases i,
{
    if exists|j: int| 0 <= j < i && s[j] is Some {
        let j = choose|j: int| 0 <= j < i && s[j] is Some;
        lemma_first_exists(s, j);
    } else {
        assert(is_first_some(s, i));
    }
}

} // verus!
