//! Searching lists.

use vstd::prelude::*;

verus! {

/// `i` is the first place in `s` whose item is a `wanted` one.
pub open spec fn is_first<T>(s: Seq<T>, wanted: spec_fn(T) -> bool, i: int) -> bool {
    &&& 0 <= i < s.len()
    &&& wanted(s[i])
    &&& forall|j: int| 0 <= j < i ==> !wanted(#[trigger] s[j])
}

/// The first place in `s` whose item is a `wanted` one, if there is any.
pub open spec fn first<T>(s: Seq<T>, wanted: spec_fn(T) -> bool) -> Option<int> {
    if exists|i: int| is_first(s, wanted, i) {
        Some(choose|i: int| is_first(s, wanted, i))
    } else {
        None
    }
}

/// `s` after its last item has taken the place of the one at `i`.
pub open spec fn swap_removed<T>(s: Seq<T>, i: int) -> Seq<T> {
    s.update(i, s.last()).drop_last()
}

/// There is only one first place.
pub proof fn lemma_first<T>(s: Seq<T>, wanted: spec_fn(T) -> bool, i: int)
    requires
        is_first(s, wanted, i),
    ensures
        first(s, wanted) == Some(i),
{
    let found = choose|found: int| is_first(s, wanted, found);
    assert(is_first(s, wanted, found));
    if found < i {
        assert(!wanted(s[found]));
    } else if i < found {
        assert(!wanted(s[i]));
    }
}

/// Where the search finds a place, it is the first one.
pub proof fn lemma_found<T>(s: Seq<T>, wanted: spec_fn(T) -> bool)
    ensures
        match first(s, wanted) {
            Some(i) => is_first(s, wanted, i),
            None => forall|i: int| 0 <= i < s.len() ==> !wanted(#[trigger] s[i]),
        },
{
    if first(s, wanted) is None {
        assert forall|i: int| 0 <= i < s.len() implies !wanted(#[trigger] s[i]) by {
            if wanted(s[i]) {
                lemma_some_first(s, wanted, i);
            }
        }
    }
}

proof fn lemma_some_first<T>(s: Seq<T>, wanted: spec_fn(T) -> bool, i: int)
    requires
        0 <= i < s.len(),
        wanted(s[i]),
    ensures
        exists|first: int| is_first(s, wanted, first),
    decreases i,
{
    if exists|j: int| 0 <= j < i && wanted(s[j]) {
        let j = choose|j: int| 0 <= j < i && wanted(s[j]);
        lemma_some_first(s, wanted, j);
    } else {
        assert(is_first(s, wanted, i));
    }
}

/// A search finds a wanted item before which there is none, and finds nothing only where there is
/// none at all.
pub proof fn search_finds_the_first<T>(s: Seq<T>, wanted: spec_fn(T) -> bool)
    ensures
        match first(s, wanted) {
            Some(i) => {
                &&& 0 <= i < s.len()
                &&& wanted(s[i])
                &&& forall|j: int| 0 <= j < i ==> !wanted(#[trigger] s[j])
            },
            None => forall|j: int| 0 <= j < s.len() ==> !wanted(#[trigger] s[j]),
        },
{
    lemma_found(s, wanted);
}

/// Where an item is taken out, the last one takes its place, and all others keep theirs.
pub proof fn last_takes_the_place<T>(s: Seq<T>, i: int)
    requires
        0 <= i < s.len(),
    ensures
        swap_removed(s, i).len() == s.len() - 1,
        forall|j: int|
            0 <= j < s.len() - 1 ==> #[trigger] swap_removed(s, i)[j] == s[if j == i {
                s.len() - 1
            } else {
                j
            }],
{
}

} // verus!
