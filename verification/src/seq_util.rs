//! Small facts about sequences used throughout the crate.

use vstd::prelude::*;

verus! {

/// The index of the first occurrence of `x` in `s` (meaningful when `s` contains `x`).
pub open spec fn first_index<A>(s: Seq<A>, x: A) -> int {
    choose|i: int| 0 <= i < s.len() && s[i] == x && forall|j: int| 0 <= j < i ==> s[j] != x
}

/// `first_index` picks an occurrence with no earlier occurrence.
pub proof fn lemma_first_index<A>(s: Seq<A>, x: A)
    requires
        s.contains(x),
    ensures
        0 <= first_index(s, x) < s.len(),
        s[first_index(s, x)] == x,
        forall|j: int| 0 <= j < first_index(s, x) ==> s[j] != x,
{
    s.index_of_first_ensures(x);
    let w = s.index_of_first(x).unwrap();
    assert(0 <= w < s.len() && s[w] == x && forall|j: int| 0 <= j < w ==> s[j] != x);
}

/// Any occurrence with no earlier occurrence is the first one.
pub proof fn lemma_first_index_unique<A>(s: Seq<A>, x: A, i: int)
    requires
        0 <= i < s.len(),
        s[i] == x,
        forall|j: int| 0 <= j < i ==> s[j] != x,
    ensures
        first_index(s, x) == i,
{
    assert(s.contains(x));
    lemma_first_index(s, x);
    let f = first_index(s, x);
    if f < i {
        assert(s[f] != x);
    } else if i < f {
        assert(s[i] != x);
    }
}

/// The position of the first occurrence of `x` in `s`, if any.
pub fn position_of(s: &[usize], x: usize) -> (r: Option<usize>)
    ensures
        match r {
            Some(i) => s@.contains(x) && i as int == first_index(s@, x),
            None => !s@.contains(x),
        },
{
    let mut i: usize = 0;
    while i < s.len()
        invariant
            i <= s.len(),
            forall|j: int| 0 <= j < i ==> s@[j] != x,
        decreases s.len() - i,
    {
        if s[i] == x {
            proof {
                lemma_first_index_unique(s@, x, i as int);
            }
            return Some(i);
        }
        i = i + 1;
    }
    None
}

} // verus!
