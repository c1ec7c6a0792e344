//! Two notions on sequences that every traversal of a record rests on: the
//! first element with a property, and a weight that shrinks as elements
//! are replaced by lighter ones.

use vstd::prelude::*;

verus! {

/// Whether `i` is the position of the first element of `s` with property
/// `p`.
pub open spec fn is_first<A>(s: Seq<A>, p: spec_fn(A) -> bool, i: int) -> bool {
    &&& 0 <= i < s.len()
    &&& p(s[i])
    &&& forall|k: int| 0 <= k < i ==> !p(#[trigger] s[k])
}

/// The position of the first element of `s` with property `p`, if there
/// is one.
pub open spec fn first_index<A>(s: Seq<A>, p: spec_fn(A) -> bool) -> Option<int> {
    if exists|i: int| is_first(s, p, i) {
        Some(choose|i: int| is_first(s, p, i))
    } else {
        None
    }
}

/// A position that is first is the first position.
pub proof fn lemma_first_index_is<A>(s: Seq<A>, p: spec_fn(A) -> bool, i: int)
    requires
        is_first(s, p, i),
    ensures
        first_index(s, p) == Some(i),
{
    let j = choose|j: int| is_first(s, p, j);
    if j < i {
        assert(!p(s[j]));
    } else if i < j {
        assert(!p(s[i]));
    }
}

/// Where no element has the property there is no first one.
pub proof fn lemma_first_index_none<A>(s: Seq<A>, p: spec_fn(A) -> bool)
    requires
        forall|k: int| 0 <= k < s.len() ==> !p(#[trigger] s[k]),
    ensures
        first_index(s, p) is None,
{
}

/// What `first_index` finds is first, and it finds nothing only where
/// nothing has the property.
pub proof fn lemma_first_index_found<A>(s: Seq<A>, p: spec_fn(A) -> bool)
    ensures
        match first_index(s, p) {
            Some(i) => is_first(s, p, i),
            None => forall|k: int| 0 <= k < s.len() ==> !p(#[trigger] s[k]),
        },
{
    if first_index(s, p) is None {
        assert forall|k: int| 0 <= k < s.len() implies !p(#[trigger] s[k]) by {
            if p(s[k]) {
                lemma_some_is_first(s, p, k);
            }
        }
    }
}

/// Below any element with the property there is a first one.
proof fn lemma_some_is_first<A>(s: Seq<A>, p: spec_fn(A) -> bool, k: int)
    requires
        0 <= k < s.len(),
        p(s[k]),
    ensures
        exists|i: int| is_first(s, p, i),
    decreases k,
{
    if exists|j: int| 0 <= j < k && p(#[trigger] s[j]) {
        let j = choose|j: int| 0 <= j < k && p(#[trigger] s[j]);
        lemma_some_is_first(s, p, j);
    } else {
        assert(is_first(s, p, k));
    }
}

/// The sum of the weights `w` of the elements of `s`.
pub open spec fn weight<A>(s: Seq<A>, w: spec_fn(A) -> nat) -> nat
    decreases s.len(),
{
    if s.len() == 0 {
        0
    } else {
        weight(s.drop_last(), w) + w(s.last())
    }
}

/// Replacing one element by a lighter one makes the sequence lighter.
pub proof fn lemma_weight_update<A>(s: Seq<A>, w: spec_fn(A) -> nat, i: int, x: A)
    requires
        0 <= i < s.len(),
        w(x) < w(s[i]),
    ensures
        weight(s.update(i, x), w) < weight(s, w),
    decreases s.len(),
{
    let t = s.update(i, x);
    if i == s.len() - 1 {
        assert(t.drop_last() =~= s.drop_last());
    } else {
        assert(t.drop_last() =~= s.drop_last().update(i, x));
        lemma_weight_update(s.drop_last(), w, i, x);
    }
}

/// A sequence of weightless elements weighs nothing.
pub proof fn lemma_weight_zero<A>(s: Seq<A>, w: spec_fn(A) -> nat)
    requires
        forall|k: int| 0 <= k < s.len() ==> w(#[trigger] s[k]) == 0,
    ensures
        weight(s, w) == 0,
    decreases s.len(),
{
    if s.len() > 0 {
        lemma_weight_zero(s.drop_last(), w);
    }
}

} // verus!
