//! Stable sorting of the library's lists.

use std::cmp::Ordering;
use vstd::prelude::*;

verus! {

/// A type whose values are sorted by a strict weak order.
pub trait Ranked: Sized {
    /// `self` has its place before `other`.
    spec fn spec_precedes(&self, other: &Self) -> bool;

    /// Whether `self` has its place before `other`.
    fn precedes(&self, other: &Self) -> (r: bool)
        ensures
            r == self.spec_precedes(other),
    ;

    /// Nothing has its place before itself.
    proof fn lemma_irreflexive(a: &Self)
        ensures
            !a.spec_precedes(a),
    ;

    /// What is before a thing that is before a third is before the third.
    proof fn lemma_transitive(a: &Self, b: &Self, c: &Self)
        requires
            a.spec_precedes(b),
            b.spec_precedes(c),
        ensures
            a.spec_precedes(c),
    ;

    /// To share a place with a thing that shares it with a third is to share
    /// it with the third.
    proof fn lemma_ties_transitive(a: &Self, b: &Self, c: &Self)
        requires
            !a.spec_precedes(b),
            !b.spec_precedes(a),
            !b.spec_precedes(c),
            !c.spec_precedes(b),
        ensures
            !a.spec_precedes(c),
            !c.spec_precedes(a),
    ;
}

/// `after` holds the items of `before`, item `i` of `after` being item
/// `p[i]` of `before`; no item of `after` has its place before an earlier
/// one; and items that share a place stand as they stood in `before`.
pub open spec fn sorts_stably<T>(
    before: Seq<T>,
    after: Seq<T>,
    p: Seq<int>,
    precedes: spec_fn(T, T) -> bool,
) -> bool {
    &&& p.len() == before.len()
    &&& after.len() == before.len()
    &&& forall|i: int|
        0 <= i < p.len() ==> 0 <= #[trigger] p[i] < before.len() && after[i] == before[p[i]]
    &&& forall|i: int, j: int| #![trigger p[i], p[j]] 0 <= i < j < p.len() ==> p[i] != p[j]
    &&& forall|i: int, j: int|
        #![trigger after[i], after[j]]
        0 <= i < j < after.len() ==> !precedes(after[j], after[i])
    &&& forall|i: int, j: int|
        #![trigger after[i], after[j]]
        0 <= i < j < after.len() && !precedes(after[i], after[j]) ==> p[i] < p[j]
}

/// `after` is `before`, sorted stably by the order `precedes`.
pub open spec fn is_stable_sort<T>(
    before: Seq<T>,
    after: Seq<T>,
    precedes: spec_fn(T, T) -> bool,
) -> bool {
    exists|p: Seq<int>| sorts_stably(before, after, p, precedes)
}

/// The order of a ranked type.
pub open spec fn order_of<T: Ranked>() -> spec_fn(T, T) -> bool {
    |a: T, b: T| a.spec_precedes(&b)
}

/// How two values stand to each other in their order.
pub fn ordering_of<T: Ranked>(a: &T, b: &T) -> (r: Ordering)
    ensures
        r is Less <==> a.spec_precedes(b),
        r is Greater <==> !a.spec_precedes(b) && b.spec_precedes(a),
{
    if a.precedes(b) {
        Ordering::Less
    } else if b.precedes(a) {
        Ordering::Greater
    } else {
        Ordering::Equal
    }
}

/// `slice::sort_by` with the order of the items: the list holds the items it
/// held, in order, and items that share a place keep their order.
#[verifier::external_body]
pub(crate) fn stable_sort<T: Ranked>(v: &mut Vec<T>)
    ensures
        is_stable_sort(old(v)@, final(v)@, order_of::<T>()),
{
    v.sort_by(|a, b| ordering_of(a, b));
}

} // verus!
