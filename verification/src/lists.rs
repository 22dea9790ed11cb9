//! Facts about filtered lists.

use vstd::prelude::*;

verus! {

/// Filtering a list with one more item at its end keeps or drops that item
/// and leaves the rest as it was.
pub proof fn filter_push<A>(s: Seq<A>, x: A, keep: spec_fn(A) -> bool)
    ensures
        s.push(x).filter(keep) == if keep(x) {
            s.filter(keep).push(x)
        } else {
            s.filter(keep)
        },
{
    reveal(Seq::filter);
    assert(s.push(x).drop_last() =~= s);
}

/// Filtering the empty list gives the empty list.
pub proof fn filter_empty<A>(keep: spec_fn(A) -> bool)
    ensures
        Seq::<A>::empty().filter(keep) == Seq::<A>::empty(),
{
    reveal(Seq::filter);
}

/// What a filter keeps are the items of the list that pass the test.
pub proof fn filter_members<A>(s: Seq<A>, keep: spec_fn(A) -> bool)
    ensures
        forall|x: A| s.filter(keep).contains(x) <==> s.contains(x) && keep(x),
{
    let kept = s.filter(keep);
    assert forall|x: A| kept.contains(x) <==> s.contains(x) && keep(x) by {
        if kept.contains(x) {
            let i = choose|i: int| 0 <= i < kept.len() && kept[i] == x;
            s.lemma_filter_pred(keep, i);
            s.lemma_filter_contains_rev(keep, x);
        }
        if s.contains(x) && keep(x) {
            let j = choose|j: int| 0 <= j < s.len() && s[j] == x;
            s.lemma_filter_contains(keep, j);
        }
    }
}

} // verus!
