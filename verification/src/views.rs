//! How the plain-value view of a vector follows its growth.

use vstd::prelude::*;

verus! {

/// Pushing an element pushes its view.
pub proof fn lemma_push_deep_view<T: DeepView>(before: Vec<T>, after: Vec<T>, x: T)
    requires
        after@ == before@.push(x),
    ensures
        after.deep_view() == before.deep_view().push(x.deep_view()),
{
    assert(after.deep_view() =~= before.deep_view().push(x.deep_view()));
}

/// A slice and a vector with the same elements have the same view.
pub proof fn lemma_slice_deep_view<T: DeepView>(slice: &[T], vec: Vec<T>)
    requires
        slice@ == vec@,
    ensures
        slice.deep_view() == vec.deep_view(),
{
    assert(slice.deep_view() =~= vec.deep_view());
}

/// Filtering a sequence with one more element keeps that element exactly
/// when the predicate holds of it.
pub proof fn lemma_filter_push<A>(s: Seq<A>, x: A, pred: spec_fn(A) -> bool)
    ensures
        s.push(x).filter(pred) == if pred(x) {
            s.filter(pred).push(x)
        } else {
            s.filter(pred)
        },
{
    reveal(Seq::filter);
    assert(s.push(x).drop_last() =~= s);
}

/// Filtering the empty sequence leaves it empty.
pub proof fn lemma_filter_empty<A>(pred: spec_fn(A) -> bool)
    ensures
        Seq::<A>::empty().filter(pred) == Seq::<A>::empty(),
{
    reveal(Seq::filter);
}

} // verus!
