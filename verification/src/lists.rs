//! Facts about filtered lists.
use vstd::prelude::*;

verus! {

/// Predicates that agree filter alike.
pub proof fn lemma_filter_agrees<A>(list: Seq<A>, f: spec_fn(A) -> bool, g: spec_fn(A) -> bool)
    requires
        forall|i: int| 0 <= i < list.len() ==> f(#[trigger] list[i]) == g(list[i]),
    ensures
        list.filter(f) == list.filter(g),
    decreases list.len(),
{
    reveal(Seq::filter);
    if list.len() > 0 {
        let rest = list.drop_last();
        assert forall|i: int| 0 <= i < rest.len() implies f(#[trigger] rest[i]) == g(rest[i]) by {
            assert(rest[i] == list[i]);
        }
        lemma_filter_agrees(rest, f, g);
        assert(f(list[list.len() - 1]) == g(list[list.len() - 1]));
    }
}

/// A filter that keeps nothing, and one that keeps everything.
pub proof fn lemma_filter_extremes<A>(list: Seq<A>, f: spec_fn(A) -> bool)
    ensures
        (forall|i: int| 0 <= i < list.len() ==> !f(#[trigger] list[i])) ==> list.filter(f)
            == Seq::<A>::empty(),
        (forall|i: int| 0 <= i < list.len() ==> f(#[trigger] list[i])) ==> list.filter(f) == list,
    decreases list.len(),
{
    reveal(Seq::filter);
    if list.len() > 0 {
        let rest = list.drop_last();
        lemma_filter_extremes(rest, f);
        assert(forall|i: int| 0 <= i < rest.len() ==> #[trigger] rest[i] == list[i]);
        assert(list[list.len() - 1] == list.last());
        assert(rest.push(list.last()) =~= list);
    }
}

} // verus!
