//! Small facts about sequences that the loops of this crate lean on.

use vstd::prelude::*;

verus! {

/// The sequences `f(0)`, `f(1)`, ... up to, not including, `f(n)`, one
/// after the other.
pub open spec fn concat<A>(n: nat, f: spec_fn(int) -> Seq<A>) -> Seq<A> {
    Seq::new(n, f).flatten()
}

/// `concat` of nothing is empty, and `concat` of one more part appends that
/// part.
pub proof fn lemma_concat_step<A>(n: nat, f: spec_fn(int) -> Seq<A>)
    ensures
        concat(0, f) == Seq::<A>::empty(),
        concat(n + 1, f) == concat(n, f) + f(n as int),
{
    assert(Seq::new(0, f).flatten() == Seq::<A>::empty());
    assert(Seq::new(n + 1, f) =~= Seq::new(n, f).push(f(n as int)));
    Seq::new(n, f).lemma_flatten_push(f(n as int));
}

/// Filtering no element of a sequence gives the empty sequence.
pub proof fn lemma_filter_nothing<A>(s: Seq<A>, pred: spec_fn(A) -> bool)
    ensures
        s.take(0).filter(pred) == Seq::<A>::empty(),
{
    reveal(Seq::filter);
    assert(s.take(0).filter(pred) == Seq::<A>::empty());
}

/// Filtering one more element of a sequence either appends that element or
/// changes nothing.
pub proof fn lemma_filter_step<A>(s: Seq<A>, pred: spec_fn(A) -> bool, i: int)
    requires
        0 <= i < s.len(),
    ensures
        s.take(i + 1).filter(pred) == if pred(s[i]) {
            s.take(i).filter(pred).push(s[i])
        } else {
            s.take(i).filter(pred)
        },
{
    reveal(Seq::filter);
    assert(s.take(i + 1).drop_last() == s.take(i));
}

} // verus!
