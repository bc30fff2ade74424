//! Facts about what a filter keeps of a sequence.

use vstd::prelude::*;

verus! {

/// Appending one element to a sequence appends it to what a filter keeps of
/// the sequence, or leaves that unchanged.
pub proof fn lemma_filter_push<A>(s: Seq<A>, x: A, keep: spec_fn(A) -> bool)
    ensures
        s.push(x).filter(keep) == if keep(x) {
            s.filter(keep).push(x)
        } else {
            s.filter(keep)
        },
{
    reveal(Seq::filter);
    assert(s.push(x).drop_last() =~= s);
}

/// A filter keeps nothing of a sequence in which no element passes it.
pub proof fn lemma_filter_none<A>(s: Seq<A>, keep: spec_fn(A) -> bool)
    requires
        forall|i: int| 0 <= i < s.len() ==> !keep(#[trigger] s[i]),
    ensures
        s.filter(keep) == Seq::<A>::empty(),
    decreases s.len(),
{
    reveal(Seq::filter);
    if s.len() > 0 {
        lemma_filter_none(s.drop_last(), keep);
    }
}

/// An element that passes a filter occurs as often in what the filter keeps
/// as in the sequence itself.
pub proof fn lemma_filter_count<A>(s: Seq<A>, keep: spec_fn(A) -> bool, x: A)
    requires
        keep(x),
    ensures
        s.filter(keep).to_multiset().count(x) == s.to_multiset().count(x),
    decreases s.len(),
{
    broadcast use vstd::seq_lib::group_to_multiset_ensures;

    reveal(Seq::filter);
    if s.len() > 0 {
        let front = s.drop_last();
        lemma_filter_count(front, keep, x);
        assert(s =~= front.push(s.last()));
    }
}

} // verus!
