//! Going through a list from its front.

use vstd::prelude::*;

verus! {

/// Taking the first of what is left of a list: it is the one whose turn has
/// come, and it goes behind those that were taken before.
pub proof fn lemma_take_next<T>(all: Seq<T>, done: int)
    requires
        0 <= done < all.len(),
    ensures
        all.skip(done)[0] == all[done],
        all.skip(done).remove(0) == all.skip(done + 1),
        all.take(done + 1) == all.take(done).push(all[done]),
        all.take(done + 1).drop_last() == all.take(done),
{
    assert(all.skip(done).remove(0) =~= all.skip(done + 1));
    assert(all.take(done + 1) =~= all.take(done).push(all[done]));
    assert(all.take(done + 1).drop_last() =~= all.take(done));
}

/// One thing more at the end of a list that is filtered.
pub proof fn lemma_filter_push<T>(list: Seq<T>, item: T, p: spec_fn(T) -> bool)
    ensures
        list.push(item).filter(p) == if p(item) {
            list.filter(p).push(item)
        } else {
            list.filter(p)
        },
{
    reveal(Seq::filter);
    assert(list.push(item).drop_last() =~= list);
}

/// Lists of the same things hold as many of a sort.
pub proof fn lemma_same_things<T>(a: Seq<T>, b: Seq<T>, p: spec_fn(T) -> bool)
    requires
        a.to_multiset() == b.to_multiset(),
    ensures
        a.filter(p).len() == b.filter(p).len(),
{
    broadcast use vstd::seq_lib::group_to_multiset_ensures;

    lemma_filtered_things(a, p);
    lemma_filtered_things(b, p);
    assert(a.filter(p).to_multiset().len() == a.filter(p).len());
    assert(b.filter(p).to_multiset().len() == b.filter(p).len());
}

/// The things of a filtered list are those of the list that pass.
proof fn lemma_filtered_things<T>(list: Seq<T>, p: spec_fn(T) -> bool)
    ensures
        list.filter(p).to_multiset() == list.to_multiset().filter(p),
    decreases list.len(),
{
    broadcast use vstd::seq_lib::group_to_multiset_ensures;
    broadcast use vstd::multiset::group_multiset_axioms;

    if list.len() == 0 {
        reveal(Seq::filter);
        assert(list.filter(p) =~= Seq::<T>::empty());
        assert(list =~= Seq::<T>::empty());
        assert(list.filter(p).to_multiset() =~= list.to_multiset().filter(p));
    } else {
        let front = list.drop_last();
        let item = list.last();
        lemma_filtered_things(front, p);
        lemma_filter_push(front, item, p);
        assert(list =~= front.push(item));
        assert(list.to_multiset() =~= front.to_multiset().insert(item));
        assert(list.filter(p).to_multiset() =~= list.to_multiset().filter(p));
    }
}

} // verus!
