//! Putting things that have a name in the order of their names.

use vstd::prelude::*;
use crate::lists;
use crate::text;
use crate::text::in_order;

verus! {

/// A thing that is ordered by its name.
pub trait Named: Sized {
    /// The name.
    spec fn key(&self) -> Seq<char>;

    /// Gives the name.
    fn name(&self) -> (name: &str)
        ensures
            name@ == self.key(),
    ;
}

impl Named for String {
    open spec fn key(&self) -> Seq<char> {
        self@
    }

    fn name(&self) -> (name: &str) {
        self.as_str()
    }
}

/// Whether the things stand in the order of their names.
pub open spec fn sorted<T: Named>(items: Seq<T>) -> bool {
    forall|i: int, j: int|
        0 <= i < j < items.len() ==> in_order(
            (#[trigger] items[i]).key(),
            (#[trigger] items[j]).key(),
        )
}

/// The things of the name `key`, in the order in which they stand.
pub open spec fn named<T: Named>(items: Seq<T>, key: Seq<char>) -> Seq<T> {
    items.filter(has_name(key))
}

/// Tells things of the name `key` from others.
pub open spec fn has_name<T: Named>(key: Seq<char>) -> spec_fn(T) -> bool {
    |item: T| item.key() == key
}

/// Whether `after` holds the things of `before` in the order of their names,
/// and things of one name in the order that they had.
pub open spec fn sorts<T: Named>(before: Seq<T>, after: Seq<T>) -> bool {
    &&& sorted(after)
    &&& after.to_multiset() == before.to_multiset()
    &&& forall|key: Seq<char>| #[trigger] named(after, key) == named(before, key)
}

/// A thing that goes in behind all of its name comes last among them.
proof fn lemma_insert<T: Named>(items: Seq<T>, at: int, item: T)
    requires
        sorted(items),
        0 <= at <= items.len(),
        forall|i: int| 0 <= i < at ==> in_order((#[trigger] items[i]).key(), item.key()),
        forall|i: int| at <= i < items.len() ==> !in_order((#[trigger] items[i]).key(), item.key()),
    ensures
        sorted(items.insert(at, item)),
        items.insert(at, item).to_multiset() == items.to_multiset().insert(item),
        forall|key: Seq<char>|
            #[trigger] named(items.insert(at, item), key) == named(items.push(item), key),
{
    let after = items.insert(at, item);
    let front = items.take(at);
    let back = items.skip(at);
    assert(items == front + back);
    assert(after == front + seq![item] + back);
    assert forall|i: int, j: int| 0 <= i < j < after.len() implies in_order(
        (#[trigger] after[i]).key(),
        (#[trigger] after[j]).key(),
    ) by {
        if i == at {
            assert(after[j] == items[j - 1]);
            text::lemma_order_total(items[j - 1].key(), item.key());
        } else if j == at {
            assert(after[i] == items[i]);
        } else {
            let a = if i < at {
                i
            } else {
                i - 1
            };
            let b = if j < at {
                j
            } else {
                j - 1
            };
            assert(after[i] == items[a]);
            assert(after[j] == items[b]);
        }
    }
    assert(after.to_multiset() == items.to_multiset().insert(item)) by {
        broadcast use vstd::seq_lib::group_to_multiset_ensures;

        assert(after.remove(at) =~= items);
        assert(after[at] == item);
        assert(after.to_multiset().remove(item) =~= items.to_multiset());
        assert(after.contains(item));
        assert(after.to_multiset().count(item) > 0);
        assert(after.to_multiset() =~= after.to_multiset().remove(item).insert(item));
    }
    assert forall|key: Seq<char>| #[trigger]
        named(after, key) == named(items.push(item), key) by {
        let p = has_name::<T>(key);
        Seq::filter_distributes_over_add(front + seq![item], back, p);
        Seq::filter_distributes_over_add(front, seq![item], p);
        Seq::filter_distributes_over_add(front, back, p);
        Seq::filter_distributes_over_add(items, seq![item], p);
        assert(items.push(item) == items + seq![item]);
        if key == item.key() {
            assert(back.filter(p) == Seq::<T>::empty()) by {
                text::lemma_order_reflexive(key);
                assert forall|i: int| 0 <= i < back.len() implies !p(#[trigger] back[i]) by {
                    assert(back[i] == items[at + i]);
                }
                back.lemma_all_neg_filter_empty(p);
            }
            assert(named(after, key) =~= named(items.push(item), key));
        } else {
            assert(seq![item].filter(p) == Seq::<T>::empty()) by {
                seq![item].lemma_all_neg_filter_empty(p);
            }
            assert(named(after, key) =~= named(items.push(item), key));
        }
    }
}

/// Puts `items` in the order of their names; things of one name keep their
/// order.
pub fn sort_by_name<T: Named>(items: Vec<T>) -> (result: Vec<T>)
    ensures
        sorts(items@, result@),
{
    let ghost all = items@;
    let mut rest = items;
    let mut result: Vec<T> = Vec::new();
    let ghost mut done: int = 0;
    assert(all.skip(0) == all);
    assert(all.take(0) == Seq::<T>::empty());
    while rest.len() > 0
        invariant
            0 <= done <= all.len(),
            rest@ == all.skip(done),
            sorts(all.take(done), result@),
        decreases rest.len(),
    {
        let item = rest.remove(0);
        let mut at: usize = result.len();
        while at > 0 && !text::ordered(result[at - 1].name(), item.name())
            invariant
                at <= result.len(),
                sorted(result@),
                forall|i: int|
                    at <= i < result.len() ==> !in_order(
                        (#[trigger] result@[i]).key(),
                        item.key(),
                    ),
            decreases at,
        {
            at = at - 1;
        }
        proof {
            assert forall|i: int| 0 <= i < at implies in_order(
                (#[trigger] result@[i]).key(),
                item.key(),
            ) by {
                if i < at - 1 {
                    text::lemma_order_transitive(
                        result@[i].key(),
                        result@[at - 1].key(),
                        item.key(),
                    );
                }
            }
            lemma_insert(result@, at as int, item);
            broadcast use vstd::seq_lib::group_to_multiset_ensures;

            let before = all.take(done);
            lists::lemma_take_next(all, done);
            assert forall|key: Seq<char>| #[trigger]
                named(result@.insert(at as int, item), key) == named(before.push(item), key) by {
                let p = has_name::<T>(key);
                assert(named(result@, key) == named(before, key));
                Seq::filter_distributes_over_add(result@, seq![item], p);
                Seq::filter_distributes_over_add(before, seq![item], p);
                assert(result@.push(item) == result@ + seq![item]);
                assert(before.push(item) == before + seq![item]);
            }
            done = done + 1;
        }
        result.insert(at, item);
    }
    assert(all.take(done) == all);
    result
}

/// Sorting keeps all things, puts them in the order of their names, and leaves
/// things of one name in the order that they had.
pub proof fn law_sorting_keeps_all_things<T: Named>(
    items: Vec<T>,
    result: Vec<T>,
    key: Seq<char>,
    is_called: spec_fn(T) -> bool,
)
    requires
        forall|item: T| #[trigger] is_called(item) <==> item.key() == key,
        call_ensures(sort_by_name::<T>, (items,), result),
    ensures
        result@.len() == items@.len(),
        result@.to_multiset() == items@.to_multiset(),
        forall|i: int, j: int|
            0 <= i < j < result@.len() ==> in_order(
                (#[trigger] result@[i]).key(),
                (#[trigger] result@[j]).key(),
            ),
        result@.filter(is_called) == items@.filter(is_called),
{
    broadcast use vstd::seq_lib::group_to_multiset_ensures;

    assert(result@.to_multiset().len() == items@.to_multiset().len());
    assert(is_called =~= has_name::<T>(key));
    assert(named(result@, key) == named(items@, key));
}

} // verus!
