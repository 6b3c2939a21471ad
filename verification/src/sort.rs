//! Sorting by an order of the items.

use vstd::prelude::*;
#[allow(unused_imports)]
use vstd::multiset::Multiset;

verus! {

/// Items with a strict weak order.
pub trait Sortable: Sized {
    /// Whether this item goes before the other.
    spec fn goes_before(&self, other: &Self) -> bool;

    /// Compares two items.
    fn is_before(&self, other: &Self) -> (res: bool)
        ensures
            res == self.goes_before(other),
    ;

    /// Two items do not go before each other.
    proof fn asymmetric(a: &Self, b: &Self)
        requires
            a.goes_before(b),
        ensures
            !b.goes_before(a),
    ;

    /// What does not go before an item does not go before what that item does
    /// not go before.
    proof fn negatively_transitive(a: &Self, b: &Self, c: &Self)
        requires
            !a.goes_before(b),
            !b.goes_before(c),
        ensures
            !a.goes_before(c),
    ;
}

/// Whether no item goes before an earlier one.
pub open spec fn is_sorted<T: Sortable>(items: Seq<T>) -> bool {
    forall|i: int, j: int|
        #![trigger items[i], items[j]]
        0 <= i < j < items.len() ==> !items[j].goes_before(&items[i])
}

/// Puts one item behind those that it does not go before.
fn insert_sorted<T: Sortable>(items: &mut Vec<T>, item: T)
    requires
        is_sorted(old(items)@),
    ensures
        is_sorted(final(items)@),
        final(items)@.to_multiset() == old(items)@.to_multiset().insert(item),
{
    let ghost before = items@;
    let mut at: usize = items.len();
    while at > 0 && item.is_before(&items[at - 1])
        invariant
            at <= items@.len(),
            items@ == before,
            is_sorted(before),
            forall|j: int|
                #![trigger items@[j]]
                at <= j < items@.len() ==> item.goes_before(&items@[j]),
        decreases at,
    {
        at -= 1;
    }
    items.insert(at, item);
    proof {
        vstd::seq_lib::to_multiset_insert(before, at as int, item);
        assert forall|i: int, j: int|
            #![trigger items@[i], items@[j]]
            0 <= i < j < items@.len() implies !items@[j].goes_before(&items@[i]) by {
            if i == at {
                assert(items@[j] == before[j - 1]);
                T::asymmetric(&item, &before[j - 1]);
            } else if j == at {
                assert(items@[i] == before[i]);
                if i < at - 1 {
                    assert(!before[at - 1].goes_before(&before[i]));
                    T::negatively_transitive(&item, &before[at - 1], &before[i]);
                }
            } else {
                let oi = if i < at {
                    i
                } else {
                    i - 1
                };
                let oj = if j < at {
                    j
                } else {
                    j - 1
                };
                assert(!before[oj].goes_before(&before[oi]));
            }
        }
    }
}

/// Sorts the items.
pub fn sort<T: Sortable>(items: Vec<T>) -> (res: Vec<T>)
    ensures
        is_sorted(res@),
        res@.to_multiset() == items@.to_multiset(),
{
    let ghost all = items@.to_multiset();
    let mut rest = items;
    let mut out: Vec<T> = Vec::new();
    proof {
        broadcast use vstd::seq_lib::group_to_multiset_ensures;

        assert(out@.to_multiset() =~= Multiset::empty());
        assert(out@.to_multiset().add(rest@.to_multiset()) =~= all);
    }
    while rest.len() > 0
        invariant
            is_sorted(out@),
            out@.to_multiset().add(rest@.to_multiset()) == all,
        decreases rest@.len(),
    {
        let ghost before = rest@;
        let ghost held = out@.to_multiset();
        let item = rest.remove(0);
        insert_sorted(&mut out, item);
        proof {
            vstd::seq_lib::to_multiset_remove(before, 0);
            assert(before[0] == item);
            broadcast use vstd::seq_lib::group_to_multiset_ensures;

            assert(before.contains(item));
            assert(before.to_multiset().count(item) > 0);
            assert(rest@ =~= before.remove(0));
            assert(held.insert(item).add(before.to_multiset().remove(item)) =~= held.add(
                before.to_multiset(),
            ));
        }
    }
    proof {
        broadcast use vstd::seq_lib::group_to_multiset_ensures;

        assert(rest@ =~= Seq::<T>::empty());
        assert(rest@.to_multiset() =~= Multiset::empty());
        assert(out@.to_multiset().add(rest@.to_multiset()) =~= out@.to_multiset());
    }
    out
}

} // verus!
