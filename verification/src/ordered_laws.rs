//! What is put in order stays complete.
use crate::ordered::{
    arranged, lemma_ranks_before_asymmetric, lemma_stable_order_exists, ranks_before,
    stable_order_of, Ordered,
};
use vstd::prelude::*;

verus! {

/// Items that are put in the order of their keys are the same items, as many of them, and none
/// stands before another whose key is less.
pub proof fn law_ordering_loses_nothing<K: Ordered, T>(items: Seq<T>, keys: Seq<K::Model>, item: T)
    requires
        items.len() == keys.len(),
    ensures
        ({
            let order = stable_order_of::<K>(keys);
            let sorted = arranged(items, order);
            &&& sorted.len() == items.len()
            &&& sorted.contains(item) <==> items.contains(item)
            &&& forall|p: int|
                0 <= p < order.len() ==> 0 <= #[trigger] order[p] < items.len() && sorted[p]
                    == items[order[p]]
            &&& forall|p: int, q: int|
                0 <= p < q < order.len() ==> !K::less(
                    keys[#[trigger] order[q]],
                    keys[#[trigger] order[p]],
                )
        }),
{
    lemma_stable_order_exists::<K>(keys);
    let order = stable_order_of::<K>(keys);
    let sorted = arranged(items, order);
    assert(order.len() == items.len());
    assert forall|p: int| 0 <= p < order.len() implies 0 <= #[trigger] order[p] < items.len()
        && sorted[p] == items[order[p]] by {}
    if items.contains(item) {
        let i = choose|i: int| 0 <= i < items.len() && items[i] == item;
        assert(order.contains(i));
        let p = choose|p: int| 0 <= p < order.len() && order[p] == i;
        assert(sorted[p] == item);
    }
    if sorted.contains(item) {
        let p = choose|p: int| 0 <= p < sorted.len() && sorted[p] == item;
        assert(items[order[p]] == item);
    }
    assert forall|p: int, q: int| 0 <= p < q < order.len() implies !K::less(
        keys[#[trigger] order[q]],
        keys[#[trigger] order[p]],
    ) by {
        assert(ranks_before::<K>(keys, order[p], order[q]));
        lemma_ranks_before_asymmetric::<K>(keys, order[p], order[q]);
        K::less_irreflexive(keys[order[p]]);
    }
}

} // verus!
