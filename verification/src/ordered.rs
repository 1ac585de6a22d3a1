//! Total orders on keys, and stable sorting by them.
use vstd::prelude::*;

verus! {

/// How one key stands to another.
#[derive(Clone, Copy, Debug, PartialEq, Eq, Structural)]
pub enum Relation {
    Before,
    Same,
    After,
}

/// A key with a strict total order on its mathematical model.
pub trait Ordered: Sized {
    type Model;

    /// The value that the order speaks of.
    spec fn model(&self) -> Self::Model;

    /// The strict order.
    spec fn less(a: Self::Model, b: Self::Model) -> bool;

    proof fn less_irreflexive(a: Self::Model)
        ensures
            !Self::less(a, a),
    ;

    proof fn less_transitive(a: Self::Model, b: Self::Model, c: Self::Model)
        requires
            Self::less(a, b),
            Self::less(b, c),
        ensures
            Self::less(a, c),
    ;

    proof fn less_total(a: Self::Model, b: Self::Model)
        ensures
            Self::less(a, b) || a == b || Self::less(b, a),
    ;

    fn relation(&self, other: &Self) -> (relation: Relation)
        ensures
            match relation {
                Relation::Before => Self::less(self.model(), other.model()),
                Relation::Same => self.model() == other.model(),
                Relation::After => Self::less(other.model(), self.model()),
            },
    ;
}

impl Ordered for u64 {
    type Model = u64;

    open spec fn model(&self) -> u64 {
        *self
    }

    open spec fn less(a: u64, b: u64) -> bool {
        a < b
    }

    proof fn less_irreflexive(a: u64) {
    }

    proof fn less_transitive(a: u64, b: u64, c: u64) {
    }

    proof fn less_total(a: u64, b: u64) {
    }

    fn relation(&self, other: &Self) -> (relation: Relation) {
        if *self < *other {
            Relation::Before
        } else if *self > *other {
            Relation::After
        } else {
            Relation::Same
        }
    }
}

impl Ordered for u32 {
    type Model = u32;

    open spec fn model(&self) -> u32 {
        *self
    }

    open spec fn less(a: u32, b: u32) -> bool {
        a < b
    }

    proof fn less_irreflexive(a: u32) {
    }

    proof fn less_transitive(a: u32, b: u32, c: u32) {
    }

    proof fn less_total(a: u32, b: u32) {
    }

    fn relation(&self, other: &Self) -> (relation: Relation) {
        if *self < *other {
            Relation::Before
        } else if *self > *other {
            Relation::After
        } else {
            Relation::Same
        }
    }
}

/// The models of a sequence of keys.
pub open spec fn models<K: Ordered>(keys: Seq<K>) -> Seq<K::Model> {
    Seq::new(keys.len(), |i: int| keys[i].model())
}

/// Index `i` comes before index `j` when its key is smaller, or equal and earlier.
pub open spec fn ranks_before<K: Ordered>(keys: Seq<K::Model>, i: int, j: int) -> bool {
    K::less(keys[i], keys[j]) || (keys[i] == keys[j] && i < j)
}

/// `order` lists every index below `len` exactly once.
pub open spec fn is_arrangement(len: nat, order: Seq<int>) -> bool {
    &&& order.len() == len
    &&& forall|p: int| 0 <= p < order.len() ==> 0 <= #[trigger] order[p] < len
    &&& forall|p: int, q: int| 0 <= p < q < order.len() ==> order[p] != order[q]
    &&& forall|i: int| 0 <= i < len ==> #[trigger] order.contains(i)
}

/// Machine indices as integers.
pub open spec fn indices(order: Seq<usize>) -> Seq<int> {
    order.map_values(|i: usize| i as int)
}

/// `order` is the stable ascending order of `keys`; there is exactly one.
pub open spec fn is_stable_order<K: Ordered>(keys: Seq<K::Model>, order: Seq<int>) -> bool {
    &&& is_arrangement(keys.len(), order)
    &&& forall|p: int, q: int|
        0 <= p < q < order.len() ==> ranks_before::<K>(keys, order[p], order[q])
}

/// `order` is the stable order of the first `n` keys.
pub open spec fn is_stable_prefix<K: Ordered>(
    keys: Seq<K::Model>,
    order: Seq<int>,
    n: int,
) -> bool {
    &&& is_arrangement(n as nat, order)
    &&& forall|p: int, q: int|
        0 <= p < q < order.len() ==> ranks_before::<K>(keys, order[p], order[q])
}

pub proof fn lemma_ranks_before_transitive<K: Ordered>(
    keys: Seq<K::Model>,
    i: int,
    j: int,
    k: int,
)
    requires
        ranks_before::<K>(keys, i, j),
        ranks_before::<K>(keys, j, k),
    ensures
        ranks_before::<K>(keys, i, k),
{
    if K::less(keys[i], keys[j]) && K::less(keys[j], keys[k]) {
        K::less_transitive(keys[i], keys[j], keys[k]);
    }
}

pub proof fn lemma_ranks_before_asymmetric<K: Ordered>(keys: Seq<K::Model>, i: int, j: int)
    requires
        ranks_before::<K>(keys, i, j),
    ensures
        !ranks_before::<K>(keys, j, i),
{
    if ranks_before::<K>(keys, j, i) {
        lemma_ranks_before_transitive::<K>(keys, i, j, i);
        K::less_irreflexive(keys[i]);
    }
}

/// Inserting index `n` after every smaller or equal key extends the stable order.
proof fn lemma_insert_extends<K: Ordered>(
    keys: Seq<K::Model>,
    order: Seq<int>,
    n: int,
    at: int,
)
    requires
        0 <= n < keys.len(),
        is_stable_prefix::<K>(keys, order, n),
        0 <= at <= order.len(),
        at > 0 ==> !K::less(keys[n], keys[order[at - 1]]),
        forall|p: int| at <= p < order.len() ==> K::less(keys[n], keys[#[trigger] order[p]]),
    ensures
        is_stable_prefix::<K>(keys, order.insert(at, n), n + 1),
{
    let next = order.insert(at, n);
    assert forall|p: int| 0 <= p < at implies ranks_before::<K>(
        keys,
        #[trigger] order[p],
        n,
    ) by {
        let edge = order[at - 1];
        K::less_total(keys[n], keys[edge]);
        assert(ranks_before::<K>(keys, edge, n));
        if p < at - 1 {
            lemma_ranks_before_transitive::<K>(keys, order[p], edge, n);
        }
    }
    assert forall|p: int, q: int| 0 <= p < q < next.len() implies ranks_before::<K>(
        keys,
        next[p],
        next[q],
    ) by {
        if p < at && q == at {
            assert(next[p] == order[p]);
        } else if p == at {
            assert(next[q] == order[q - 1]);
        } else {
            let a = if p < at { p } else { p - 1 };
            let b = if q < at { q } else { q - 1 };
            assert(next[p] == order[a] && next[q] == order[b]);
        }
    }
    assert forall|p: int| 0 <= p < next.len() implies 0 <= #[trigger] next[p] < n + 1 by {
        if p < at {
            assert(next[p] == order[p]);
        } else if p > at {
            assert(next[p] == order[p - 1]);
        }
    }
    assert forall|p: int, q: int| 0 <= p < q < next.len() implies next[p] != next[q] by {
        let a = if p < at { p } else { p - 1 };
        let b = if q < at { q } else { q - 1 };
        if p != at && q != at {
            assert(next[p] == order[a] && next[q] == order[b]);
        } else if p == at {
            assert(next[q] == order[b]);
        } else {
            assert(next[p] == order[a]);
        }
    }
    assert forall|i: int| 0 <= i < n + 1 implies #[trigger] next.contains(i) by {
        if i == n {
            assert(next[at] == i);
        } else {
            assert(order.contains(i));
            let p = choose|p: int| 0 <= p < order.len() && #[trigger] order[p] == i;
            let q = if p < at { p } else { p + 1 };
            assert(next[q] == i);
        }
    }
}

/// The stable ascending order of `keys`.
pub open spec fn stable_order_of<K: Ordered>(keys: Seq<K::Model>) -> Seq<int> {
    choose|order: Seq<int>| is_stable_order::<K>(keys, order)
}

/// There is at most one stable order.
pub proof fn lemma_stable_order_unique<K: Ordered>(
    keys: Seq<K::Model>,
    a: Seq<int>,
    b: Seq<int>,
)
    requires
        is_stable_order::<K>(keys, a),
        is_stable_order::<K>(keys, b),
    ensures
        a == b,
{
    lemma_agree_up_to::<K>(keys, a, b, a.len() as int);
    assert(a == b);
}

proof fn lemma_agree_up_to<K: Ordered>(keys: Seq<K::Model>, a: Seq<int>, b: Seq<int>, n: int)
    requires
        is_stable_order::<K>(keys, a),
        is_stable_order::<K>(keys, b),
        0 <= n <= a.len(),
    ensures
        forall|p: int| 0 <= p < n ==> a[p] == b[p],
    decreases n,
{
    if n > 0 {
        lemma_agree_up_to::<K>(keys, a, b, n - 1);
        let x = a[n - 1];
        let y = b[n - 1];
        if x != y {
            assert(b.contains(x));
            assert(a.contains(y));
            let r = choose|r: int| 0 <= r < b.len() && b[r] == x;
            let s = choose|s: int| 0 <= s < a.len() && a[s] == y;
            assert(r > n - 1) by {
                if r < n - 1 {
                    assert(a[r] == x);
                }
            }
            assert(s > n - 1) by {
                if s < n - 1 {
                    assert(b[s] == y);
                }
            }
            assert(ranks_before::<K>(keys, b[n - 1], b[r]));
            assert(ranks_before::<K>(keys, a[n - 1], a[s]));
            lemma_ranks_before_asymmetric::<K>(keys, x, y);
        }
    }
}

proof fn lemma_stable_prefix_exists<K: Ordered>(keys: Seq<K::Model>, n: int) -> (order: Seq<int>)
    requires
        0 <= n <= keys.len(),
    ensures
        is_stable_prefix::<K>(keys, order, n),
    decreases n,
{
    if n == 0 {
        Seq::empty()
    } else {
        let shorter = lemma_stable_prefix_exists::<K>(keys, n - 1);
        let at = lemma_place_exists::<K>(keys, shorter, n - 1, shorter.len() as int);
        lemma_insert_extends::<K>(keys, shorter, n - 1, at);
        shorter.insert(at, n - 1)
    }
}

proof fn lemma_place_exists<K: Ordered>(
    keys: Seq<K::Model>,
    order: Seq<int>,
    n: int,
    from: int,
) -> (at: int)
    requires
        0 <= from <= order.len(),
        forall|p: int| from <= p < order.len() ==> K::less(keys[n], keys[#[trigger] order[p]]),
    ensures
        0 <= at <= order.len(),
        at > 0 ==> !K::less(keys[n], keys[order[at - 1]]),
        forall|p: int| at <= p < order.len() ==> K::less(keys[n], keys[#[trigger] order[p]]),
    decreases from,
{
    if from > 0 && K::less(keys[n], keys[order[from - 1]]) {
        lemma_place_exists::<K>(keys, order, n, from - 1)
    } else {
        from
    }
}

/// There is a stable order.
pub proof fn lemma_stable_order_exists<K: Ordered>(keys: Seq<K::Model>)
    ensures
        is_stable_order::<K>(keys, stable_order_of::<K>(keys)),
{
    let order = lemma_stable_prefix_exists::<K>(keys, keys.len() as int);
    assert(is_stable_order::<K>(keys, order));
}

/// The stable ascending order of the keys, as indices into them.
pub fn stable_order<K: Ordered>(keys: &Vec<K>) -> (order: Vec<usize>)
    ensures
        is_stable_order::<K>(models(keys@), indices(order@)),
        indices(order@) == stable_order_of::<K>(models(keys@)),
        forall|p: int| 0 <= p < order@.len() ==> #[trigger] order@[p] < keys@.len(),
        order@.len() == keys@.len(),
{
    let ghost all = models(keys@);
    let mut order: Vec<usize> = Vec::new();
    let mut n: usize = 0;
    assert(indices(order@) == Seq::<int>::empty());
    while n < keys.len()
        invariant
            all == models(keys@),
            n <= keys.len(),
            is_stable_prefix::<K>(all, indices(order@), n as int),
        decreases keys.len() - n,
    {
        let mut at: usize = order.len();
        while at > 0
            invariant_except_break
                at <= order.len(),
            invariant
                all == models(keys@),
                n < keys.len(),
                is_stable_prefix::<K>(all, indices(order@), n as int),
                forall|p: int|
                    at <= p < order.len() ==> K::less(
                        all[n as int],
                        all[#[trigger] indices(order@)[p]],
                    ),
            ensures
                at <= order.len(),
                at > 0 ==> !K::less(all[n as int], all[indices(order@)[at - 1]]),
            decreases at,
        {
            assert(indices(order@)[at - 1] < n);
            match keys[n].relation(&keys[order[at - 1]]) {
                Relation::Before => {
                    at = at - 1;
                },
                _ => {
                    proof {
                        let edge = all[order@[at - 1] as int];
                        if K::less(all[n as int], edge) {
                            if K::less(edge, all[n as int]) {
                                K::less_transitive(edge, all[n as int], edge);
                            }
                            K::less_irreflexive(edge);
                        }
                    }
                    break;
                },
            }
        }
        proof {
            lemma_insert_extends::<K>(all, indices(order@), n as int, at as int);
            assert(indices(order@.insert(at as int, n)) == indices(order@).insert(
                at as int,
                n as int,
            ));
        }
        order.insert(at, n);
        n = n + 1;
    }
    proof {
        assert(is_stable_order::<K>(all, indices(order@)));
        lemma_stable_order_exists::<K>(all);
        lemma_stable_order_unique::<K>(all, indices(order@), stable_order_of::<K>(all));
        assert forall|p: int| 0 <= p < order@.len() implies #[trigger] order@[p]
            < keys@.len() by {
            assert(indices(order@)[p] < all.len());
        }
    }
    order
}

/// The items in the given order.
pub open spec fn arranged<T>(items: Seq<T>, order: Seq<int>) -> Seq<T> {
    order.map_values(|i: int| items[i])
}

/// The keys never descend along `order`.
spec fn never_descends<K: Ordered>(keys: Seq<K::Model>, order: Seq<int>) -> bool {
    forall|p: int, q: int|
        0 <= p < q < order.len() ==> !K::less(keys[#[trigger] order[q]], keys[#[trigger] order[p]])
}

/// Two arrangements along which the keys never descend list equal keys at every place.
proof fn lemma_ascending_arrangements_agree<K: Ordered>(
    keys: Seq<K::Model>,
    a: Seq<int>,
    b: Seq<int>,
    p: int,
)
    requires
        is_arrangement(keys.len(), a),
        is_arrangement(keys.len(), b),
        never_descends::<K>(keys, a),
        never_descends::<K>(keys, b),
        0 <= p < a.len(),
    ensures
        !K::less(keys[a[p]], keys[b[p]]),
{
    if K::less(keys[a[p]], keys[b[p]]) {
        let x = keys[a[p]];
        let early = a.take(p + 1);
        let later = b.take(p);
        assert forall|i: int| early.contains(i) implies later.contains(i) by {
            let q = choose|q: int| 0 <= q < early.len() && early[q] == i;
            assert(a[q] == i);
            assert(!K::less(x, keys[i])) by {
                if q < p {
                    assert(!K::less(keys[a[p]], keys[a[q]]));
                } else {
                    K::less_irreflexive(x);
                }
            }
            assert(b.contains(i));
            let r = choose|r: int| 0 <= r < b.len() && b[r] == i;
            if r >= p {
                let y = keys[b[p]];
                if r > p {
                    assert(!K::less(keys[b[r]], keys[b[p]]));
                    K::less_total(y, keys[i]);
                    if K::less(y, keys[i]) {
                        K::less_transitive(x, y, keys[i]);
                    }
                }
                assert(false);
            }
            assert(later[r] == i);
        }
        assert(early.no_duplicates());
        assert(later.no_duplicates());
        early.unique_seq_to_set();
        later.unique_seq_to_set();
        assert(early.to_set().subset_of(later.to_set()));
        vstd::seq_lib::seq_to_set_is_finite(later);
        vstd::set_lib::lemma_len_subset(early.to_set(), later.to_set());
    }
}

/// What sorting gives does not depend on the order of the input.
pub proof fn lemma_sorting_forgets_order<K: Ordered>(keys: Seq<K::Model>, shuffle: Seq<int>)
    requires
        is_arrangement(keys.len(), shuffle),
    ensures
        arranged(arranged(keys, shuffle), stable_order_of::<K>(arranged(keys, shuffle)))
            == arranged(keys, stable_order_of::<K>(keys)),
{
    let other = arranged(keys, shuffle);
    let a = stable_order_of::<K>(keys);
    let c = stable_order_of::<K>(other);
    lemma_stable_order_exists::<K>(keys);
    lemma_stable_order_exists::<K>(other);
    let b = c.map_values(|i: int| shuffle[i]);
    assert forall|p: int, q: int| 0 <= p < q < b.len() implies b[p] != b[q] by {
        assert(c[p] != c[q]);
        if c[p] < c[q] {
            assert(shuffle[c[p]] != shuffle[c[q]]);
        } else {
            assert(shuffle[c[q]] != shuffle[c[p]]);
        }
    }
    assert forall|i: int| 0 <= i < keys.len() implies #[trigger] b.contains(i) by {
        assert(shuffle.contains(i));
        let k = choose|k: int| 0 <= k < shuffle.len() && shuffle[k] == i;
        assert(c.contains(k));
        let p = choose|p: int| 0 <= p < c.len() && c[p] == k;
        assert(b[p] == i);
    }
    assert(is_arrangement(keys.len(), b));
    assert forall|p: int, q: int| 0 <= p < q < b.len() implies !K::less(
        keys[#[trigger] b[q]],
        keys[#[trigger] b[p]],
    ) by {
        assert(ranks_before::<K>(other, c[p], c[q]));
        lemma_ranks_before_asymmetric::<K>(other, c[p], c[q]);
    }
    assert forall|p: int, q: int| 0 <= p < q < a.len() implies !K::less(
        keys[#[trigger] a[q]],
        keys[#[trigger] a[p]],
    ) by {
        assert(ranks_before::<K>(keys, a[p], a[q]));
        lemma_ranks_before_asymmetric::<K>(keys, a[p], a[q]);
    }
    assert forall|p: int| 0 <= p < a.len() implies arranged(other, c)[p] == arranged(
        keys,
        a,
    )[p] by {
        lemma_ascending_arrangements_agree::<K>(keys, a, b, p);
        lemma_ascending_arrangements_agree::<K>(keys, b, a, p);
        K::less_total(keys[a[p]], keys[b[p]]);
    }
    assert(arranged(other, c) == arranged(keys, a));
}

/// Moves the items into the given order.
pub fn arrange<T>(items: Vec<T>, order: &Vec<usize>) -> (result: Vec<T>)
    requires
        is_arrangement(items@.len(), indices(order@)),
    ensures
        result@ == arranged(items@, indices(order@)),
{
    let ghost all = items@;
    let mut slots: Vec<Option<T>> = Vec::new();
    let mut rest = items;
    let ghost n = all.len();
    while rest.len() > 0
        invariant
            all.len() == n,
            slots.len() + rest.len() == n,
            rest@ == all.take(rest@.len() as int),
            forall|k: int|
                0 <= k < slots.len() ==> #[trigger] slots@[k] == Some(all[n - 1 - k]),
        decreases rest.len(),
    {
        let item = rest.pop();
        slots.push(item);
    }
    let mut result: Vec<T> = Vec::new();
    let count: usize = slots.len();
    let mut p: usize = 0;
    while p < order.len()
        invariant
            all.len() == n,
            count == n,
            slots.len() == n,
            p <= order.len(),
            is_arrangement(n, indices(order@)),
            result@ == arranged(all, indices(order@).take(p as int)),
            forall|i: int|
                0 <= i < n && !indices(order@).take(p as int).contains(i)
                    ==> #[trigger] slots@[n - 1 - i] == Some(all[i]),
        decreases order.len() - p,
    {
        let i: usize = order[p];
        let ghost taken = indices(order@).take(p as int);
        proof {
            assert(indices(order@)[p as int] == i);
            assert(!taken.contains(i as int)) by {
                if taken.contains(i as int) {
                    let q = choose|q: int| 0 <= q < taken.len() && taken[q] == i;
                    assert(indices(order@)[q] == i);
                }
            }
            assert(slots@[n - 1 - i] == Some(all[i as int]));
        }
        let ghost before = slots@;
        let mut slot: Option<T> = None;
        std::mem::swap(&mut slot, &mut slots[count - 1 - i]);
        match slot {
            Some(item) => {
                result.push(item);
            },
            None => {
                proof {
                    assert(false);
                }
            },
        }
        p = p + 1;
        proof {
            let now = indices(order@).take(p as int);
            assert(now == taken.push(i as int));
            assert(result@ == arranged(all, now));
            assert forall|j: int| 0 <= j < n && !now.contains(j) implies #[trigger] slots@[n - 1 - j]
                == Some(all[j]) by {
                assert(now.last() == i);
                assert(now.contains(i as int));
                assert(j != i);
                if taken.contains(j) {
                    let q = choose|q: int| 0 <= q < taken.len() && taken[q] == j;
                    assert(now[q] == j);
                }
                assert(slots@[n - 1 - j] == before[n - 1 - j]);
            }
        }
    }
    assert(indices(order@).take(p as int) == indices(order@));
    result
}

} // verus!
