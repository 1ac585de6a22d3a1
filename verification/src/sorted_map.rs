//! Maps and sets that keep their keys in ascending order.
use crate::ordered::{Ordered, Relation};
use vstd::prelude::*;

verus! {

/// A value whose copy equals it.
pub trait Duplicate: Sized {
    fn duplicate(&self) -> (copy: Self)
        ensures
            copy == *self,
    ;
}

impl Duplicate for String {
    fn duplicate(&self) -> (copy: Self) {
        self.clone()
    }
}

impl Duplicate for u64 {
    fn duplicate(&self) -> (copy: Self) {
        *self
    }
}

impl Duplicate for usize {
    fn duplicate(&self) -> (copy: Self) {
        *self
    }
}

impl Duplicate for u32 {
    fn duplicate(&self) -> (copy: Self) {
        *self
    }
}

impl Duplicate for () {
    fn duplicate(&self) -> (copy: Self) {
        ()
    }
}

/// The keys stand in strictly ascending order.
pub open spec fn ascending<K: Ordered>(keys: Seq<K::Model>) -> bool {
    forall|i: int, j: int| 0 <= i < j < keys.len() ==> K::less(#[trigger] keys[i], #[trigger] keys[j])
}

/// `keys` lists the keys of `dom`, each once, in ascending order; there is exactly one such list.
pub open spec fn lists_keys<K: Ordered>(keys: Seq<K::Model>, dom: Set<K::Model>) -> bool {
    &&& ascending::<K>(keys)
    &&& forall|k: K::Model| keys.contains(k) <==> #[trigger] dom.contains(k)
}

/// A map with its keys in ascending order.
pub struct SortedMap<K: Ordered, V> {
    entries: Vec<(K, V)>,
}

impl<K: Ordered, V> View for SortedMap<K, V> {
    type V = Map<K::Model, V>;

    closed spec fn view(&self) -> Map<K::Model, V> {
        Map::new(
            |k: K::Model| self.keys().contains(k),
            |k: K::Model| self.entries[self.keys().index_of(k)].1,
        )
    }
}

impl<K: Ordered, V> SortedMap<K, V> {
    /// The keys in ascending order.
    pub closed spec fn keys(&self) -> Seq<K::Model> {
        Seq::new(self.entries@.len(), |i: int| self.entries@[i].0.model())
    }

    #[verifier::type_invariant]
    spec fn sorted(&self) -> bool {
        ascending::<K>(self.keys())
    }

    proof fn lemma_at(&self, i: int)
        requires
            self.sorted(),
            0 <= i < self.entries@.len(),
        ensures
            self@.contains_key(self.entries@[i].0.model()),
            self@[self.entries@[i].0.model()] == self.entries@[i].1,
    {
        let k = self.entries@[i].0.model();
        assert(self.keys()[i] == k);
        let j = self.keys().index_of(k);
        assert(self.keys()[j] == k);
        if i != j {
            K::less_irreflexive(k);
        }
    }

    pub fn new() -> (map: Self)
        ensures
            map@ == Map::<K::Model, V>::empty(),
            map.keys() == Seq::<K::Model>::empty(),
    {
        let map = SortedMap { entries: Vec::new() };
        assert(map@.dom() == Set::<K::Model>::empty());
        map
    }

    pub fn len(&self) -> (n: usize)
        ensures
            n == self.keys().len(),
            lists_keys::<K>(self.keys(), self@.dom()),
    {
        proof {
            use_type_invariant(&*self);
        }
        self.entries.len()
    }

    /// The `i`-th smallest key.
    pub fn key_at(&self, i: usize) -> (key: &K)
        requires
            i < self.keys().len(),
        ensures
            key.model() == self.keys()[i as int],
            self@.contains_key(key.model()),
    {
        proof {
            use_type_invariant(&*self);
            self.lemma_at(i as int);
        }
        &self.entries[i].0
    }

    /// The value of the `i`-th smallest key.
    pub fn value_at(&self, i: usize) -> (value: &V)
        requires
            i < self.keys().len(),
        ensures
            self@.contains_key(self.keys()[i as int]),
            *value == self@[self.keys()[i as int]],
    {
        proof {
            use_type_invariant(&*self);
            self.lemma_at(i as int);
        }
        &self.entries[i].1
    }

    /// The position of the first key that is not smaller than `key`.
    fn lower_bound(&self, key: &K) -> (at: usize)
        ensures
            at <= self.entries@.len(),
            forall|i: int| 0 <= i < at ==> K::less(#[trigger] self.entries@[i].0.model(), key.model()),
            forall|i: int|
                at <= i < self.entries@.len() ==> !K::less(
                    #[trigger] self.entries@[i].0.model(),
                    key.model(),
                ),
            forall|i: int|
                at < i < self.entries@.len() ==> K::less(
                    key.model(),
                    #[trigger] self.entries@[i].0.model(),
                ),
    {
        proof {
            use_type_invariant(&*self);
        }
        let mut at: usize = 0;
        while at < self.entries.len() && matches!(self.entries[at].0.relation(key), Relation::Before)
            invariant
                at <= self.entries@.len(),
                forall|i: int|
                    0 <= i < at ==> K::less(#[trigger] self.entries@[i].0.model(), key.model()),
            decreases self.entries.len() - at,
        {
            at = at + 1;
        }
        proof {
            assert forall|i: int| at <= i < self.entries@.len() implies (!K::less(
                #[trigger] self.entries@[i].0.model(),
                key.model(),
            ) && (at < i ==> K::less(key.model(), self.entries@[i].0.model()))) by {
                let here = self.entries@[at as int].0.model();
                let there = self.entries@[i].0.model();
                assert(self.keys()[at as int] == here);
                assert(self.keys()[i] == there);
                assert(here == key.model() || K::less(key.model(), here));
                if at < i {
                    assert(K::less(here, there));
                    if here != key.model() {
                        K::less_transitive(key.model(), here, there);
                    }
                }
                if K::less(there, key.model()) {
                    if there != key.model() {
                        if K::less(key.model(), there) {
                            K::less_transitive(there, key.model(), there);
                        }
                    }
                    K::less_irreflexive(there);
                }
            }
        }
        at
    }

    proof fn lemma_absent(&self, key: K::Model, at: int)
        requires
            self.sorted(),
            0 <= at <= self.entries@.len(),
            forall|i: int| 0 <= i < at ==> K::less(#[trigger] self.entries@[i].0.model(), key),
            forall|i: int|
                at <= i < self.entries@.len() ==> K::less(key, #[trigger] self.entries@[i].0.model()),
        ensures
            !self@.contains_key(key),
    {
        if self@.contains_key(key) {
            let i = self.keys().index_of(key);
            assert(self.keys()[i] == key);
            assert(self.entries@[i].0.model() == key);
            K::less_irreflexive(key);
        }
    }

    pub fn get(&self, key: &K) -> (value: Option<&V>)
        ensures
            match value {
                Some(v) => self@.contains_key(key.model()) && self@[key.model()] == *v,
                None => !self@.contains_key(key.model()),
            },
    {
        let at = self.lower_bound(key);
        proof {
            use_type_invariant(&*self);
        }
        if at < self.entries.len() && matches!(self.entries[at].0.relation(key), Relation::Same) {
            proof {
                self.lemma_at(at as int);
            }
            Some(&self.entries[at].1)
        } else {
            proof {
                self.lemma_absent(key.model(), at as int);
            }
            None
        }
    }

    pub fn contains_key(&self, key: &K) -> (found: bool)
        ensures
            found == self@.contains_key(key.model()),
    {
        match self.get(key) {
            Some(v) => true,
            None => false,
        }
    }

    /// Gives `key` the value `value`, in place of any earlier one.
    pub fn insert(&mut self, key: K, value: V)
        ensures
            final(self)@ == old(self)@.insert(key.model(), value),
    {
        let ghost before = *self;
        let ghost model = key.model();
        let at = self.lower_bound(&key);
        proof {
            use_type_invariant(&*self);
        }
        let found = at < self.entries.len() && matches!(
            self.entries[at].0.relation(&key),
            Relation::Same
        );
        let mut entries: Vec<(K, V)> = Vec::new();
        std::mem::swap(&mut self.entries, &mut entries);
        if found {
            entries.set(at, (key, value));
        } else {
            entries.insert(at, (key, value));
        }
        let ghost after = SortedMap { entries };
        proof {
            before.lemma_inserted(after, model, value, at as int, found);
        }
        self.entries = entries;
    }

    proof fn lemma_inserted(&self, after: Self, key: K::Model, value: V, at: int, found: bool)
        requires
            self.sorted(),
            0 <= at <= self.entries@.len(),
            found ==> at < self.entries@.len() && self.entries@[at].0.model() == key,
            forall|i: int| 0 <= i < at ==> K::less(#[trigger] self.entries@[i].0.model(), key),
            forall|i: int|
                at <= i < self.entries@.len() && !(found && i == at) ==> K::less(
                    key,
                    #[trigger] self.entries@[i].0.model(),
                ),
            exists|k: K|
                k.model() == key && after.entries@ == (if found {
                    self.entries@.update(at, (k, value))
                } else {
                    self.entries@.insert(at, (k, value))
                }),
        ensures
            after.sorted(),
            after@ == self@.insert(key, value),
    {
        let k = choose|k: K|
            k.model() == key && after.entries@ == (if found {
                self.entries@.update(at, (k, value))
            } else {
                self.entries@.insert(at, (k, value))
            });
        let shift: int = if found {
            0
        } else {
            1
        };
        assert(after.entries@.len() == self.entries@.len() + shift);
        assert forall|i: int| 0 <= i < at implies after.entries@[i] == #[trigger] self.entries@[i] by {}
        assert forall|i: int| at < i < after.entries@.len() implies #[trigger] after.entries@[i]
            == self.entries@[i - shift] by {}
        assert(after.entries@[at] == (k, value));
        assert forall|i: int, j: int| 0 <= i < j < after.keys().len() implies K::less(
            #[trigger] after.keys()[i],
            #[trigger] after.keys()[j],
        ) by {
            let old_i = if i < at {
                i
            } else {
                i - shift
            };
            let old_j = if j < at {
                j
            } else {
                j - shift
            };
            if i != at && j != at {
                assert(self.keys()[old_i] == after.keys()[i]);
                assert(self.keys()[old_j] == after.keys()[j]);
            } else if i == at {
                assert(self.entries@[old_j].0.model() == after.keys()[j]);
            } else {
                assert(self.entries@[old_i].0.model() == after.keys()[i]);
            }
        }
        let expected = self@.insert(key, value);
        assert forall|m: K::Model| #[trigger] after@.dom().contains(m) implies expected.dom().contains(m)
            && expected[m] == after@[m] by {
            let i = after.keys().index_of(m);
            assert(after.keys()[i] == m);
            after.lemma_at(i);
            if i != at {
                let old_i = if i < at {
                    i
                } else {
                    i - shift
                };
                assert(self.entries@[old_i] == after.entries@[i]);
                self.lemma_at(old_i);
                K::less_irreflexive(m);
            }
        }
        assert forall|m: K::Model| #[trigger] expected.dom().contains(m) implies after@.dom().contains(m) by {
            if m == key {
                after.lemma_at(at);
            } else {
                let i = self.keys().index_of(m);
                assert(self.keys()[i] == m);
                let new_i = if i < at {
                    i
                } else {
                    i + shift
                };
                assert(after.entries@[new_i] == self.entries@[i]);
                after.lemma_at(new_i);
            }
        }
        assert(after@ == expected);
    }

    /// Takes `key` out of the map and gives its value back.
    pub fn remove(&mut self, key: &K) -> (value: Option<V>)
        ensures
            final(self)@ == old(self)@.remove(key.model()),
            match value {
                Some(v) => old(self)@.contains_key(key.model()) && old(self)@[key.model()] == v,
                None => !old(self)@.contains_key(key.model()),
            },
    {
        let ghost before = *self;
        let at = self.lower_bound(key);
        proof {
            use_type_invariant(&*self);
        }
        if at < self.entries.len() && matches!(self.entries[at].0.relation(key), Relation::Same) {
            let mut entries: Vec<(K, V)> = Vec::new();
            std::mem::swap(&mut self.entries, &mut entries);
            let removed = entries.remove(at);
            let ghost after = SortedMap { entries };
            proof {
                before.lemma_at(at as int);
                before.lemma_removed(after, at as int);
            }
            self.entries = entries;
            Some(removed.1)
        } else {
            proof {
                before.lemma_absent(key.model(), at as int);
                assert(before@.remove(key.model()) == before@);
            }
            None
        }
    }

    proof fn lemma_removed(&self, after: Self, at: int)
        requires
            self.sorted(),
            0 <= at < self.entries@.len(),
            after.entries@ == self.entries@.remove(at),
        ensures
            after.sorted(),
            after@ == self@.remove(self.entries@[at].0.model()),
    {
        let key = self.entries@[at].0.model();
        assert forall|i: int, j: int| 0 <= i < j < after.keys().len() implies K::less(
            #[trigger] after.keys()[i],
            #[trigger] after.keys()[j],
        ) by {
            let old_i = if i < at {
                i
            } else {
                i + 1
            };
            let old_j = if j < at {
                j
            } else {
                j + 1
            };
            assert(self.keys()[old_i] == after.keys()[i]);
            assert(self.keys()[old_j] == after.keys()[j]);
        }
        let expected = self@.remove(key);
        assert forall|m: K::Model| #[trigger] after@.dom().contains(m) implies expected.dom().contains(m)
            && expected[m] == after@[m] by {
            let i = after.keys().index_of(m);
            assert(after.keys()[i] == m);
            after.lemma_at(i);
            let old_i = if i < at {
                i
            } else {
                i + 1
            };
            assert(self.entries@[old_i] == after.entries@[i]);
            self.lemma_at(old_i);
            assert(self.keys()[old_i] == m);
            assert(self.keys()[at] == key);
            K::less_irreflexive(m);
        }
        assert forall|m: K::Model| #[trigger] expected.dom().contains(m) implies after@.dom().contains(m) by {
            let i = self.keys().index_of(m);
            assert(self.keys()[i] == m);
            let new_i = if i < at {
                i
            } else {
                i - 1
            };
            assert(i != at);
            assert(after.entries@[new_i] == self.entries@[i]);
            after.lemma_at(new_i);
        }
        assert(after@ == expected);
    }
}

/// Two ascending lists of the same keys are the same list.
pub proof fn lemma_listing_unique<K: Ordered>(
    a: Seq<K::Model>,
    b: Seq<K::Model>,
    dom: Set<K::Model>,
)
    requires
        lists_keys::<K>(a, dom),
        lists_keys::<K>(b, dom),
    ensures
        a == b,
    decreases a.len(),
{
    if a.len() == 0 {
        if b.len() > 0 {
            assert(b.contains(b[0]));
            assert(dom.contains(b[0]));
            assert(false);
        }
        assert(a == b);
    } else {
        assert(a.contains(a.last()));
        assert(dom.contains(a.last()));
        assert(b.contains(a.last()));
        assert(b.contains(b.last()));
        assert(dom.contains(b.last()));
        assert(a.contains(b.last()));
        let i = choose|i: int| 0 <= i < a.len() && a[i] == b.last();
        let j = choose|j: int| 0 <= j < b.len() && b[j] == a.last();
        if a.last() != b.last() {
            assert(K::less(a[i], a.last()));
            assert(K::less(b[j], b.last()));
            K::less_transitive(a.last(), b.last(), a.last());
            K::less_irreflexive(a.last());
        }
        let rest = dom.remove(a.last());
        lemma_listing_without_last::<K>(a, dom);
        lemma_listing_without_last::<K>(b, dom);
        lemma_listing_unique::<K>(a.drop_last(), b.drop_last(), rest);
        assert(a == a.drop_last().push(a.last()));
        assert(b == b.drop_last().push(b.last()));
    }
}

proof fn lemma_listing_without_last<K: Ordered>(keys: Seq<K::Model>, dom: Set<K::Model>)
    requires
        lists_keys::<K>(keys, dom),
        keys.len() > 0,
    ensures
        lists_keys::<K>(keys.drop_last(), dom.remove(keys.last())),
{
    let short = keys.drop_last();
    let rest = dom.remove(keys.last());
    assert forall|k: K::Model| short.contains(k) <==> #[trigger] rest.contains(k) by {
        if short.contains(k) {
            let i = choose|i: int| 0 <= i < short.len() && short[i] == k;
            assert(keys[i] == k);
            assert(keys.contains(k));
            assert(dom.contains(k));
            assert(K::less(keys[i], keys[keys.len() - 1]));
            K::less_irreflexive(k);
        }
        if rest.contains(k) {
            assert(dom.contains(k));
            assert(keys.contains(k));
            let i = choose|i: int| 0 <= i < keys.len() && keys[i] == k;
            assert(short[i] == k);
        }
    }
}

impl<K: Ordered + Duplicate, V: Duplicate> SortedMap<K, V> {
    /// A map with the same entries.
    pub fn duplicate(&self) -> (copy: Self)
        ensures
            copy@ == self@,
    {
        proof {
            use_type_invariant(&*self);
        }
        let mut entries: Vec<(K, V)> = Vec::new();
        let mut i: usize = 0;
        while i < self.entries.len()
            invariant
                i <= self.entries.len(),
                entries@ == self.entries@.take(i as int),
            decreases self.entries.len() - i,
        {
            let key = self.entries[i].0.duplicate();
            let value = self.entries[i].1.duplicate();
            entries.push((key, value));
            i = i + 1;
            assert(entries@ == self.entries@.take(i as int));
        }
        assert(entries@ == self.entries@);
        let ghost same = SortedMap { entries };
        assert(same.keys() == self.keys());
        assert(same@ == self@);
        SortedMap { entries }
    }
}

/// A set with its members in ascending order.
pub struct SortedSet<K: Ordered> {
    items: SortedMap<K, ()>,
}

impl<K: Ordered> View for SortedSet<K> {
    type V = Set<K::Model>;

    closed spec fn view(&self) -> Set<K::Model> {
        self.items@.dom()
    }
}

impl<K: Ordered> SortedSet<K> {
    /// The members in ascending order.
    pub closed spec fn members(&self) -> Seq<K::Model> {
        self.items.keys()
    }

    pub fn new() -> (set: Self)
        ensures
            set@ == Set::<K::Model>::empty(),
            set.members() == Seq::<K::Model>::empty(),
    {
        SortedSet { items: SortedMap::new() }
    }

    pub fn len(&self) -> (n: usize)
        ensures
            n == self.members().len(),
            lists_keys::<K>(self.members(), self@),
    {
        self.items.len()
    }

    /// The `i`-th smallest member.
    pub fn at(&self, i: usize) -> (member: &K)
        requires
            i < self.members().len(),
        ensures
            member.model() == self.members()[i as int],
            self@.contains(member.model()),
    {
        self.items.key_at(i)
    }

    pub fn contains(&self, member: &K) -> (found: bool)
        ensures
            found == self@.contains(member.model()),
    {
        self.items.contains_key(member)
    }

    pub fn insert(&mut self, member: K)
        ensures
            final(self)@ == old(self)@.insert(member.model()),
    {
        let ghost before = self.items@;
        self.items.insert(member, ());
        assert(before.insert(member.model(), ()).dom() == before.dom().insert(member.model()));
    }
}

impl<K: Ordered + Duplicate> SortedSet<K> {
    /// A set with the same members.
    pub fn duplicate(&self) -> (copy: Self)
        ensures
            copy@ == self@,
    {
        SortedSet { items: self.items.duplicate() }
    }

    /// Adds every member of `other`.
    pub fn extend(&mut self, other: &Self)
        ensures
            final(self)@ == old(self)@.union(other@),
    {
        let ghost before = self@;
        let n: usize = other.len();
        let mut i: usize = 0;
        while i < n
            invariant
                i <= n == other.members().len(),
                self@ == before.union(other.members().take(i as int).to_set()),
            decreases n - i,
        {
            let member = other.at(i).duplicate();
            self.insert(member);
            i = i + 1;
            assert(other.members().take(i as int) == other.members().take(i - 1).push(
                other.members()[i - 1],
            ));
            assert(other.members().take(i as int).to_set() == other.members().take(
                i - 1,
            ).to_set().insert(other.members()[i - 1])) by {
                other.members().take(i - 1).lemma_push_to_set_commute(other.members()[i - 1]);
            }
            assert(self@ == before.union(other.members().take(i as int).to_set()));
        }
        assert(other.members().take(n as int) == other.members());
        assert(other.members().to_set() == other@);
    }
}

} // verus!
