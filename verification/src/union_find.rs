//! A disjoint-set forest whose classes never mix two known vendors.
use crate::model::GpuVendor;
use vstd::arithmetic::power2::pow2;
use vstd::prelude::*;

verus! {

/// The partition that a forest stands for: the root of every element, and the rank and the known
/// vendor of every root.
#[verifier::ext_equal]
pub struct Partition {
    pub roots: Seq<int>,
    pub ranks: Seq<u8>,
    pub vendors: Seq<Option<GpuVendor>>,
}

/// A vendor that says something.
pub open spec fn known_vendor(vendor: GpuVendor) -> Option<GpuVendor> {
    if vendor == GpuVendor::Unknown {
        None
    } else {
        Some(vendor)
    }
}

/// Two classes may be joined unless their vendors are known and differ.
pub open spec fn classes_agree(a: Option<GpuVendor>, b: Option<GpuVendor>) -> bool {
    a is None || b is None || a == b
}

/// The partition in which every element stands alone.
pub open spec fn singletons(vendors: Seq<GpuVendor>) -> Partition {
    Partition {
        roots: Seq::new(vendors.len(), |i: int| i),
        ranks: Seq::new(vendors.len(), |i: int| 0u8),
        vendors: Seq::new(vendors.len(), |i: int| known_vendor(vendors[i])),
    }
}

/// `partition` with the classes of `left` and `right` joined where their vendors agree. The root
/// of the higher rank stays, the left one where the ranks are equal.
pub open spec fn joined(partition: Partition, left: int, right: int) -> Partition {
    let a = partition.roots[left];
    let b = partition.roots[right];
    if a == b || !classes_agree(partition.vendors[a], partition.vendors[b]) {
        partition
    } else {
        let vendor = if partition.vendors[a] is Some {
            partition.vendors[a]
        } else {
            partition.vendors[b]
        };
        let (winner, loser) = if partition.ranks[a] < partition.ranks[b] {
            (b, a)
        } else {
            (a, b)
        };
        Partition {
            roots: partition.roots.map_values(
                |root: int|
                    if root == loser {
                        winner
                    } else {
                        root
                    },
            ),
            ranks: if partition.ranks[a] == partition.ranks[b] {
                partition.ranks.update(a, (partition.ranks[a] + 1) as u8)
            } else {
                partition.ranks
            },
            vendors: partition.vendors.update(winner, vendor),
        }
    }
}

impl Partition {
    /// Every element has a root, and every root is its own.
    pub open spec fn well_formed(self) -> bool {
        &&& self.ranks.len() == self.roots.len()
        &&& self.vendors.len() == self.roots.len()
        &&& forall|i: int|
            0 <= i < self.roots.len() ==> 0 <= #[trigger] self.roots[i] < self.roots.len()
                && self.roots[self.roots[i]] == self.roots[i]
    }
}

/// The sum of a sequence.
spec fn sum(terms: Seq<nat>) -> nat
    decreases terms.len(),
{
    if terms.len() == 0 {
        0
    } else {
        sum(terms.drop_last()) + terms.last()
    }
}

proof fn lemma_sum_update(terms: Seq<nat>, i: int, value: nat)
    requires
        0 <= i < terms.len(),
    ensures
        sum(terms.update(i, value)) == sum(terms) - terms[i] + value,
        terms[i] <= sum(terms),
    decreases terms.len(),
{
    if i == terms.len() - 1 {
        assert(terms.update(i, value).drop_last() == terms.drop_last());
    } else {
        assert(terms.update(i, value).drop_last() == terms.drop_last().update(i, value));
        lemma_sum_update(terms.drop_last(), i, value);
    }
}

proof fn lemma_sum_ones(terms: Seq<nat>)
    requires
        forall|i: int| 0 <= i < terms.len() ==> terms[i] == 1,
    ensures
        sum(terms) == terms.len(),
    decreases terms.len(),
{
    if terms.len() > 0 {
        lemma_sum_ones(terms.drop_last());
    }
}

/// Two to the rank of every root, zero elsewhere.
spec fn weights(partition: Partition) -> Seq<nat> {
    Seq::new(
        partition.roots.len(),
        |i: int|
            if partition.roots[i] == i {
                pow2(partition.ranks[i] as nat)
            } else {
                0
            },
    )
}

pub struct UnionFind {
    parents: Vec<usize>,
    ranks: Vec<u8>,
    vendors: Vec<Option<GpuVendor>>,
    roots: Ghost<Seq<int>>,
}

impl View for UnionFind {
    type V = Partition;

    closed spec fn view(&self) -> Partition {
        Partition { roots: self.roots@, ranks: self.ranks@, vendors: self.vendors@ }
    }
}

impl UnionFind {
    /// The forest is one, its ranks grow towards the roots, and no rank exceeds the logarithm of
    /// the number of elements.
    pub closed spec fn well_formed(&self) -> bool {
        &&& self@.well_formed()
        &&& self.parents@.len() == self.roots@.len()
        &&& forall|i: int|
            0 <= i < self.parents@.len() ==> {
                &&& 0 <= #[trigger] self.parents@[i] < self.parents@.len()
                &&& self.roots@[self.parents@[i] as int] == self.roots@[i]
                &&& (self.parents@[i] == i <==> self.roots@[i] == i)
                &&& self.parents@[i] != i ==> self.ranks@[self.parents@[i] as int] > self.ranks@[i]
            }
        &&& forall|i: int| 0 <= i < self.ranks@.len() ==> #[trigger] self.ranks@[i] < 64
        &&& sum(weights(self@)) <= self.roots@.len()
    }

    pub fn new(vendors: &Vec<GpuVendor>) -> (forest: Self)
        ensures
            forest.well_formed(),
            forest@ == singletons(vendors@),
    {
        let mut parents: Vec<usize> = Vec::new();
        let mut ranks: Vec<u8> = Vec::new();
        let mut known: Vec<Option<GpuVendor>> = Vec::new();
        let mut i: usize = 0;
        while i < vendors.len()
            invariant
                i <= vendors.len(),
                parents.len() == i,
                ranks.len() == i,
                known.len() == i,
                forall|k: int| 0 <= k < i ==> #[trigger] parents@[k] == k,
                forall|k: int| 0 <= k < i ==> #[trigger] ranks@[k] == 0,
                forall|k: int| 0 <= k < i ==> #[trigger] known@[k] == known_vendor(vendors@[k]),
            decreases vendors.len() - i,
        {
            parents.push(i);
            ranks.push(0);
            known.push(
                if vendors[i] == GpuVendor::Unknown {
                    None
                } else {
                    Some(vendors[i])
                },
            );
            i = i + 1;
        }
        let ghost roots = Seq::new(vendors@.len(), |i: int| i);
        let forest = UnionFind { parents, ranks, vendors: known, roots: Ghost(roots) };
        proof {
            vstd::arithmetic::power2::lemma2_to64();
            lemma_sum_ones(weights(forest@));
        }
        forest
    }

    pub proof fn lemma_well_formed(&self)
        requires
            self.well_formed(),
        ensures
            self@.well_formed(),
    {
    }

    /// The root of the class of `index`.
    pub fn find(&mut self, index: usize) -> (root: usize)
        requires
            old(self).well_formed(),
            index < old(self)@.roots.len(),
        ensures
            final(self).well_formed(),
            final(self)@ == old(self)@,
            root == old(self)@.roots[index as int],
        decreases 64 - old(self)@.ranks[index as int],
    {
        let parent: usize = self.parents[index];
        if parent != index {
            let root: usize = self.find(parent);
            proof {
                self.lemma_root_outranks(index as int, 64);
            }
            self.parents.set(index, root);
        }
        self.parents[index]
    }

    /// A root outranks every other element of its class.
    proof fn lemma_root_outranks(&self, index: int, depth: int)
        requires
            self.well_formed(),
            0 <= index < self.parents@.len(),
            depth >= 64 - self.ranks@[index],
            depth >= 0,
        ensures
            self.roots@[index] != index ==> self.ranks@[self.roots@[index]] > self.ranks@[index],
            self.parents@[self.roots@[index]] == self.roots@[index],
        decreases depth,
    {
        let parent = self.parents@[index] as int;
        if parent != index {
            self.lemma_root_outranks(parent, depth - 1);
        }
    }

    /// Joins the classes of `left` and `right` where their vendors agree.
    pub fn union(&mut self, left: usize, right: usize)
        requires
            old(self).well_formed(),
            left < old(self)@.roots.len(),
            right < old(self)@.roots.len(),
        ensures
            final(self).well_formed(),
            final(self)@ == joined(old(self)@, left as int, right as int),
    {
        let ghost before = self@;
        let a: usize = self.find(left);
        let b: usize = self.find(right);
        if a == b {
            return;
        }
        let vendor: Option<GpuVendor> = match (self.vendors[a], self.vendors[b]) {
            (Some(x), Some(y)) => if x != y {
                return;
            } else {
                Some(x)
            },
            (Some(x), None) => Some(x),
            (None, other) => other,
        };
        let rank_a: u8 = self.ranks[a];
        let rank_b: u8 = self.ranks[b];
        let (winner, loser): (usize, usize) = if rank_a < rank_b {
            (b, a)
        } else {
            (a, b)
        };
        let count: usize = self.parents.len();
        assert(self.roots@.len() == count);
        let ghost root = |r: int|
            if r == loser {
                winner as int
            } else {
                r
            };
        proof {
            self.lemma_root_outranks(winner as int, 64);
            self.lemma_root_outranks(loser as int, 64);
            self.lemma_weights_after(winner as int, loser as int, rank_a == rank_b, vendor);
        }
        self.parents.set(loser, winner);
        if rank_a == rank_b {
            self.ranks.set(a, rank_a + 1);
        }
        self.vendors.set(winner, vendor);
        self.roots = Ghost(self.roots@.map_values(root));
        assert(self@ == joined(before, left as int, right as int));
    }

    /// Joining two classes does not raise the total weight, and keeps ranks small.
    proof fn lemma_weights_after(
        &self,
        winner: int,
        loser: int,
        equal: bool,
        vendor: Option<GpuVendor>,
    )
        requires
            self.well_formed(),
            0 <= winner < self.roots@.len(),
            0 <= loser < self.roots@.len(),
            winner != loser,
            self.roots@[winner] == winner,
            self.roots@[loser] == loser,
            equal == (self.ranks@[winner] == self.ranks@[loser]),
            self.ranks@[winner] >= self.ranks@[loser],
            self.roots@.len() <= usize::MAX,
        ensures
            equal ==> self.ranks@[winner] < 63,
            ({
                let after = Partition {
                    roots: self.roots@.map_values(
                        |root: int|
                            if root == loser {
                                winner
                            } else {
                                root
                            },
                    ),
                    ranks: if equal {
                        self.ranks@.update(winner, (self.ranks@[winner] + 1) as u8)
                    } else {
                        self.ranks@
                    },
                    vendors: self.vendors@.update(winner, vendor),
                };
                sum(weights(after)) <= self.roots@.len()
            }),
    {
        let rank = self.ranks@[winner];
        let new_rank: u8 = if equal {
            (rank + 1) as u8
        } else {
            rank
        };
        let after = Partition {
            roots: self.roots@.map_values(
                |root: int|
                    if root == loser {
                        winner
                    } else {
                        root
                    },
            ),
            ranks: if equal {
                self.ranks@.update(winner, (self.ranks@[winner] + 1) as u8)
            } else {
                self.ranks@
            },
            vendors: self.vendors@.update(winner, vendor),
        };
        let w = weights(self@);
        let less = w.update(loser, 0);
        let more = less.update(winner, pow2(new_rank as nat));
        lemma_sum_update(w, loser, 0);
        lemma_sum_update(less, winner, pow2(new_rank as nat));
        vstd::arithmetic::power2::lemma_pow2_unfold((rank + 1) as nat);
        if equal {
            assert(w[loser] == pow2(rank as nat));
            assert(less[winner] == pow2(rank as nat));
            vstd::arithmetic::power2::lemma2_to64();
            vstd::arithmetic::power2::lemma2_to64_rest();
            assert(2 * pow2(rank as nat) <= usize::MAX);
            if rank >= 63 {
                assert(pow2(rank as nat) == pow2(63));
                assert(false);
            }
        }
        assert(weights(after) == more);
    }
}

} // verus!
