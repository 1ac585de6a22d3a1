//! The devices do not depend on the order in which the observations come.
use crate::canonical::{cluster_id, cluster_model, GpuModel};
use crate::correlation::{
    cluster, cluster_gpus, compatible, correlated, correlation, members, place_of, same_weak_key,
    with_parents, ClusterKey, ClusterPlace,
};
use crate::correlation_laws::{
    classes_sound, connected, distinct_providers, is_path, law_devices_are_chains_of_links,
    lemma_correlation_sound, linked, together, vendors_consistent,
};
use crate::model::DeviceObservation;
use crate::ordered::{
    arranged, is_arrangement, lemma_sorting_forgets_order, lemma_stable_order_exists,
    stable_order_of,
};
use crate::union_find::Partition;
use vstd::prelude::*;
use vstd::relations::injective_on;

verus! {

/// Where an index stands after a shuffle.
spec fn place_in(shuffle: Seq<int>, i: int) -> int {
    choose|k: int| 0 <= k < shuffle.len() && shuffle[k] == i
}

proof fn lemma_place_in(n: nat, shuffle: Seq<int>, i: int)
    requires
        is_arrangement(n, shuffle),
        0 <= i < n,
    ensures
        0 <= place_in(shuffle, i) < n,
        shuffle[place_in(shuffle, i)] == i,
{
    assert(shuffle.contains(i));
}

proof fn lemma_place_of_shuffled(n: nat, shuffle: Seq<int>, k: int)
    requires
        is_arrangement(n, shuffle),
        0 <= k < n,
    ensures
        place_in(shuffle, shuffle[k]) == k,
{
    lemma_place_in(n, shuffle, shuffle[k]);
    let p = place_in(shuffle, shuffle[k]);
    if p < k {
        assert(shuffle[p] != shuffle[k]);
    } else if k < p {
        assert(shuffle[k] != shuffle[p]);
    }
}

/// Providers are distinct within a weak group in any order.
proof fn lemma_distinct_shuffled(
    observations: Seq<DeviceObservation>,
    shuffle: Seq<int>,
    o: DeviceObservation,
)
    requires
        is_arrangement(observations.len(), shuffle),
    ensures
        distinct_providers(observations, o) <==> distinct_providers(
            arranged(observations, shuffle),
            o,
        ),
{
    let other = arranged(observations, shuffle);
    if distinct_providers(observations, o) {
        assert forall|i: int, j: int|
            0 <= i < j < other.len() && same_weak_key(o, other[i]) && same_weak_key(
                o,
                other[j],
            ) implies #[trigger] other[i].provider@ != #[trigger] other[j].provider@ by {
            let a = shuffle[i];
            let b = shuffle[j];
            assert(other[i] == observations[a] && other[j] == observations[b]);
            if a < b {
                assert(observations[a].provider@ != observations[b].provider@);
            } else {
                assert(observations[b].provider@ != observations[a].provider@);
            }
        }
    }
    if distinct_providers(other, o) {
        assert forall|a: int, b: int|
            0 <= a < b < observations.len() && same_weak_key(o, observations[a])
                && same_weak_key(o, observations[b]) implies #[trigger] observations[a].provider@
            != #[trigger] observations[b].provider@ by {
            lemma_place_in(observations.len(), shuffle, a);
            lemma_place_in(observations.len(), shuffle, b);
            let i = place_in(shuffle, a);
            let j = place_in(shuffle, b);
            assert(other[i] == observations[a] && other[j] == observations[b]);
            if i < j {
                assert(other[i].provider@ != other[j].provider@);
            } else {
                assert(other[j].provider@ != other[i].provider@);
            }
        }
    }
}

proof fn lemma_linked_shuffled(
    observations: Seq<DeviceObservation>,
    shuffle: Seq<int>,
    i: int,
    j: int,
)
    requires
        is_arrangement(observations.len(), shuffle),
        0 <= i < observations.len(),
        0 <= j < observations.len(),
    ensures
        linked(arranged(observations, shuffle), i, j) <==> linked(
            observations,
            shuffle[i],
            shuffle[j],
        ),
{
    lemma_distinct_shuffled(observations, shuffle, observations[shuffle[i]]);
}

proof fn lemma_connected_shuffled(
    observations: Seq<DeviceObservation>,
    shuffle: Seq<int>,
    i: int,
    j: int,
)
    requires
        is_arrangement(observations.len(), shuffle),
        0 <= i < observations.len(),
        0 <= j < observations.len(),
    ensures
        connected(arranged(observations, shuffle), i, j) <==> connected(
            observations,
            shuffle[i],
            shuffle[j],
        ),
{
    let other = arranged(observations, shuffle);
    if connected(other, i, j) {
        let path = choose|path: Seq<int>|
            #[trigger] is_path(other, path) && path[0] == i && path.last() == j;
        let image = path.map_values(|k: int| shuffle[k]);
        assert forall|s: int| 0 <= s < image.len() implies 0 <= #[trigger] image[s]
            < observations.len() by {
            assert(0 <= path[s] < other.len());
        }
        assert forall|s: int| 0 <= s < image.len() - 1 implies linked(
            observations,
            #[trigger] image[s],
            image[s + 1],
        ) by {
            assert(linked(other, path[s], path[s + 1]));
            lemma_linked_shuffled(observations, shuffle, path[s], path[s + 1]);
        }
        assert(is_path(observations, image) && image[0] == shuffle[i] && image.last()
            == shuffle[j]);
    }
    if connected(observations, shuffle[i], shuffle[j]) {
        let path = choose|path: Seq<int>|
            #[trigger] is_path(observations, path) && path[0] == shuffle[i] && path.last()
                == shuffle[j];
        let image = path.map_values(|k: int| place_in(shuffle, k));
        assert forall|s: int| 0 <= s < image.len() implies 0 <= #[trigger] image[s]
            < other.len() by {
            assert(0 <= path[s] < observations.len());
            lemma_place_in(observations.len(), shuffle, path[s]);
        }
        assert forall|s: int| 0 <= s < image.len() - 1 implies linked(
            other,
            #[trigger] image[s],
            image[s + 1],
        ) by {
            assert(linked(observations, path[s], path[s + 1]));
            lemma_place_in(observations.len(), shuffle, path[s]);
            lemma_place_in(observations.len(), shuffle, path[s + 1]);
            lemma_linked_shuffled(observations, shuffle, image[s], image[s + 1]);
        }
        lemma_place_of_shuffled(observations.len(), shuffle, i);
        lemma_place_of_shuffled(observations.len(), shuffle, j);
        assert(is_path(other, image) && image[0] == i && image.last() == j);
    }
}

proof fn lemma_consistent_shuffled(observations: Seq<DeviceObservation>, shuffle: Seq<int>)
    requires
        is_arrangement(observations.len(), shuffle),
        vendors_consistent(observations),
    ensures
        vendors_consistent(arranged(observations, shuffle)),
{
    reveal(vendors_consistent);
    let other = arranged(observations, shuffle);
    assert forall|i: int, j: int| #[trigger] connected(other, i, j) implies compatible(
        other[i].vendor,
        other[j].vendor,
    ) by {
        let path = choose|path: Seq<int>|
            #[trigger] is_path(other, path) && path[0] == i && path.last() == j;
        assert(0 <= path[0] < other.len());
        assert(0 <= path[path.len() - 1] < other.len());
        lemma_connected_shuffled(observations, shuffle, i, j);
        assert(connected(observations, shuffle[i], shuffle[j]));
    }
}

proof fn lemma_together_shuffled(
    observations: Seq<DeviceObservation>,
    shuffle: Seq<int>,
    i: int,
    j: int,
)
    requires
        observations.len() <= usize::MAX,
        is_arrangement(observations.len(), shuffle),
        vendors_consistent(observations),
        0 <= i < observations.len(),
        0 <= j < observations.len(),
    ensures
        together(arranged(observations, shuffle), i, j) <==> together(
            observations,
            shuffle[i],
            shuffle[j],
        ),
{
    lemma_consistent_shuffled(observations, shuffle);
    lemma_connected_shuffled(observations, shuffle, i, j);
    law_devices_are_chains_of_links(arranged(observations, shuffle), i, j);
    law_devices_are_chains_of_links(observations, shuffle[i], shuffle[j]);
}

/// Observations of one device that agree in priority, provider and the provider's name for it are
/// the same.
pub open spec fn places_tell_apart(observations: Seq<DeviceObservation>) -> bool {
    forall|i: int, j: int|
        0 <= i < observations.len() && 0 <= j < observations.len() && #[trigger] together(
            observations,
            i,
            j,
        ) && place_of(observations[i]) == place_of(observations[j]) ==> observations[i]
            == observations[j]
}

pub proof fn lemma_members(partition: Partition, root: int, n: int)
    requires
        0 <= n <= partition.roots.len(),
    ensures
        members(partition, root, n).no_duplicates(),
        forall|i: int|
            #![trigger members(partition, root, n).contains(i)]
            #![trigger partition.roots[i]]
            members(partition, root, n).contains(i) <==> 0 <= i < n && partition.roots[i] == root,
    decreases n,
{
    if n > 0 {
        lemma_members(partition, root, n - 1);
        let before = members(partition, root, n - 1);
        let now = members(partition, root, n);
        assert forall|i: int|
            #![trigger now.contains(i)]
            #![trigger partition.roots[i]]
            now.contains(i) <==> 0 <= i < n && partition.roots[i] == root by {
            assert(before.contains(i) <==> 0 <= i < n - 1 && partition.roots[i] == root);
            if partition.roots[n - 1] == root {
                assert(now == before.push(n - 1));
                assert(now[now.len() - 1] == n - 1);
                if before.contains(i) {
                    let k = choose|k: int| 0 <= k < before.len() && before[k] == i;
                    assert(now[k] == i);
                }
                if now.contains(i) && i != n - 1 {
                    let k = choose|k: int| 0 <= k < now.len() && now[k] == i;
                    assert(before[k] == i);
                }
            }
        }
        if partition.roots[n - 1] == root {
            assert(!before.contains(n - 1));
            assert forall|p: int, q: int|
                0 <= p < now.len() && 0 <= q < now.len() && p != q implies now[p] != now[q] by {
                if p == now.len() - 1 {
                    assert(before.contains(before[q]));
                } else if q == now.len() - 1 {
                    assert(before.contains(before[p]));
                }
            }
        }
    }
}

/// The index of the observation at place `p` of a cluster.
spec fn source(
    observations: Seq<DeviceObservation>,
    partition: Partition,
    root: int,
    p: int,
) -> int {
    let found = members(partition, root, observations.len() as int);
    let all = found.map_values(|i: int| observations[i]);
    found[stable_order_of::<ClusterKey>(
        all.map_values(|o: DeviceObservation| place_of(o)),
    )[p]]
}

/// The places of the members of a class, in the order in which they were observed.
spec fn member_places(
    observations: Seq<DeviceObservation>,
    partition: Partition,
    root: int,
) -> Seq<ClusterPlace> {
    members(partition, root, observations.len() as int).map_values(
        |i: int| observations[i],
    ).map_values(|o: DeviceObservation| place_of(o))
}

proof fn lemma_cluster(observations: Seq<DeviceObservation>, root: int)
    requires
        observations.len() <= usize::MAX,
        0 <= root < observations.len(),
    ensures
        ({
            let partition = correlation(observations);
            let made = cluster(observations, partition, root);
            let keys = member_places(observations, partition, root);
            let sorted = arranged(keys, stable_order_of::<ClusterKey>(keys));
            &&& made.len() == sorted.len()
            &&& forall|p: int|
                0 <= p < made.len() ==> {
                    let i = #[trigger] source(observations, partition, root, p);
                    &&& 0 <= i < observations.len()
                    &&& partition.roots[i] == root
                    &&& made[p] == observations[i]
                    &&& sorted[p] == place_of(observations[i])
                }
        }),
{
    let partition = correlation(observations);
    lemma_correlation_sound(observations);
    let n = observations.len() as int;
    let found = members(partition, root, n);
    let keys = member_places(observations, partition, root);
    let order = stable_order_of::<ClusterKey>(keys);
    let made = cluster(observations, partition, root);
    lemma_members(partition, root, n);
    lemma_stable_order_exists::<ClusterKey>(keys);
    assert forall|p: int| 0 <= p < made.len() implies {
        let i = #[trigger] source(observations, partition, root, p);
        &&& 0 <= i < observations.len()
        &&& partition.roots[i] == root
        &&& made[p] == observations[i]
        &&& arranged(keys, order)[p] == place_of(observations[i])
    } by {
        assert(0 <= order[p] < keys.len());
        assert(found.contains(found[order[p]]));
    }
}

/// Different numbers below a bound are no more than the bound.
proof fn lemma_few_below(list: Seq<int>, bound: nat)
    requires
        list.no_duplicates(),
        forall|k: int| 0 <= k < list.len() ==> 0 <= #[trigger] list[k] < bound,
    ensures
        list.len() <= bound,
{
    list.unique_seq_to_set();
    let all = vstd::set_lib::set_int_range(0, bound as int);
    vstd::set_lib::lemma_int_range(0, bound as int);
    assert(list.to_set().subset_of(all));
    vstd::set_lib::lemma_len_subset(list.to_set(), all);
}

/// Where an item stands in a list.
spec fn position(list: Seq<int>, item: int) -> int {
    choose|k: int| 0 <= k < list.len() && list[k] == item
}

/// The members of a class in the second order, as positions among those in the first.
spec fn moved_members(
    first: Seq<int>,
    second: Seq<int>,
    shuffle: Seq<int>,
) -> Seq<int> {
    second.map_values(|j: int| position(first, shuffle[j]))
}

/// A class has the same members in both orders.
proof fn lemma_members_shuffled(
    n: nat,
    shuffle: Seq<int>,
    first: Seq<int>,
    second: Seq<int>,
)
    requires
        is_arrangement(n, shuffle),
        first.no_duplicates(),
        second.no_duplicates(),
        forall|i: int| #[trigger] first.contains(i) ==> 0 <= i < n,
        forall|j: int| #[trigger] second.contains(j) ==> 0 <= j < n,
        forall|j: int| 0 <= j < n ==> (#[trigger] second.contains(j) <==> first.contains(shuffle[j])),
    ensures
        is_arrangement(first.len(), moved_members(first, second, shuffle)),
        forall|k: int|
            0 <= k < second.len() ==> first[#[trigger] moved_members(first, second, shuffle)[k]]
                == shuffle[second[k]],
{
    let moved = moved_members(first, second, shuffle);
    let back = first.map_values(|i: int| position(second, place_in(shuffle, i)));
    assert forall|k: int| 0 <= k < second.len() implies 0 <= #[trigger] moved[k] < first.len()
        && first[moved[k]] == shuffle[second[k]] by {
        assert(second.contains(second[k]));
        assert(first.contains(shuffle[second[k]]));
    }
    assert forall|m: int| 0 <= m < first.len() implies 0 <= #[trigger] back[m] < second.len()
        && second[back[m]] == place_in(shuffle, first[m]) by {
        assert(first.contains(first[m]));
        lemma_place_in(n, shuffle, first[m]);
        assert(second.contains(place_in(shuffle, first[m])));
    }
    assert forall|a: int, b: int| 0 <= a < moved.len() && 0 <= b < moved.len() && a != b implies
        moved[a] != moved[b] by {
        assert(second.contains(second[a]) && second.contains(second[b]));
        assert(second[a] != second[b]);
        if second[a] < second[b] {
            assert(shuffle[second[a]] != shuffle[second[b]]);
        } else {
            assert(shuffle[second[b]] != shuffle[second[a]]);
        }
    }
    assert forall|a: int, b: int| 0 <= a < back.len() && 0 <= b < back.len() && a != b implies
        back[a] != back[b] by {
        assert(first.contains(first[a]) && first.contains(first[b]));
        lemma_place_in(n, shuffle, first[a]);
        lemma_place_in(n, shuffle, first[b]);
        assert(first[a] != first[b]);
    }
    lemma_few_below(moved, first.len());
    lemma_few_below(back, second.len());
    assert forall|m: int| 0 <= m < first.len() implies #[trigger] moved.contains(m) by {
        assert(first.contains(first[m]));
        lemma_place_in(n, shuffle, first[m]);
        let k = back[m];
        assert(second[k] == place_in(shuffle, first[m]));
        assert(first[moved[k]] == first[m]);
        assert(moved[k] == m);
    }
}

/// The root, among the observations in the first order, of the class of `r` in the second.
spec fn old_root(observations: Seq<DeviceObservation>, shuffle: Seq<int>, r: int) -> int {
    correlation(observations).roots[shuffle[r]]
}

proof fn lemma_cluster_shuffled(observations: Seq<DeviceObservation>, shuffle: Seq<int>, r: int)
    requires
        observations.len() <= usize::MAX,
        is_arrangement(observations.len(), shuffle),
        vendors_consistent(observations),
        places_tell_apart(observations),
        0 <= r < observations.len(),
        correlation(arranged(observations, shuffle)).roots[r] == r,
    ensures
        cluster(
            arranged(observations, shuffle),
            correlation(arranged(observations, shuffle)),
            r,
        ) == cluster(
            observations,
            correlation(observations),
            old_root(observations, shuffle, r),
        ),
{
    let other = arranged(observations, shuffle);
    let p = correlation(observations);
    let p2 = correlation(other);
    let root = old_root(observations, shuffle, r);
    lemma_correlation_sound(observations);
    lemma_correlation_sound(other);
    reveal(classes_sound);
    assert(0 <= shuffle[r] < observations.len());
    let n = observations.len() as int;
    let first = members(p, root, n);
    let second = members(p2, r, n);
    lemma_members(p, root, n);
    lemma_members(p2, r, n);
    assert forall|j: int| 0 <= j < n implies (#[trigger] second.contains(j) <==> first.contains(
        shuffle[j],
    )) by {
        lemma_together_shuffled(observations, shuffle, j, r);
        assert(0 <= shuffle[j] < n);
        assert(p2.roots[j] == p2.roots[r] <==> together(other, j, r));
        assert(p.roots[shuffle[j]] == p.roots[shuffle[r]] <==> together(
            observations,
            shuffle[j],
            shuffle[r],
        ));
    }
    lemma_members_shuffled(observations.len(), shuffle, first, second);
    let moved = moved_members(first, second, shuffle);
    let a = member_places(observations, p, root);
    let b = member_places(other, p2, r);
    assert(b == arranged(a, moved)) by {
        assert forall|k: int| 0 <= k < b.len() implies b[k] == arranged(a, moved)[k] by {
            assert(first[moved[k]] == shuffle[second[k]]);
            assert(second.contains(second[k]));
        }
    }
    lemma_sorting_forgets_order::<ClusterKey>(a, moved);
    lemma_cluster(observations, root);
    lemma_cluster(other, r);
    let x = cluster(observations, p, root);
    let y = cluster(other, p2, r);
    assert forall|k: int| 0 <= k < x.len() implies x[k] == y[k] by {
        let i = source(observations, p, root, k);
        let j = source(other, p2, r, k);
        lemma_together_shuffled(observations, shuffle, j, r);
        assert(together(other, j, r));
        assert(together(observations, i, shuffle[j]));
        assert(place_of(observations[i]) == place_of(observations[shuffle[j]]));
    }
    assert(x == y);
}

/// The roots below `n` in ascending order.
pub open spec fn roots_below(partition: Partition, n: int) -> Seq<int>
    decreases n,
{
    if n <= 0 {
        Seq::empty()
    } else if partition.roots[n - 1] == n - 1 {
        roots_below(partition, n - 1).push(n - 1)
    } else {
        roots_below(partition, n - 1)
    }
}

pub proof fn lemma_roots_below(observations: Seq<DeviceObservation>, partition: Partition, n: int)
    requires
        0 <= n <= partition.roots.len(),
    ensures
        roots_below(partition, n).no_duplicates(),
        forall|i: int|
            #![trigger roots_below(partition, n).contains(i)]
            #![trigger partition.roots[i]]
            roots_below(partition, n).contains(i) <==> 0 <= i < n && partition.roots[i] == i,
        cluster_gpus(observations, partition, n).len() == roots_below(partition, n).len(),
        forall|k: int|
            0 <= k < roots_below(partition, n).len() ==> #[trigger] cluster_gpus(
                observations,
                partition,
                n,
            )[k] == device_at(observations, partition, roots_below(partition, n)[k]),
    decreases n,
{
    if n > 0 {
        lemma_roots_below(observations, partition, n - 1);
        let before = roots_below(partition, n - 1);
        let now = roots_below(partition, n);
        assert forall|i: int|
            #![trigger now.contains(i)]
            #![trigger partition.roots[i]]
            now.contains(i) <==> 0 <= i < n && partition.roots[i] == i by {
            assert(before.contains(i) <==> 0 <= i < n - 1 && partition.roots[i] == i);
            if partition.roots[n - 1] == n - 1 {
                assert(now[now.len() - 1] == n - 1);
                if before.contains(i) {
                    let k = choose|k: int| 0 <= k < before.len() && before[k] == i;
                    assert(now[k] == i);
                }
                if now.contains(i) && i != n - 1 {
                    let k = choose|k: int| 0 <= k < now.len() && now[k] == i;
                    assert(before[k] == i);
                }
            }
        }
        if partition.roots[n - 1] == n - 1 {
            assert(!before.contains(n - 1));
            assert forall|p: int, q: int|
                0 <= p < now.len() && 0 <= q < now.len() && p != q implies now[p] != now[q] by {
                if p == now.len() - 1 {
                    assert(before.contains(before[q]));
                } else if q == now.len() - 1 {
                    assert(before.contains(before[p]));
                }
            }
        }
    }
}

/// The device of the class with the given root, before parents are looked up.
pub open spec fn device_at(
    observations: Seq<DeviceObservation>,
    partition: Partition,
    root: int,
) -> GpuModel {
    cluster_model(
        cluster(observations, partition, root),
        cluster_id(cluster(observations, partition, root)),
    )
}

/// The devices before parents are looked up, in ascending order of their roots.
pub open spec fn base_gpus(observations: Seq<DeviceObservation>) -> Seq<GpuModel> {
    cluster_gpus(observations, correlation(observations), observations.len() as int)
}

proof fn lemma_correlation_well_formed(observations: Seq<DeviceObservation>)
    requires
        observations.len() <= usize::MAX,
    ensures
        correlation(observations).well_formed(),
        correlation(observations).roots.len() == observations.len(),
{
    lemma_correlation_sound(observations);
    reveal(classes_sound);
}

/// Shuffling the observations takes each class to one class, and every class is met.
proof fn lemma_roots_shuffled(observations: Seq<DeviceObservation>, shuffle: Seq<int>)
    requires
        observations.len() <= usize::MAX,
        is_arrangement(observations.len(), shuffle),
        vendors_consistent(observations),
    ensures
        ({
            let n = observations.len() as int;
            let x = roots_below(correlation(arranged(observations, shuffle)), n).to_set();
            let y = roots_below(correlation(observations), n).to_set();
            &&& injective_on(|r: int| old_root(observations, shuffle, r), x)
            &&& x.map(|r: int| old_root(observations, shuffle, r)) == y
        }),
{
    let other = arranged(observations, shuffle);
    let n = observations.len() as int;
    let p = correlation(observations);
    let p2 = correlation(other);
    lemma_correlation_well_formed(observations);
    lemma_correlation_well_formed(other);
    let roots = roots_below(p, n);
    let roots2 = roots_below(p2, n);
    lemma_roots_below(observations, p, n);
    lemma_roots_below(other, p2, n);
    let image = |r: int| old_root(observations, shuffle, r);
    let x = roots2.to_set();
    let y = roots.to_set();
    assert forall|r: int, s: int|
        x.contains(r) && x.contains(s) && #[trigger] image(r) == #[trigger] image(s) implies r
        == s by {
        assert(roots2.contains(r) && roots2.contains(s));
        lemma_together_shuffled(observations, shuffle, r, s);
        assert(together(observations, shuffle[r], shuffle[s]));
    }
    assert forall|i: int| #[trigger] y.contains(i) implies x.map(image).contains(i) by {
        assert(roots.contains(i));
        lemma_place_in(observations.len(), shuffle, i);
        let k = place_in(shuffle, i);
        let r = p2.roots[k];
        assert(p2.roots[r] == r);
        assert(roots2.contains(r));
        lemma_together_shuffled(observations, shuffle, r, k);
        assert(together(other, r, k));
        assert(image(r) == i);
        assert(x.contains(r));
    }
    assert forall|i: int| #[trigger] x.map(image).contains(i) implies y.contains(i) by {
        let r = choose|r: int| x.contains(r) && image(r) == i;
        assert(roots2.contains(r));
        assert(0 <= shuffle[r] < n);
        assert(p.roots[i] == i);
        assert(roots.contains(i));
    }
    assert(x.map(image) == y);
}

/// The new places of the roots.
proof fn lemma_moved_roots(observations: Seq<DeviceObservation>, shuffle: Seq<int>) -> (moved: Seq<
    int,
>)
    requires
        observations.len() <= usize::MAX,
        is_arrangement(observations.len(), shuffle),
        vendors_consistent(observations),
    ensures
        ({
            let n = observations.len() as int;
            let roots = roots_below(correlation(observations), n);
            let roots2 = roots_below(correlation(arranged(observations, shuffle)), n);
            &&& moved.len() == roots2.len()
            &&& is_arrangement(roots.len(), moved)
            &&& forall|k: int|
                0 <= k < moved.len() ==> roots[#[trigger] moved[k]] == old_root(
                    observations,
                    shuffle,
                    roots2[k],
                )
        }),
{
    let other = arranged(observations, shuffle);
    let n = observations.len() as int;
    lemma_correlation_well_formed(observations);
    lemma_correlation_well_formed(other);
    let roots = roots_below(correlation(observations), n);
    let roots2 = roots_below(correlation(other), n);
    lemma_roots_below(observations, correlation(observations), n);
    lemma_roots_below(other, correlation(other), n);
    lemma_roots_shuffled(observations, shuffle);
    let image = |r: int| old_root(observations, shuffle, r);
    let x = roots2.to_set();
    let y = roots.to_set();
    vstd::seq_lib::seq_to_set_is_finite(roots2);
    vstd::set_lib::lemma_map_size(x, y, image);
    roots.unique_seq_to_set();
    roots2.unique_seq_to_set();
    let moved = Seq::new(roots2.len(), |k: int| roots.index_of(image(roots2[k])));
    assert forall|k: int| 0 <= k < moved.len() implies 0 <= #[trigger] moved[k] < roots.len()
        && roots[moved[k]] == image(roots2[k]) by {
        assert(roots2.contains(roots2[k]));
        assert(x.contains(roots2[k]));
        assert(x.map(image).contains(image(roots2[k])));
        assert(y.contains(image(roots2[k])));
        assert(roots.contains(image(roots2[k])));
    }
    assert forall|a: int, b: int| 0 <= a < b < moved.len() implies moved[a] != moved[b] by {
        assert(roots2.contains(roots2[a]) && roots2.contains(roots2[b]));
        assert(x.contains(roots2[a]) && x.contains(roots2[b]));
        assert(roots[moved[a]] == image(roots2[a]));
        assert(roots[moved[b]] == image(roots2[b]));
        if moved[a] == moved[b] {
            assert(roots2[a] == roots2[b]);
        }
    }
    assert forall|m: int| 0 <= m < roots.len() implies #[trigger] moved.contains(m) by {
        assert(roots.contains(roots[m]));
        assert(y.contains(roots[m]));
        assert(x.map(image).contains(roots[m]));
        let r = choose|r: int| x.contains(r) && image(r) == roots[m];
        assert(roots2.contains(r));
        let k = choose|k: int| 0 <= k < roots2.len() && roots2[k] == r;
        assert(roots[moved[k]] == roots[m]);
        assert(moved[k] == m);
    }
    moved
}

/// Shuffled observations give the same devices in another order.
proof fn lemma_base_gpus_shuffled(
    observations: Seq<DeviceObservation>,
    shuffle: Seq<int>,
) -> (moved: Seq<int>)
    requires
        observations.len() <= usize::MAX,
        is_arrangement(observations.len(), shuffle),
        vendors_consistent(observations),
        places_tell_apart(observations),
    ensures
        is_arrangement(base_gpus(observations).len(), moved),
        base_gpus(arranged(observations, shuffle)) == arranged(base_gpus(observations), moved),
{
    let other = arranged(observations, shuffle);
    let n = observations.len() as int;
    let p = correlation(observations);
    let p2 = correlation(other);
    lemma_correlation_well_formed(observations);
    lemma_correlation_well_formed(other);
    let roots = roots_below(p, n);
    let roots2 = roots_below(p2, n);
    lemma_roots_below(observations, p, n);
    lemma_roots_below(other, p2, n);
    let moved = lemma_moved_roots(observations, shuffle);
    let old_gpus = base_gpus(observations);
    let new_gpus = base_gpus(other);
    assert forall|k: int| 0 <= k < moved.len() implies new_gpus[k] == arranged(
        old_gpus,
        moved,
    )[k] by {
        assert(roots2.contains(roots2[k]));
        lemma_cluster_shuffled(observations, shuffle, roots2[k]);
        assert(new_gpus[k] == device_at(other, p2, roots2[k]));
        assert(0 <= moved[k] < roots.len());
        assert(old_gpus[moved[k]] == device_at(observations, p, roots[moved[k]]));
    }
    assert(new_gpus == arranged(old_gpus, moved));
    moved
}

/// The public names of devices.
pub open spec fn ids(gpus: Seq<GpuModel>) -> Seq<Seq<char>> {
    gpus.map_values(|gpu: GpuModel| gpu.id)
}

proof fn lemma_ids(observations: Seq<DeviceObservation>)
    ensures
        ids(correlated(observations)) == arranged(
            ids(base_gpus(observations)),
            stable_order_of::<String>(ids(base_gpus(observations))),
        ),
{
    let gpus = base_gpus(observations);
    let full = with_parents(observations, gpus);
    assert(full.map_values(|gpu: GpuModel| gpu.id) == ids(gpus));
    let order = stable_order_of::<String>(ids(gpus));
    lemma_stable_order_exists::<String>(ids(gpus));
    assert forall|k: int| 0 <= k < order.len() implies ids(correlated(observations))[k]
        == arranged(ids(gpus), order)[k] by {
        assert(0 <= order[k] < gpus.len());
    }
    assert(ids(correlated(observations)) == arranged(ids(gpus), order));
}

/// The public names of the devices, in the order in which they are given, do not depend on the
/// order in which the observations come: unless known vendors contradict each other along a chain
/// of links, or two observations of one device agree in priority, provider and the provider's name
/// for it.
pub proof fn law_ids_do_not_depend_on_order(
    observations: Seq<DeviceObservation>,
    shuffle: Seq<int>,
)
    requires
        observations.len() <= usize::MAX,
        is_arrangement(observations.len(), shuffle),
        vendors_consistent(observations),
        places_tell_apart(observations),
    ensures
        ids(correlated(arranged(observations, shuffle))) == ids(correlated(observations)),
{
    let other = arranged(observations, shuffle);
    let moved = lemma_base_gpus_shuffled(observations, shuffle);
    lemma_ids(observations);
    lemma_ids(other);
    let keys = ids(base_gpus(observations));
    assert(ids(base_gpus(other)) == arranged(keys, moved)) by {
        assert forall|k: int| 0 <= k < moved.len() implies ids(base_gpus(other))[k] == arranged(
            keys,
            moved,
        )[k] by {
            assert(0 <= moved[k] < keys.len());
        }
    }
    lemma_sorting_forgets_order::<String>(keys, moved);
}

/// The devices themselves, apart from their parents, do not depend on the order of the
/// observations either: they are only met in another order.
pub proof fn law_devices_do_not_depend_on_order(
    observations: Seq<DeviceObservation>,
    shuffle: Seq<int>,
)
    requires
        observations.len() <= usize::MAX,
        is_arrangement(observations.len(), shuffle),
        vendors_consistent(observations),
        places_tell_apart(observations),
    ensures
        exists|moved: Seq<int>|
            is_arrangement(base_gpus(observations).len(), moved) && base_gpus(
                arranged(observations, shuffle),
            ) == #[trigger] arranged(base_gpus(observations), moved),
{
    let moved = lemma_base_gpus_shuffled(observations, shuffle);
}

} // verus!
