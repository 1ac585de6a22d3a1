//! What holds of the correlation of devices, whatever the observations are.
use crate::correlation::{
    compatible, correlation, follow_keys, leads_weak_group, same_weak_key, strong_keys,
    strong_links, weak_group_links, weak_links, Links,
};
use crate::model::{DeviceObservation, GpuVendor};
use crate::union_find::{classes_agree, joined, Partition};
use vstd::prelude::*;

verus! {

/// Two observations with a strong key in common.
pub open spec fn shares_key(a: DeviceObservation, b: DeviceObservation) -> bool {
    exists|key: Seq<char>| #[trigger]
        strong_keys(a).contains(key) && strong_keys(b).contains(key)
}

/// No provider occurs twice among the observations with the weak key of `o`.
pub open spec fn distinct_providers(
    observations: Seq<DeviceObservation>,
    o: DeviceObservation,
) -> bool {
    forall|i: int, j: int|
        0 <= i < j < observations.len() && same_weak_key(o, observations[i]) && same_weak_key(
            o,
            observations[j],
        ) ==> #[trigger] observations[i].provider@ != #[trigger] observations[j].provider@
}

/// Two observations that are taken for one device: they share a strong key, or a weak key that
/// each provider uses at most once.
pub open spec fn linked(observations: Seq<DeviceObservation>, i: int, j: int) -> bool {
    &&& 0 <= i < observations.len()
    &&& 0 <= j < observations.len()
    &&& {
        ||| shares_key(observations[i], observations[j])
        ||| same_weak_key(observations[i], observations[j]) && distinct_providers(
            observations,
            observations[i],
        )
    }
}

/// Each step of the path is a link.
pub open spec fn is_path(observations: Seq<DeviceObservation>, path: Seq<int>) -> bool {
    &&& path.len() > 0
    &&& forall|k: int| 0 <= k < path.len() ==> 0 <= #[trigger] path[k] < observations.len()
    &&& forall|k: int|
        0 <= k < path.len() - 1 ==> linked(observations, #[trigger] path[k], path[k + 1])
}

/// A chain of links leads from one observation to the other.
pub open spec fn connected(observations: Seq<DeviceObservation>, i: int, j: int) -> bool {
    exists|path: Seq<int>| #[trigger] is_path(observations, path) && path[0] == i && path.last() == j
}

proof fn lemma_connected_self(observations: Seq<DeviceObservation>, i: int)
    requires
        0 <= i < observations.len(),
    ensures
        connected(observations, i, i),
{
    let path = seq![i];
    assert(is_path(observations, path) && path[0] == i && path.last() == i);
}

proof fn lemma_connected_link(observations: Seq<DeviceObservation>, i: int, j: int)
    requires
        linked(observations, i, j),
    ensures
        connected(observations, i, j),
{
    let path = seq![i, j];
    assert(is_path(observations, path) && path[0] == i && path.last() == j);
}

proof fn lemma_connected_transitive(
    observations: Seq<DeviceObservation>,
    i: int,
    j: int,
    k: int,
)
    requires
        connected(observations, i, j),
        connected(observations, j, k),
    ensures
        connected(observations, i, k),
{
    let a = choose|path: Seq<int>|
        #[trigger] is_path(observations, path) && path[0] == i && path.last() == j;
    let b = choose|path: Seq<int>|
        #[trigger] is_path(observations, path) && path[0] == j && path.last() == k;
    let path = a + b.skip(1);
    assert forall|s: int| 0 <= s < path.len() - 1 implies linked(
        observations,
        #[trigger] path[s],
        path[s + 1],
    ) by {
        if s < a.len() - 1 {
            assert(path[s] == a[s] && path[s + 1] == a[s + 1]);
        } else {
            let t = s - (a.len() - 1);
            assert(path[s] == b[t]);
            assert(path[s + 1] == b[t + 1]);
        }
    }
    assert forall|s: int| 0 <= s < path.len() implies 0 <= #[trigger] path[s]
        < observations.len() by {
        if s < a.len() {
            assert(path[s] == a[s]);
        } else {
            assert(path[s] == b[s - a.len() + 1]);
        }
    }
    assert(path.last() == k) by {
        if b.len() == 1 {
            assert(path == a);
        } else {
            assert(path.last() == b.last());
        }
    }
    assert(path[0] == i);
    assert(is_path(observations, path));
}

proof fn lemma_linked_symmetric(observations: Seq<DeviceObservation>, i: int, j: int)
    requires
        linked(observations, i, j),
    ensures
        linked(observations, j, i),
{
    let a = observations[i];
    let b = observations[j];
    if shares_key(a, b) {
        let key = choose|key: Seq<char>| #[trigger]
            strong_keys(a).contains(key) && strong_keys(b).contains(key);
        assert(strong_keys(b).contains(key));
    } else {
        assert forall|x: int, y: int|
            0 <= x < y < observations.len() && same_weak_key(b, observations[x])
                && same_weak_key(
                b,
                observations[y],
            ) implies #[trigger] observations[x].provider@
            != #[trigger] observations[y].provider@ by {
            assert(same_weak_key(a, observations[x]));
            assert(same_weak_key(a, observations[y]));
        }
    }
}

proof fn lemma_connected_symmetric(observations: Seq<DeviceObservation>, i: int, j: int)
    requires
        connected(observations, i, j),
    ensures
        connected(observations, j, i),
{
    let path = choose|path: Seq<int>|
        #[trigger] is_path(observations, path) && path[0] == i && path.last() == j;
    let back = path.reverse();
    assert forall|s: int| 0 <= s < back.len() - 1 implies linked(
        observations,
        #[trigger] back[s],
        back[s + 1],
    ) by {
        let t = path.len() - 2 - s;
        assert(back[s] == path[t + 1] && back[s + 1] == path[t]);
        lemma_linked_symmetric(observations, path[t], path[t + 1]);
    }
    assert(is_path(observations, back) && back[0] == j && back.last() == i);
}

/// The partition is one of the observations, its classes are chains of links, and the vendor of a
/// class is the only known vendor in it.
pub open spec fn sound(observations: Seq<DeviceObservation>, partition: Partition) -> bool {
    &&& partition.roots.len() == observations.len()
    &&& classes_sound(observations, partition)
}

#[verifier::opaque]
pub open spec fn classes_sound(
    observations: Seq<DeviceObservation>,
    partition: Partition,
) -> bool {
    &&& partition.well_formed()
    &&& forall|i: int, j: int|
        0 <= i < observations.len() && 0 <= j < observations.len()
            && #[trigger] partition.roots[i] == #[trigger] partition.roots[j] ==> connected(
            observations,
            i,
            j,
        )
    &&& forall|i: int|
        0 <= i < observations.len() && (#[trigger] observations[i]).vendor != GpuVendor::Unknown
            ==> partition.vendors[partition.roots[i]] == Some(observations[i].vendor)
    &&& forall|r: int|
        0 <= r < observations.len() && partition.roots[r] == r
            && #[trigger] partition.vendors[r] is Some ==> speaks_for(
            observations,
            partition,
            r,
        )
}

/// Some member of the class has the vendor of the class.
pub open spec fn speaks_for(
    observations: Seq<DeviceObservation>,
    partition: Partition,
    r: int,
) -> bool {
    exists|m: int|
        0 <= m < observations.len() && partition.roots[m] == r && Some(
            (#[trigger] observations[m]).vendor,
        ) == partition.vendors[r] && observations[m].vendor != GpuVendor::Unknown
}

proof fn lemma_joined_sound(
    observations: Seq<DeviceObservation>,
    partition: Partition,
    left: int,
    right: int,
)
    requires
        sound(observations, partition),
        linked(observations, left, right),
    ensures
        sound(observations, joined(partition, left, right)),
        never_parts(partition, joined(partition, left, right)),
{
    reveal(classes_sound);
    let a = partition.roots[left];
    let b = partition.roots[right];
    let after = joined(partition, left, right);
    if a != b && classes_agree(partition.vendors[a], partition.vendors[b]) {
        let (winner, loser) = if partition.ranks[a] < partition.ranks[b] {
            (b, a)
        } else {
            (a, b)
        };
        assert(partition.roots[a] == a && partition.roots[b] == b);
        assert forall|i: int| 0 <= i < observations.len() implies 0 <= #[trigger] after.roots[i]
            < observations.len() && after.roots[after.roots[i]] == after.roots[i] by {
            assert(partition.roots[partition.roots[i]] == partition.roots[i]);
        }
        assert forall|i: int, j: int|
            0 <= i < observations.len() && 0 <= j < observations.len()
                && #[trigger] after.roots[i] == #[trigger] after.roots[j] implies connected(
            observations,
            i,
            j,
        ) by {
            lemma_connected_link(observations, left, right);
            lemma_connected_symmetric(observations, left, right);
            if partition.roots[i] != partition.roots[j] {
                if partition.roots[i] == a {
                    assert(connected(observations, i, left));
                    assert(connected(observations, right, j));
                    lemma_connected_transitive(observations, i, left, right);
                    lemma_connected_transitive(observations, i, right, j);
                } else {
                    assert(connected(observations, i, right));
                    assert(connected(observations, left, j));
                    lemma_connected_transitive(observations, i, right, left);
                    lemma_connected_transitive(observations, i, left, j);
                }
            }
        }
        assert forall|i: int|
            0 <= i < observations.len() && (#[trigger] observations[i]).vendor
                != GpuVendor::Unknown implies after.vendors[after.roots[i]] == Some(
            observations[i].vendor,
        ) by {
            assert(partition.vendors[partition.roots[i]] == Some(observations[i].vendor));
        }
        assert forall|r: int|
            0 <= r < observations.len() && after.roots[r] == r
                && #[trigger] after.vendors[r] is Some implies speaks_for(
            observations,
            after,
            r,
        ) by {
            let source = if r == winner {
                if partition.vendors[a] is Some {
                    a
                } else {
                    b
                }
            } else {
                r
            };
            assert(partition.roots[source] == source);
            assert(partition.vendors[source] is Some);
            assert(speaks_for(observations, partition, source));
            let m = choose|m: int|
                0 <= m < observations.len() && partition.roots[m] == source && Some(
                    (#[trigger] observations[m]).vendor,
                ) == partition.vendors[source] && observations[m].vendor != GpuVendor::Unknown;
            assert(after.roots[m] == r);
        }
    }
}

/// What is in one class stays in one class.
pub open spec fn never_parts(before: Partition, after: Partition) -> bool {
    &&& after.roots.len() == before.roots.len()
    &&& forall|i: int, j: int|
        0 <= i < before.roots.len() && 0 <= j < before.roots.len() && #[trigger] before.roots[i]
            == #[trigger] before.roots[j] ==> after.roots[i] == after.roots[j]
}

/// The first observation recorded for a key has that key.
pub open spec fn records_keys(
    observations: Seq<DeviceObservation>,
    first: Map<Seq<char>, usize>,
) -> bool {
    forall|key: Seq<char>|
        #[trigger] first.contains_key(key) ==> first[key] < observations.len() && strong_keys(
            observations[first[key] as int],
        ).contains(key)
}

proof fn lemma_follow_keys_sound(
    observations: Seq<DeviceObservation>,
    links: Links,
    i: usize,
    keys: Seq<Seq<char>>,
)
    requires
        sound(observations, links.partition),
        records_keys(observations, links.first),
        i < observations.len(),
        forall|key: Seq<char>|
            #[trigger] keys.contains(key) ==> strong_keys(observations[i as int]).contains(key),
    ensures
        sound(observations, follow_keys(observations, links, i, keys).partition),
        records_keys(observations, follow_keys(observations, links, i, keys).first),
        never_parts(links.partition, follow_keys(observations, links, i, keys).partition),
        forall|key: Seq<char>|
            #[trigger] links.first.contains_key(key) ==> follow_keys(
                observations,
                links,
                i,
                keys,
            ).first.contains_key(key) && follow_keys(observations, links, i, keys).first[key]
                == links.first[key],
    decreases keys.len(),
{
    if keys.len() > 0 {
        let rest = keys.drop_last();
        let key = keys.last();
        assert(keys.contains(key)) by {
            assert(keys[keys.len() - 1] == key);
        }
        assert forall|k: Seq<char>| #[trigger] rest.contains(k) implies strong_keys(
            observations[i as int],
        ).contains(k) by {
            let p = choose|p: int| 0 <= p < rest.len() && rest[p] == k;
            assert(keys[p] == k);
            assert(keys.contains(k));
        }
        lemma_follow_keys_sound(observations, links, i, rest);
        let before = follow_keys(observations, links, i, rest);
        if before.first.contains_key(key) {
            let previous = before.first[key] as int;
            assert(shares_key(observations[previous], observations[i as int])) by {
                assert(strong_keys(observations[previous]).contains(key));
            }
            lemma_joined_sound(observations, before.partition, previous, i as int);
        }
    }
}

proof fn lemma_singletons_sound(observations: Seq<DeviceObservation>)
    ensures
        sound(observations, strong_links(observations, 0).partition),
        records_keys(observations, strong_links(observations, 0).first),
{
    reveal(classes_sound);
    let partition = strong_links(observations, 0).partition;
    assert forall|i: int, j: int|
        0 <= i < observations.len() && 0 <= j < observations.len()
            && #[trigger] partition.roots[i] == #[trigger] partition.roots[j] implies connected(
        observations,
        i,
        j,
    ) by {
        lemma_connected_self(observations, i);
    }
    assert forall|r: int|
        0 <= r < observations.len() && partition.roots[r] == r
            && #[trigger] partition.vendors[r] is Some implies speaks_for(
        observations,
        partition,
        r,
    ) by {
        assert(partition.roots[r] == r && Some(observations[r].vendor) == partition.vendors[r]);
    }
}

proof fn lemma_strong_links_sound(observations: Seq<DeviceObservation>, n: nat)
    requires
        n <= observations.len(),
        observations.len() <= usize::MAX,
    ensures
        sound(observations, strong_links(observations, n).partition),
        records_keys(observations, strong_links(observations, n).first),
    decreases n,
{
    if n == 0 {
        lemma_singletons_sound(observations);
    } else {
        lemma_strong_links_sound(observations, (n - 1) as nat);
        lemma_follow_keys_sound(
            observations,
            strong_links(observations, (n - 1) as nat),
            (n - 1) as usize,
            strong_keys(observations[n - 1]),
        );
    }
}

proof fn lemma_weak_group_sound(
    observations: Seq<DeviceObservation>,
    partition: Partition,
    f: int,
    n: int,
)
    requires
        sound(observations, partition),
        0 <= f < observations.len(),
        leads_weak_group(observations, f),
        n <= observations.len(),
    ensures
        sound(observations, weak_group_links(observations, partition, f, n)),
        never_parts(partition, weak_group_links(observations, partition, f, n)),
    decreases n - f,
{
    if n > f + 1 {
        lemma_weak_group_sound(observations, partition, f, n - 1);
        let before = weak_group_links(observations, partition, f, n - 1);
        if same_weak_key(observations[f], observations[n - 1]) {
            assert(distinct_providers(observations, observations[f]));
            lemma_joined_sound(observations, before, f, n - 1);
        }
    }
}

proof fn lemma_weak_links_sound(
    observations: Seq<DeviceObservation>,
    partition: Partition,
    n: nat,
)
    requires
        sound(observations, partition),
        n <= observations.len(),
    ensures
        sound(observations, weak_links(observations, partition, n)),
        never_parts(partition, weak_links(observations, partition, n)),
    decreases n,
{
    if n > 0 {
        lemma_weak_links_sound(observations, partition, (n - 1) as nat);
        let before = weak_links(observations, partition, (n - 1) as nat);
        if leads_weak_group(observations, n - 1) {
            lemma_weak_group_sound(observations, before, n - 1, observations.len() as int);
        }
    }
}

pub proof fn lemma_correlation_sound(observations: Seq<DeviceObservation>)
    requires
        observations.len() <= usize::MAX,
    ensures
        sound(observations, correlation(observations)),
{
    lemma_strong_links_sound(observations, observations.len());
    lemma_weak_links_sound(
        observations,
        strong_links(observations, observations.len()).partition,
        observations.len(),
    );
}

/// Two observations are put into one device.
pub open spec fn together(observations: Seq<DeviceObservation>, i: int, j: int) -> bool {
    correlation(observations).roots[i] == correlation(observations).roots[j]
}

/// Observations of two different known vendors are never put into one device, not even where an
/// observation of unknown vendor is linked to both.
pub proof fn law_vendors_never_mix(observations: Seq<DeviceObservation>, i: int, j: int)
    requires
        observations.len() <= usize::MAX,
        0 <= i < observations.len(),
        0 <= j < observations.len(),
        together(observations, i, j),
    ensures
        compatible(observations[i].vendor, observations[j].vendor),
{
    reveal(classes_sound);
    lemma_correlation_sound(observations);
}

/// Observations are put into one device only where a chain of common strong keys or of common
/// weak keys leads from one to the other.
pub proof fn law_only_linked_observations_merge(
    observations: Seq<DeviceObservation>,
    i: int,
    j: int,
)
    requires
        observations.len() <= usize::MAX,
        0 <= i < observations.len(),
        0 <= j < observations.len(),
        together(observations, i, j),
    ensures
        connected(observations, i, j),
{
    reveal(classes_sound);
    lemma_correlation_sound(observations);
}

/// An observation without a strong key and without an ordinal stands alone, whatever its name.
pub proof fn law_names_alone_do_not_merge(
    observations: Seq<DeviceObservation>,
    i: int,
    j: int,
)
    requires
        observations.len() <= usize::MAX,
        0 <= i < observations.len(),
        0 <= j < observations.len(),
        strong_keys(observations[i]).len() == 0,
        observations[i].enumeration_ordinal is None,
        together(observations, i, j),
    ensures
        i == j,
{
    reveal(classes_sound);
    lemma_correlation_sound(observations);
    let path = choose|path: Seq<int>|
        #[trigger] is_path(observations, path) && path[0] == i && path.last() == j;
    if path.len() > 1 {
        assert(linked(observations, path[0], path[0int + 1]));
        assert(!shares_key(observations[i], observations[path[1]]));
    }
}

/// No chain of links leads to two different known vendors.
#[verifier::opaque]
pub open spec fn vendors_consistent(observations: Seq<DeviceObservation>) -> bool {
    forall|i: int, j: int| #[trigger]
        connected(observations, i, j) ==> compatible(
            observations[i].vendor,
            observations[j].vendor,
        )
}

proof fn lemma_joined_joins(
    observations: Seq<DeviceObservation>,
    partition: Partition,
    left: int,
    right: int,
)
    requires
        sound(observations, partition),
        linked(observations, left, right),
        vendors_consistent(observations),
    ensures
        ({
            let after = joined(partition, left, right);
            after.roots[left] == after.roots[right]
        }),
{
    reveal(classes_sound);
    reveal(vendors_consistent);
    let a = partition.roots[left];
    let b = partition.roots[right];
    assert(partition.roots[a] == a && partition.roots[b] == b);
    if a != b && partition.vendors[a] is Some && partition.vendors[b] is Some {
        assert(speaks_for(observations, partition, a));
        assert(speaks_for(observations, partition, b));
        let m = choose|m: int|
            0 <= m < observations.len() && partition.roots[m] == a && Some(
                (#[trigger] observations[m]).vendor,
            ) == partition.vendors[a] && observations[m].vendor != GpuVendor::Unknown;
        let k = choose|k: int|
            0 <= k < observations.len() && partition.roots[k] == b && Some(
                (#[trigger] observations[k]).vendor,
            ) == partition.vendors[b] && observations[k].vendor != GpuVendor::Unknown;
        assert(partition.roots[m] == partition.roots[left]);
        assert(partition.roots[right] == partition.roots[k]);
        lemma_connected_link(observations, left, right);
        lemma_connected_transitive(observations, m, left, right);
        lemma_connected_transitive(observations, m, right, k);
        assert(compatible(observations[m].vendor, observations[k].vendor));
    }
}

/// Every key of the observations below `n` is recorded, for a member of the same class.
pub open spec fn keys_followed(
    observations: Seq<DeviceObservation>,
    links: Links,
    n: int,
) -> bool {
    forall|i: int, key: Seq<char>|
        0 <= i < n && #[trigger] strong_keys(observations[i]).contains(key)
            ==> links.first.contains_key(key) && links.partition.roots[links.first[key] as int]
            == links.partition.roots[i]
}

proof fn lemma_follow_keys_joins(
    observations: Seq<DeviceObservation>,
    links: Links,
    i: usize,
    keys: Seq<Seq<char>>,
)
    requires
        sound(observations, links.partition),
        records_keys(observations, links.first),
        vendors_consistent(observations),
        i < observations.len(),
        forall|key: Seq<char>|
            #[trigger] keys.contains(key) ==> strong_keys(observations[i as int]).contains(key),
    ensures
        ({
            let after = follow_keys(observations, links, i, keys);
            forall|key: Seq<char>|
                #[trigger] keys.contains(key) ==> after.first.contains_key(key)
                    && after.partition.roots[after.first[key] as int]
                    == after.partition.roots[i as int]
        }),
    decreases keys.len(),
{
    if keys.len() > 0 {
        let rest = keys.drop_last();
        let key = keys.last();
        assert(keys.contains(key)) by {
            assert(keys[keys.len() - 1] == key);
        }
        assert forall|k: Seq<char>| #[trigger] rest.contains(k) implies strong_keys(
            observations[i as int],
        ).contains(k) by {
            let p = choose|p: int| 0 <= p < rest.len() && rest[p] == k;
            assert(keys[p] == k);
            assert(keys.contains(k));
        }
        lemma_follow_keys_joins(observations, links, i, rest);
        lemma_follow_keys_sound(observations, links, i, rest);
        let before = follow_keys(observations, links, i, rest);
        let after = follow_keys(observations, links, i, keys);
        if before.first.contains_key(key) {
            let previous = before.first[key] as int;
            assert(strong_keys(observations[previous]).contains(key));
            assert(strong_keys(observations[i as int]).contains(key));
            assert(shares_key(observations[previous], observations[i as int]));
            assert(compatible(observations[previous].vendor, observations[i as int].vendor)) by {
                lemma_connected_link(observations, previous, i as int);
                reveal(vendors_consistent);
            }
            lemma_joined_sound(observations, before.partition, previous, i as int);
            lemma_joined_joins(observations, before.partition, previous, i as int);
        }
        assert forall|k: Seq<char>| #[trigger] keys.contains(k) implies after.first.contains_key(k)
            && after.partition.roots[after.first[k] as int]
            == after.partition.roots[i as int] by {
            if k != key {
                let p = choose|p: int| 0 <= p < keys.len() && keys[p] == k;
                assert(rest[p] == k);
                assert(rest.contains(k));
                assert(before.first[k] < observations.len());
            }
        }
    }
}

proof fn lemma_strong_links_join(observations: Seq<DeviceObservation>, n: nat)
    requires
        n <= observations.len(),
        observations.len() <= usize::MAX,
        vendors_consistent(observations),
    ensures
        keys_followed(observations, strong_links(observations, n), n as int),
    decreases n,
{
    if n > 0 {
        let before = strong_links(observations, (n - 1) as nat);
        let after = strong_links(observations, n);
        let keys = strong_keys(observations[n - 1]);
        lemma_strong_links_join(observations, (n - 1) as nat);
        lemma_strong_links_sound(observations, (n - 1) as nat);
        lemma_follow_keys_sound(observations, before, (n - 1) as usize, keys);
        lemma_follow_keys_joins(observations, before, (n - 1) as usize, keys);
        assert forall|i: int, key: Seq<char>|
            0 <= i < n && #[trigger] strong_keys(observations[i]).contains(key) implies
            after.first.contains_key(key) && after.partition.roots[after.first[key] as int]
            == after.partition.roots[i] by {
            if i < n - 1 {
                assert(before.first.contains_key(key));
                assert(before.first[key] < observations.len());
            } else {
                assert(keys.contains(key));
            }
        }
    }
}

proof fn lemma_weak_group_joins(
    observations: Seq<DeviceObservation>,
    partition: Partition,
    f: int,
    n: int,
)
    requires
        sound(observations, partition),
        vendors_consistent(observations),
        0 <= f < observations.len(),
        leads_weak_group(observations, f),
        n <= observations.len(),
    ensures
        ({
            let after = weak_group_links(observations, partition, f, n);
            forall|j: int|
                f < j < n && same_weak_key(observations[f], #[trigger] observations[j])
                    ==> after.roots[j] == after.roots[f]
        }),
    decreases n - f,
{
    if n > f + 1 {
        lemma_weak_group_joins(observations, partition, f, n - 1);
        lemma_weak_group_sound(observations, partition, f, n - 1);
        let before = weak_group_links(observations, partition, f, n - 1);
        if same_weak_key(observations[f], observations[n - 1]) {
            assert(distinct_providers(observations, observations[f]));
            assert(linked(observations, f, n - 1));
            lemma_joined_sound(observations, before, f, n - 1);
            lemma_joined_joins(observations, before, f, n - 1);
        }
    }
}

proof fn lemma_weak_links_join(
    observations: Seq<DeviceObservation>,
    partition: Partition,
    n: nat,
)
    requires
        sound(observations, partition),
        vendors_consistent(observations),
        n <= observations.len(),
    ensures
        ({
            let after = weak_links(observations, partition, n);
            forall|f: int, j: int|
                0 <= f < n && f < j < observations.len() && leads_weak_group(observations, f)
                    && #[trigger] same_weak_key(observations[f], observations[j])
                    ==> after.roots[j] == after.roots[f]
        }),
    decreases n,
{
    if n > 0 {
        lemma_weak_links_join(observations, partition, (n - 1) as nat);
        lemma_weak_links_sound(observations, partition, (n - 1) as nat);
        let before = weak_links(observations, partition, (n - 1) as nat);
        if leads_weak_group(observations, n - 1) {
            lemma_weak_group_joins(observations, before, n - 1, observations.len() as int);
            lemma_weak_group_sound(observations, before, n - 1, observations.len() as int);
        }
    }
}

/// The first observation with the weak key of `i`.
proof fn lemma_leader(observations: Seq<DeviceObservation>, i: int, from: int) -> (f: int)
    requires
        0 <= i < observations.len(),
        0 <= from <= i,
        observations[i].enumeration_ordinal is Some,
        distinct_providers(observations, observations[i]),
        forall|k: int| 0 <= k < from ==> !same_weak_key(#[trigger] observations[k], observations[i]),
    ensures
        0 <= f <= i,
        same_weak_key(observations[f], observations[i]),
        leads_weak_group(observations, f),
    decreases i - from,
{
    if same_weak_key(observations[from], observations[i]) {
        assert forall|k: int| 0 <= k < from implies !same_weak_key(
            #[trigger] observations[k],
            observations[from],
        ) by {
            assert(!same_weak_key(observations[k], observations[i]));
        }
        assert forall|x: int, y: int|
            0 <= x < y < observations.len() && same_weak_key(observations[from], observations[x])
                && same_weak_key(observations[from], observations[y]) implies
            #[trigger] observations[x].provider@ != #[trigger] observations[y].provider@ by {
            assert(same_weak_key(observations[i], observations[x]));
            assert(same_weak_key(observations[i], observations[y]));
        }
        from
    } else {
        lemma_leader(observations, i, from + 1)
    }
}

/// Observations that share a strong key, or a weak key that each provider uses at most once, are
/// put into one device, unless known vendors contradict it.
pub proof fn law_linked_observations_merge(
    observations: Seq<DeviceObservation>,
    i: int,
    j: int,
)
    requires
        observations.len() <= usize::MAX,
        vendors_consistent(observations),
        linked(observations, i, j),
    ensures
        together(observations, i, j),
{
    let n = observations.len();
    let strong = strong_links(observations, n);
    lemma_strong_links_sound(observations, n);
    lemma_strong_links_join(observations, n);
    lemma_weak_links_sound(observations, strong.partition, n);
    lemma_weak_links_join(observations, strong.partition, n);
    if shares_key(observations[i], observations[j]) {
        let key = choose|key: Seq<char>| #[trigger]
            strong_keys(observations[i]).contains(key) && strong_keys(observations[j]).contains(key);
        assert(strong_keys(observations[j]).contains(key));
        assert(strong.partition.roots[i] == strong.partition.roots[j]);
    } else {
        let f = lemma_leader(observations, i, 0);
        assert(same_weak_key(observations[f], observations[i]));
        assert(same_weak_key(observations[f], observations[j]));
        if j < f {
            assert(same_weak_key(observations[j], observations[f]));
            assert(false);
        }
    }
}

proof fn lemma_path_together(observations: Seq<DeviceObservation>, path: Seq<int>, n: int)
    requires
        observations.len() <= usize::MAX,
        vendors_consistent(observations),
        is_path(observations, path),
        0 <= n < path.len(),
    ensures
        together(observations, path[0], path[n]),
    decreases n,
{
    if n > 0 {
        lemma_path_together(observations, path, n - 1);
        assert(linked(observations, path[n - 1], path[n - 1 + 1]));
        law_linked_observations_merge(observations, path[n - 1], path[n]);
    }
}

/// Unless known vendors contradict it, two observations are put into one device exactly where a
/// chain of links leads from one to the other.
pub proof fn law_devices_are_chains_of_links(
    observations: Seq<DeviceObservation>,
    i: int,
    j: int,
)
    requires
        observations.len() <= usize::MAX,
        vendors_consistent(observations),
        0 <= i < observations.len(),
        0 <= j < observations.len(),
    ensures
        together(observations, i, j) <==> connected(observations, i, j),
{
    reveal(classes_sound);
    lemma_correlation_sound(observations);
    if connected(observations, i, j) {
        let path = choose|path: Seq<int>|
            #[trigger] is_path(observations, path) && path[0] == i && path.last() == j;
        lemma_path_together(observations, path, path.len() - 1);
    }
}

} // verus!
