//! Which observations speak of the same device.
use crate::canonical::{
    cluster_id, cluster_model, get_text_field, in_bounds, merge_cluster, picked, text_field,
    GpuModel, TextField,
};
use crate::model::{CanonicalGpu, DeviceObservation, GpuVendor};
pub use crate::normalize::normalize_pci_address;
use crate::normalize::{identifier, normalize_identifier, normalize_name, pci_address, plain_name};
use crate::ordered::{
    arrange, arranged, indices, models, stable_order, stable_order_of, Ordered, Relation,
};
use crate::sorted_map::SortedMap;
use crate::text::{joined as joined_text, relate_text, text_less};
use crate::union_find::{joined, singletons, Partition, UnionFind};
use vstd::prelude::*;

verus! {

/// The key that one identifier of an observation gives, if it gives one.
pub open spec fn key_of(
    observation: DeviceObservation,
    field: TextField,
    prefix: Seq<char>,
) -> Seq<Seq<char>> {
    match text_field(observation, field) {
        None => Seq::empty(),
        Some(text) => {
            let plain = if field == TextField::PciAddress {
                pci_address(text@)
            } else {
                identifier(text@)
            };
            if plain.len() == 0 && (field == TextField::Uuid || field == TextField::PciAddress) {
                Seq::empty()
            } else {
                seq![prefix + plain]
            }
        },
    }
}

/// The strong keys of an observation: two observations with a common key speak of one device.
pub open spec fn strong_keys(observation: DeviceObservation) -> Seq<Seq<char>> {
    key_of(observation, TextField::Uuid, "uuid:"@) + key_of(
        observation,
        TextField::PciAddress,
        "pci:"@,
    ) + key_of(observation, TextField::Luid, "luid:"@) + key_of(
        observation,
        TextField::PnpDeviceId,
        "pnp:"@,
    ) + key_of(observation, TextField::RegistryEntryId, "ioreg:"@) + key_of(
        observation,
        TextField::MetalRegistryId,
        "metal:"@,
    )
}

/// The views of keys.
pub open spec fn key_views(keys: Seq<String>) -> Seq<Seq<char>> {
    keys.map_values(|key: String| key@)
}

fn push_key(keys: &mut Vec<String>, observation: &DeviceObservation, field: TextField, prefix: &str)
    ensures
        key_views(final(keys)@) == key_views(old(keys)@) + key_of(*observation, field, prefix@),
{
    let ghost before = key_views(keys@);
    if let Some(text) = get_text_field(observation, field) {
        let plain = if field == TextField::PciAddress {
            normalize_pci_address(text.as_str())
        } else {
            normalize_identifier(text.as_str())
        };
        if !plain.as_str().is_empty() || !(field == TextField::Uuid || field
            == TextField::PciAddress) {
            keys.push(joined_text(prefix, plain.as_str()));
            assert(key_views(keys@) == before.push(prefix@ + plain@));
        }
    }
    assert(key_views(keys@) == before + key_of(*observation, field, prefix@));
}

pub fn correlation_keys(observation: &DeviceObservation) -> (keys: Vec<String>)
    ensures
        key_views(keys@) == strong_keys(*observation),
{
    let mut keys: Vec<String> = Vec::new();
    assert(key_views(keys@) == Seq::<Seq<char>>::empty());
    push_key(&mut keys, observation, TextField::Uuid, "uuid:");
    push_key(&mut keys, observation, TextField::PciAddress, "pci:");
    push_key(&mut keys, observation, TextField::Luid, "luid:");
    push_key(&mut keys, observation, TextField::PnpDeviceId, "pnp:");
    push_key(&mut keys, observation, TextField::RegistryEntryId, "ioreg:");
    push_key(&mut keys, observation, TextField::MetalRegistryId, "metal:");
    assert(key_views(keys@) == strong_keys(*observation));
    keys
}

/// Two vendors that may be one.
pub open spec fn compatible(left: GpuVendor, right: GpuVendor) -> bool {
    left == right || left == GpuVendor::Unknown || right == GpuVendor::Unknown
}

pub fn vendors_compatible(left: GpuVendor, right: GpuVendor) -> (agree: bool)
    ensures
        agree == compatible(left, right),
{
    left == right || left == GpuVendor::Unknown || right == GpuVendor::Unknown
}

/// How far the strong keys have been followed: the first observation with each key, and the
/// classes so far.
#[verifier::ext_equal]
pub struct Links {
    pub first: Map<Seq<char>, usize>,
    pub partition: Partition,
}

/// One key of observation `i` followed.
pub open spec fn follow_key(
    observations: Seq<DeviceObservation>,
    links: Links,
    i: usize,
    key: Seq<char>,
) -> Links {
    if links.first.contains_key(key) {
        let previous = links.first[key];
        if compatible(observations[previous as int].vendor, observations[i as int].vendor) {
            Links { partition: joined(links.partition, previous as int, i as int), ..links }
        } else {
            links
        }
    } else {
        Links { first: links.first.insert(key, i), ..links }
    }
}

/// The given keys of observation `i` followed, in order.
pub open spec fn follow_keys(
    observations: Seq<DeviceObservation>,
    links: Links,
    i: usize,
    keys: Seq<Seq<char>>,
) -> Links
    decreases keys.len(),
{
    if keys.len() == 0 {
        links
    } else {
        follow_key(
            observations,
            follow_keys(observations, links, i, keys.drop_last()),
            i,
            keys.last(),
        )
    }
}

/// The strong keys of the first `n` observations followed.
pub open spec fn strong_links(observations: Seq<DeviceObservation>, n: nat) -> Links
    decreases n,
{
    if n == 0 {
        Links {
            first: Map::empty(),
            partition: singletons(observations.map_values(|o: DeviceObservation| o.vendor)),
        }
    } else {
        follow_keys(
            observations,
            strong_links(observations, (n - 1) as nat),
            (n - 1) as usize,
            strong_keys(observations[n - 1]),
        )
    }
}

/// Two observations of the same place in the enumeration of equally named devices of one vendor.
pub open spec fn same_weak_key(a: DeviceObservation, b: DeviceObservation) -> bool {
    &&& a.enumeration_ordinal is Some
    &&& b.enumeration_ordinal == a.enumeration_ordinal
    &&& a.vendor == b.vendor
    &&& plain_name(a.name@) == plain_name(b.name@)
}

/// `f` is the first of its weak group, and no provider occurs twice in the group.
pub open spec fn leads_weak_group(observations: Seq<DeviceObservation>, f: int) -> bool {
    &&& observations[f].enumeration_ordinal is Some
    &&& forall|i: int|
        0 <= i < f ==> !same_weak_key(#[trigger] observations[i], observations[f])
    &&& forall|i: int, j: int|
        0 <= i < j < observations.len() && same_weak_key(observations[f], observations[i])
            && same_weak_key(observations[f], observations[j])
            ==> #[trigger] observations[i].provider@ != #[trigger] observations[j].provider@
}

/// `f` joined with the members of its weak group below `n`.
pub open spec fn weak_group_links(
    observations: Seq<DeviceObservation>,
    partition: Partition,
    f: int,
    n: int,
) -> Partition
    decreases n - f,
{
    if n <= f + 1 {
        partition
    } else {
        let before = weak_group_links(observations, partition, f, n - 1);
        if same_weak_key(observations[f], observations[n - 1]) {
            joined(before, f, n - 1)
        } else {
            before
        }
    }
}

/// The weak groups that the first `n` observations lead, joined.
pub open spec fn weak_links(
    observations: Seq<DeviceObservation>,
    partition: Partition,
    n: nat,
) -> Partition
    decreases n,
{
    if n == 0 {
        partition
    } else {
        let before = weak_links(observations, partition, (n - 1) as nat);
        if leads_weak_group(observations, n - 1) {
            weak_group_links(observations, before, n - 1, observations.len() as int)
        } else {
            before
        }
    }
}

/// The classes of observations that speak of one device.
pub open spec fn correlation(observations: Seq<DeviceObservation>) -> Partition {
    weak_links(
        observations,
        strong_links(observations, observations.len()).partition,
        observations.len(),
    )
}

fn link_strong(observations: &Vec<DeviceObservation>, forest: &mut UnionFind)
    requires
        old(forest).well_formed(),
        old(forest)@ == strong_links(observations@, 0).partition,
    ensures
        final(forest).well_formed(),
        final(forest)@ == strong_links(observations@, observations@.len()).partition,
        final(forest)@.roots.len() == observations@.len(),
{
    let mut first: SortedMap<String, usize> = SortedMap::new();
    let mut i: usize = 0;
    while i < observations.len()
        invariant
            i <= observations.len(),
            forest.well_formed(),
            forest@.roots.len() == observations@.len(),
            forest@ == strong_links(observations@, i as nat).partition,
            first@ == strong_links(observations@, i as nat).first,
            forall|key: Seq<char>|
                #[trigger] first@.contains_key(key) ==> first@[key] < observations@.len(),
        decreases observations.len() - i,
    {
        let keys = correlation_keys(&observations[i]);
        let ghost start = strong_links(observations@, i as nat);
        let ghost all = strong_keys(observations@[i as int]);
        let mut k: usize = 0;
        assert(all.take(0) == Seq::<Seq<char>>::empty());
        while k < keys.len()
            invariant
                k <= keys.len(),
                i < observations.len(),
                all == key_views(keys@),
                forest.well_formed(),
                forest@.roots.len() == observations@.len(),
                forest@ == follow_keys(observations@, start, i, all.take(k as int)).partition,
                first@ == follow_keys(observations@, start, i, all.take(k as int)).first,
                forall|key: Seq<char>|
                    #[trigger] first@.contains_key(key) ==> first@[key] < observations@.len(),
            decreases keys.len() - k,
        {
            assert(all.take(k + 1).drop_last() == all.take(k as int));
            assert(all.take(k + 1).last() == keys@[k as int]@);
            let ghost before = follow_keys(observations@, start, i, all.take(k as int));
            let known: Option<usize> = match first.get(&keys[k]) {
                Some(previous) => Some(*previous),
                None => None,
            };
            match known {
                Some(previous) => {
                    if vendors_compatible(observations[previous].vendor, observations[i].vendor) {
                        forest.union(previous, i);
                    }
                },
                None => {
                    first.insert(keys[k].clone(), i);
                },
            }
            k = k + 1;
        }
        assert(all.take(k as int) == all);
        i = i + 1;
        assert((i as nat - 1) as nat == (i - 1) as nat);
    }
}

/// `j` and `f` have the same weak key.
fn shares_weak_key(f: &DeviceObservation, j: &DeviceObservation) -> (same: bool)
    ensures
        same == same_weak_key(*f, *j),
{
    match (f.enumeration_ordinal, j.enumeration_ordinal) {
        (Some(a), Some(b)) => {
            if a == b && f.vendor == j.vendor {
                let x = normalize_name(f.name.as_str());
                let y = normalize_name(j.name.as_str());
                x == y
            } else {
                false
            }
        },
        _ => false,
    }
}

fn heads_weak_group(observations: &Vec<DeviceObservation>, f: usize) -> (leads: bool)
    requires
        f < observations@.len(),
    ensures
        leads == leads_weak_group(observations@, f as int),
{
    if observations[f].enumeration_ordinal.is_none() {
        return false;
    }
    let mut i: usize = 0;
    while i < f
        invariant
            i <= f < observations@.len(),
            forall|k: int|
                0 <= k < i ==> !same_weak_key(#[trigger] observations@[k], observations@[f as int]),
        decreases f - i,
    {
        if shares_weak_key(&observations[i], &observations[f]) {
            return false;
        }
        i = i + 1;
    }
    let mut i: usize = 0;
    while i < observations.len()
        invariant
            i <= observations@.len(),
            f < observations@.len(),
            forall|a: int, b: int|
                0 <= a < b < i && same_weak_key(observations@[f as int], observations@[a])
                    && same_weak_key(observations@[f as int], observations@[b])
                    ==> #[trigger] observations@[a].provider@
                    != #[trigger] observations@[b].provider@,
        decreases observations.len() - i,
    {
        if shares_weak_key(&observations[f], &observations[i]) {
            let mut j: usize = 0;
            while j < i
                invariant
                    j <= i < observations@.len(),
                    f < observations@.len(),
                    same_weak_key(observations@[f as int], observations@[i as int]),
                    forall|a: int|
                        0 <= a < j && same_weak_key(observations@[f as int], observations@[a])
                            ==> #[trigger] observations@[a].provider@
                            != observations@[i as int].provider@,
                decreases i - j,
            {
                if shares_weak_key(&observations[f], &observations[j]) && observations[j].provider
                    == observations[i].provider {
                    assert(observations@[j as int].provider@ == observations@[i as int].provider@);
                    return false;
                }
                j = j + 1;
            }
        }
        i = i + 1;
    }
    true
}

fn correlate_by_last_resort_heuristic(
    observations: &Vec<DeviceObservation>,
    forest: &mut UnionFind,
)
    requires
        old(forest).well_formed(),
        old(forest)@.roots.len() == observations@.len(),
    ensures
        final(forest).well_formed(),
        final(forest)@ == weak_links(observations@, old(forest)@, observations@.len()),
        final(forest)@.roots.len() == observations@.len(),
{
    let ghost start = forest@;
    let mut f: usize = 0;
    while f < observations.len()
        invariant
            f <= observations@.len(),
            forest.well_formed(),
            forest@.roots.len() == observations@.len(),
            forest@ == weak_links(observations@, start, f as nat),
        decreases observations.len() - f,
    {
        if heads_weak_group(observations, f) {
            let ghost before = forest@;
            let mut j: usize = f + 1;
            while j < observations.len()
                invariant
                    f < j <= observations@.len(),
                    forest.well_formed(),
                    forest@.roots.len() == observations@.len(),
                    forest@ == weak_group_links(observations@, before, f as int, j as int),
                decreases observations.len() - j,
            {
                if shares_weak_key(&observations[f], &observations[j]) {
                    forest.union(f, j);
                }
                j = j + 1;
            }
        }
        f = f + 1;
        assert((f as nat - 1) as nat == (f - 1) as nat);
    }
}

/// What the observations of a cluster are ordered by: the higher priority first, then the
/// provider, then its name for the device.
pub struct ClusterKey {
    pub priority: i16,
    pub provider: String,
    pub device: String,
}

/// A cluster key by its contents.
pub struct ClusterPlace {
    pub priority: i16,
    pub provider: Seq<char>,
    pub device: Seq<char>,
}

pub open spec fn place_before(a: ClusterPlace, b: ClusterPlace) -> bool {
    if a.priority != b.priority {
        a.priority > b.priority
    } else if a.provider != b.provider {
        text_less(a.provider, b.provider)
    } else {
        text_less(a.device, b.device)
    }
}

impl Ordered for ClusterKey {
    type Model = ClusterPlace;

    open spec fn model(&self) -> ClusterPlace {
        ClusterPlace {
            priority: self.priority,
            provider: self.provider@,
            device: self.device@,
        }
    }

    open spec fn less(a: ClusterPlace, b: ClusterPlace) -> bool {
        place_before(a, b)
    }

    proof fn less_irreflexive(a: ClusterPlace) {
        String::less_irreflexive(a.device);
    }

    proof fn less_transitive(a: ClusterPlace, b: ClusterPlace, c: ClusterPlace) {
        if a.priority == b.priority && b.priority == c.priority {
            if a.provider != b.provider && b.provider != c.provider {
                String::less_transitive(a.provider, b.provider, c.provider);
                if a.provider == c.provider {
                    String::less_irreflexive(a.provider);
                }
            } else if a.provider == b.provider && b.provider == c.provider {
                String::less_transitive(a.device, b.device, c.device);
            }
        }
    }

    proof fn less_total(a: ClusterPlace, b: ClusterPlace) {
        String::less_total(a.provider, b.provider);
        String::less_total(a.device, b.device);
    }

    fn relation(&self, other: &Self) -> (relation: Relation) {
        proof {
            String::less_irreflexive(self.provider@);
        }
        if self.priority > other.priority {
            Relation::Before
        } else if self.priority < other.priority {
            Relation::After
        } else {
            match relate_text(self.provider.as_str(), other.provider.as_str()) {
                Relation::Before => {
                    Relation::Before
                },
                Relation::After => {
                    Relation::After
                },
                Relation::Same => relate_text(self.device.as_str(), other.device.as_str()),
            }
        }
    }
}

/// The place of an observation within its cluster.
pub open spec fn place_of(observation: DeviceObservation) -> ClusterPlace {
    ClusterPlace {
        priority: observation.identity_priority,
        provider: observation.provider@,
        device: observation.provider_device_id@,
    }
}

/// The indices below `n` whose root is `root`, in ascending order.
pub open spec fn members(partition: Partition, root: int, n: int) -> Seq<int>
    decreases n,
{
    if n <= 0 {
        Seq::empty()
    } else if partition.roots[n - 1] == root {
        members(partition, root, n - 1).push(n - 1)
    } else {
        members(partition, root, n - 1)
    }
}

/// The observations of one class in the order of their places.
pub open spec fn cluster(
    observations: Seq<DeviceObservation>,
    partition: Partition,
    root: int,
) -> Seq<DeviceObservation> {
    let all = members(partition, root, observations.len() as int).map_values(
        |i: int| observations[i],
    );
    arranged(all, stable_order_of::<ClusterKey>(all.map_values(|o: DeviceObservation| place_of(o))))
}

/// The devices of the classes with roots below `n`, in ascending order of the roots.
pub open spec fn cluster_gpus(
    observations: Seq<DeviceObservation>,
    partition: Partition,
    n: int,
) -> Seq<GpuModel>
    decreases n,
{
    if n <= 0 {
        Seq::empty()
    } else {
        let before = cluster_gpus(observations, partition, n - 1);
        if partition.roots[n - 1] == n - 1 {
            let cluster = cluster(observations, partition, n - 1);
            before.push(cluster_model(cluster, cluster_id(cluster)))
        } else {
            before
        }
    }
}

/// The views of devices.
pub open spec fn gpu_models(gpus: Seq<CanonicalGpu>) -> Seq<GpuModel> {
    gpus.map_values(|gpu: CanonicalGpu| gpu@)
}

/// The members of one class in the order of their places.
fn ranked_members(
    observations: &Vec<DeviceObservation>,
    forest: &mut UnionFind,
    root: usize,
) -> (order: Vec<usize>)
    requires
        old(forest).well_formed(),
        old(forest)@.roots.len() == observations@.len(),
    ensures
        final(forest).well_formed(),
        final(forest)@ == old(forest)@,
        in_bounds(observations@, order@),
        picked(observations@, order@) == cluster(observations@, old(forest)@, root as int),
        order@.len() == members(old(forest)@, root as int, observations@.len() as int).len(),
{
    let ghost partition = forest@;
    let mut found: Vec<usize> = Vec::new();
    let mut keys: Vec<ClusterKey> = Vec::new();
    let mut i: usize = 0;
    assert(indices(found@) == Seq::<int>::empty());
    while i < observations.len()
        invariant
            i <= observations@.len(),
            forest.well_formed(),
            forest@ == partition,
            partition.roots.len() == observations@.len(),
            indices(found@) == members(partition, root as int, i as int),
            in_bounds(observations@, found@),
            keys.len() == found.len(),
            forall|k: int|
                0 <= k < keys.len() ==> (#[trigger] keys@[k]).model() == place_of(
                    observations@[found@[k] as int],
                ),
        decreases observations.len() - i,
    {
        if forest.find(i) == root {
            let ghost before = indices(found@);
            found.push(i);
            keys.push(
                ClusterKey {
                    priority: observations[i].identity_priority,
                    provider: observations[i].provider.clone(),
                    device: observations[i].provider_device_id.clone(),
                },
            );
            assert(indices(found@) == before.push(i as int));
        }
        i = i + 1;
    }
    let places = stable_order(&keys);
    let mut order: Vec<usize> = Vec::new();
    let mut p: usize = 0;
    while p < places.len()
        invariant
            p <= places.len(),
            places.len() == found.len(),
            in_bounds(observations@, found@),
            forall|k: int| 0 <= k < places@.len() ==> #[trigger] places@[k] < found@.len(),
            order.len() == p,
            forall|k: int| 0 <= k < p ==> #[trigger] order@[k] == found@[places@[k] as int],
        decreases places.len() - p,
    {
        order.push(found[places[p]]);
        p = p + 1;
    }
    proof {
        let all = members(partition, root as int, observations@.len() as int).map_values(
            |i: int| observations@[i],
        );
        let keyed = all.map_values(|o: DeviceObservation| place_of(o));
        assert forall|k: int| 0 <= k < found@.len() implies all[k]
            == observations@[found@[k] as int] by {
            assert(indices(found@)[k] == found@[k]);
        }
        assert(models(keys@) == keyed);
        assert(picked(observations@, order@) == cluster(observations@, partition, root as int)) by {
            assert forall|k: int| 0 <= k < order@.len() implies picked(observations@, order@)[k]
                == cluster(observations@, partition, root as int)[k] by {
                assert(indices(places@)[k] == places@[k]);
            }
        }
        assert forall|k: int| 0 <= k < order@.len() implies #[trigger] order@[k]
            < observations@.len() by {
            assert(order@[k] == found@[places@[k] as int]);
        }
    }
    order
}

proof fn lemma_root_is_member(partition: Partition, root: int, n: int)
    requires
        partition.well_formed(),
        0 <= root < n <= partition.roots.len(),
        partition.roots[root] == root,
    ensures
        members(partition, root, n).len() > 0,
    decreases n,
{
    if n - 1 > root {
        lemma_root_is_member(partition, root, n - 1);
    }
}

/// The devices of all classes, in ascending order of the roots.
fn merge_clusters(observations: &Vec<DeviceObservation>, forest: &mut UnionFind) -> (gpus: Vec<
    CanonicalGpu,
>)
    requires
        old(forest).well_formed(),
        old(forest)@.roots.len() == observations@.len(),
        old(forest)@.well_formed(),
    ensures
        gpu_models(gpus@) == cluster_gpus(
            observations@,
            old(forest)@,
            observations@.len() as int,
        ),
        forall|g: int| 0 <= g < gpus@.len() ==> (#[trigger] gpus@[g]).consistent(),
{
    let ghost partition = forest@;
    let mut gpus: Vec<CanonicalGpu> = Vec::new();
    let mut root: usize = 0;
    assert(gpu_models(gpus@) == Seq::<GpuModel>::empty());
    while root < observations.len()
        invariant
            root <= observations@.len(),
            forest.well_formed(),
            forest@ == partition,
            partition.well_formed(),
            partition.roots.len() == observations@.len(),
            gpu_models(gpus@) == cluster_gpus(observations@, partition, root as int),
            forall|g: int| 0 <= g < gpus@.len() ==> (#[trigger] gpus@[g]).consistent(),
        decreases observations.len() - root,
    {
        if forest.find(root) == root {
            let order = ranked_members(observations, forest, root);
            proof {
                lemma_root_is_member(partition, root as int, observations@.len() as int);
            }
            let gpu = merge_cluster(observations, &order);
            let ghost before = gpu_models(gpus@);
            gpus.push(gpu);
            assert(gpu_models(gpus@) == before.push(gpu@));
        }
        root = root + 1;
    }
    gpus
}

/// The device that a provider knows by `device`, the last one where there are several.
pub open spec fn device_named(
    gpus: Seq<GpuModel>,
    provider: Seq<char>,
    device: Seq<char>,
) -> Option<Seq<char>>
    decreases gpus.len(),
{
    if gpus.len() == 0 {
        None
    } else if knows_as(gpus.last(), provider, device) {
        Some(gpus.last().id)
    } else {
        device_named(gpus.drop_last(), provider, device)
    }
}

/// `provider` knows the device by the name `device`.
pub open spec fn knows_as(gpu: GpuModel, provider: Seq<char>, device: Seq<char>) -> bool {
    gpu.device_ids.contains_key(provider) && gpu.device_ids[provider]@ == device
}

/// The observation at which a device finds its parent: the first of its own that names one.
pub open spec fn parent_source(
    observations: Seq<DeviceObservation>,
    gpu: GpuModel,
) -> Option<DeviceObservation>
    decreases observations.len(),
{
    if observations.len() == 0 {
        None
    } else if parent_source(observations.drop_last(), gpu) is Some {
        parent_source(observations.drop_last(), gpu)
    } else if knows_as(gpu, observations.last().provider@, observations.last().provider_device_id@)
        && observations.last().parent_provider_device_id is Some {
        Some(observations.last())
    } else {
        None
    }
}

/// The public name of the parent of a device.
pub open spec fn parent_id(
    observations: Seq<DeviceObservation>,
    gpus: Seq<GpuModel>,
    gpu: GpuModel,
) -> Option<Seq<char>> {
    match parent_source(observations, gpu) {
        None => None,
        Some(source) => device_named(
            gpus,
            source.provider@,
            source.parent_provider_device_id->0@,
        ),
    }
}

/// The devices with their parents.
pub open spec fn with_parents(
    observations: Seq<DeviceObservation>,
    gpus: Seq<GpuModel>,
) -> Seq<GpuModel> {
    gpus.map_values(
        |gpu: GpuModel|
            GpuModel { parent_device_id: parent_id(observations, gpus, gpu), ..gpu },
    )
}

/// The devices that the observations speak of, in ascending order of their public names.
pub open spec fn correlated(observations: Seq<DeviceObservation>) -> Seq<GpuModel> {
    let gpus = with_parents(
        observations,
        cluster_gpus(observations, correlation(observations), observations.len() as int),
    );
    arranged(gpus, stable_order_of::<String>(gpus.map_values(|gpu: GpuModel| gpu.id)))
}

fn is_known_as(gpu: &CanonicalGpu, provider: &String, device: &String) -> (known: bool)
    ensures
        known == knows_as(gpu@, provider@, device@),
{
    match gpu.provider_device_ids.get(provider) {
        Some(id) => *id == *device,
        None => false,
    }
}

fn find_device_named(gpus: &Vec<CanonicalGpu>, provider: &String, device: &String) -> (id: Option<
    String,
>)
    ensures
        match id {
            Some(id) => device_named(gpu_models(gpus@), provider@, device@) == Some(id@),
            None => device_named(gpu_models(gpus@), provider@, device@) is None,
        },
{
    let ghost all = gpu_models(gpus@);
    let mut k: usize = gpus.len();
    assert(all.take(k as int) == all);
    while k > 0
        invariant
            k <= gpus.len(),
            all == gpu_models(gpus@),
            device_named(all, provider@, device@) == device_named(
                all.take(k as int),
                provider@,
                device@,
            ),
        decreases k,
    {
        assert(all.take(k as int).drop_last() == all.take(k - 1));
        assert(all.take(k as int).last() == gpus@[k - 1]@);
        if is_known_as(&gpus[k - 1], provider, device) {
            return Some(gpus[k - 1].identity.id.clone());
        }
        k = k - 1;
    }
    None
}

fn find_parent(
    observations: &Vec<DeviceObservation>,
    gpus: &Vec<CanonicalGpu>,
    gpu: &CanonicalGpu,
) -> (parent: Option<String>)
    ensures
        match parent {
            Some(id) => parent_id(observations@, gpu_models(gpus@), gpu@) == Some(id@),
            None => parent_id(observations@, gpu_models(gpus@), gpu@) is None,
        },
{
    let mut i: usize = 0;
    while i < observations.len()
        invariant
            i <= observations.len(),
            parent_source(observations@.take(i as int), gpu@) is None,
        decreases observations.len() - i,
    {
        assert(observations@.take(i + 1).drop_last() == observations@.take(i as int));
        let observation = &observations[i];
        if is_known_as(gpu, &observation.provider, &observation.provider_device_id) {
            if let Some(device) = &observation.parent_provider_device_id {
                proof {
                    lemma_parent_source_stays(observations@, gpu@, i + 1);
                }
                return find_device_named(gpus, &observation.provider, device);
            }
        }
        i = i + 1;
    }
    assert(observations@.take(i as int) == observations@);
    None
}

proof fn lemma_parent_source_stays(observations: Seq<DeviceObservation>, gpu: GpuModel, n: int)
    requires
        0 <= n <= observations.len(),
        parent_source(observations.take(n), gpu) is Some,
    ensures
        parent_source(observations, gpu) == parent_source(observations.take(n), gpu),
    decreases observations.len() - n,
{
    if n == observations.len() {
        assert(observations.take(n) == observations);
    } else {
        assert(observations.take(n + 1).drop_last() == observations.take(n));
        lemma_parent_source_stays(observations, gpu, n + 1);
    }
}

/// Puts the observations of all providers together into devices.
pub fn correlate(observations: Vec<DeviceObservation>) -> (gpus: Vec<CanonicalGpu>)
    ensures
        gpu_models(gpus@) == correlated(observations@),
        forall|g: int| 0 <= g < gpus@.len() ==> (#[trigger] gpus@[g]).consistent(),
{
    let mut vendors: Vec<GpuVendor> = Vec::new();
    let mut i: usize = 0;
    while i < observations.len()
        invariant
            i <= observations.len(),
            vendors.len() == i,
            forall|k: int| 0 <= k < i ==> #[trigger] vendors@[k] == observations@[k].vendor,
        decreases observations.len() - i,
    {
        vendors.push(observations[i].vendor);
        i = i + 1;
    }
    let mut forest = UnionFind::new(&vendors);
    assert(vendors@ == observations@.map_values(|o: DeviceObservation| o.vendor));
    link_strong(&observations, &mut forest);
    correlate_by_last_resort_heuristic(&observations, &mut forest);
    let ghost partition = forest@;
    proof {
        forest.lemma_well_formed();
    }
    let merged = merge_clusters(&observations, &mut forest);
    let ghost base = gpu_models(merged@);
    let mut parents: Vec<Option<String>> = Vec::new();
    let mut ids: Vec<String> = Vec::new();
    let mut g: usize = 0;
    while g < merged.len()
        invariant
            g <= merged.len(),
            base == gpu_models(merged@),
            parents.len() == g,
            ids.len() == g,
            forall|k: int| 0 <= k < g ==> (#[trigger] ids@[k])@ == base[k].id,
            forall|k: int|
                0 <= k < g ==> match #[trigger] parents@[k] {
                    Some(id) => parent_id(observations@, base, base[k]) == Some(id@),
                    None => parent_id(observations@, base, base[k]) is None,
                },
        decreases merged.len() - g,
    {
        parents.push(find_parent(&observations, &merged, &merged[g]));
        ids.push(merged[g].identity.id.clone());
        g = g + 1;
    }
    let ghost all = with_parents(observations@, base);
    let order = stable_order(&ids);
    assert(models(ids@) == all.map_values(|gpu: GpuModel| gpu.id));
    let mut sorted = arrange(merged, &order);
    let mut p: usize = 0;
    let ghost before = sorted@;
    while p < order.len()
        invariant
            p <= order.len(),
            order.len() == sorted.len(),
            sorted.len() == before.len(),
            before == arranged(merged@, indices(order@)),
            base == gpu_models(merged@),
            all == with_parents(observations@, base),
            parents.len() == merged@.len(),
            forall|k: int| 0 <= k < order@.len() ==> #[trigger] order@[k] < merged@.len(),
            forall|k: int|
                0 <= k < parents.len() ==> match #[trigger] parents@[k] {
                    Some(id) => parent_id(observations@, base, base[k]) == Some(id@),
                    None => parent_id(observations@, base, base[k]) is None,
                },
            forall|k: int| 0 <= k < merged@.len() ==> (#[trigger] merged@[k]).consistent(),
            forall|k: int| p <= k < sorted.len() ==> #[trigger] sorted@[k] == before[k],
            forall|k: int|
                0 <= k < p ==> (#[trigger] sorted@[k])@ == all[order@[k] as int],
            forall|k: int| 0 <= k < p ==> (#[trigger] sorted@[k]).consistent(),
        decreases order.len() - p,
    {
        let parent = parents[order[p]].clone();
        assert(indices(order@)[p as int] == order@[p as int]);
        let ghost gpu = sorted@[p as int];
        assert(gpu == merged@[order@[p as int] as int]);
        sorted[p].identity.parent_device_id = parent;
        p = p + 1;
    }
    proof {
        let expected = correlated(observations@);
        assert forall|k: int| 0 <= k < sorted@.len() implies gpu_models(sorted@)[k]
            == expected[k] by {
            assert(indices(order@)[k] == order@[k]);
            assert(sorted@[k]@ == all[order@[k] as int]);
        }
        assert(gpu_models(sorted@) == expected);
    }
    sorted
}

} // verus!
