//! Which identifiers make two observations speak of one device, stated on the identifiers.
use crate::correlation::{key_of, strong_keys};
use crate::correlation_laws::{
    connected, is_path, law_linked_observations_merge, law_only_linked_observations_merge, linked,
    shares_key, together, vendors_consistent,
};
use crate::canonical::TextField;
use crate::model::{DeviceObservation, GpuVendor};
use crate::normalize::{identifier, pci_address, plain_name};
use vstd::prelude::*;

verus! {

/// Both texts are there, and have the same normal form.
pub open spec fn same_identifier(a: Option<String>, b: Option<String>) -> bool {
    a is Some && b is Some && identifier(a->0@) == identifier(b->0@)
}

pub open spec fn same_uuid(a: DeviceObservation, b: DeviceObservation) -> bool {
    same_identifier(a.uuid, b.uuid) && identifier(a.uuid->0@).len() > 0
}

pub open spec fn same_pci_address(a: DeviceObservation, b: DeviceObservation) -> bool {
    &&& a.pci is Some && a.pci->0.address is Some
    &&& b.pci is Some && b.pci->0.address is Some
    &&& pci_address(a.pci->0.address->0@) == pci_address(b.pci->0.address->0@)
    &&& pci_address(a.pci->0.address->0@).len() > 0
}

pub open spec fn same_luid(a: DeviceObservation, b: DeviceObservation) -> bool {
    a.windows is Some && b.windows is Some && same_identifier(a.windows->0.luid, b.windows->0.luid)
}

pub open spec fn same_pnp_device_id(a: DeviceObservation, b: DeviceObservation) -> bool {
    a.windows is Some && b.windows is Some && same_identifier(
        a.windows->0.pnp_device_id,
        b.windows->0.pnp_device_id,
    )
}

pub open spec fn same_registry_entry_id(a: DeviceObservation, b: DeviceObservation) -> bool {
    a.macos is Some && b.macos is Some && same_identifier(
        a.macos->0.registry_entry_id,
        b.macos->0.registry_entry_id,
    )
}

pub open spec fn same_metal_registry_id(a: DeviceObservation, b: DeviceObservation) -> bool {
    a.macos is Some && b.macos is Some && same_identifier(
        a.macos->0.metal_registry_id,
        b.macos->0.metal_registry_id,
    )
}

/// Some identifier of the device is the same in both observations.
pub open spec fn same_device(a: DeviceObservation, b: DeviceObservation) -> bool {
    ||| same_uuid(a, b)
    ||| same_pci_address(a, b)
    ||| same_luid(a, b)
    ||| same_pnp_device_id(a, b)
    ||| same_registry_entry_id(a, b)
    ||| same_metal_registry_id(a, b)
}

/// The observation has no identifier that another one could share.
pub open spec fn is_unidentified(o: DeviceObservation) -> bool {
    &&& o.uuid is None || identifier(o.uuid->0@).len() == 0
    &&& o.pci is None || o.pci->0.address is None || pci_address(o.pci->0.address->0@).len() == 0
    &&& o.windows is None || (o.windows->0.luid is None && o.windows->0.pnp_device_id is None)
    &&& o.macos is None || (o.macos->0.registry_entry_id is None
        && o.macos->0.metal_registry_id is None)
}

/// Both are at the same place in the enumeration of equally named devices of one vendor.
pub open spec fn same_place(a: DeviceObservation, b: DeviceObservation) -> bool {
    &&& a.enumeration_ordinal is Some
    &&& b.enumeration_ordinal is Some
    &&& a.enumeration_ordinal->0 == b.enumeration_ordinal->0
    &&& a.vendor == b.vendor
    &&& plain_name(a.name@) == plain_name(b.name@)
}

proof fn lemma_key_in(o: DeviceObservation, field: TextField, prefix: Seq<char>)
    requires
        key_of(o, field, prefix).len() > 0,
        (field == TextField::Uuid && prefix == "uuid:"@) || (field == TextField::PciAddress
            && prefix == "pci:"@) || (field == TextField::Luid && prefix == "luid:"@) || (field
            == TextField::PnpDeviceId && prefix == "pnp:"@) || (field
            == TextField::RegistryEntryId && prefix == "ioreg:"@) || (field
            == TextField::MetalRegistryId && prefix == "metal:"@),
    ensures
        strong_keys(o).contains(key_of(o, field, prefix)[0]),
{
    let a = key_of(o, TextField::Uuid, "uuid:"@);
    let b = key_of(o, TextField::PciAddress, "pci:"@);
    let c = key_of(o, TextField::Luid, "luid:"@);
    let d = key_of(o, TextField::PnpDeviceId, "pnp:"@);
    let e = key_of(o, TextField::RegistryEntryId, "ioreg:"@);
    let f = key_of(o, TextField::MetalRegistryId, "metal:"@);
    let all = strong_keys(o);
    let at: int = if field == TextField::Uuid {
        0
    } else if field == TextField::PciAddress {
        a.len() as int
    } else if field == TextField::Luid {
        (a.len() + b.len()) as int
    } else if field == TextField::PnpDeviceId {
        (a.len() + b.len() + c.len()) as int
    } else if field == TextField::RegistryEntryId {
        (a.len() + b.len() + c.len() + d.len()) as int
    } else {
        (a.len() + b.len() + c.len() + d.len() + e.len()) as int
    };
    assert(all[at] == key_of(o, field, prefix)[0]);
}

/// A key of an observation comes from one of its identifiers.
proof fn lemma_key_from(o: DeviceObservation, key: Seq<char>)
    requires
        strong_keys(o).contains(key),
    ensures
        key_of(o, TextField::Uuid, "uuid:"@) == seq![key] || key_of(
            o,
            TextField::PciAddress,
            "pci:"@,
        ) == seq![key] || key_of(o, TextField::Luid, "luid:"@) == seq![key] || key_of(
            o,
            TextField::PnpDeviceId,
            "pnp:"@,
        ) == seq![key] || key_of(o, TextField::RegistryEntryId, "ioreg:"@) == seq![key] || key_of(
            o,
            TextField::MetalRegistryId,
            "metal:"@,
        ) == seq![key],
{
    let a = key_of(o, TextField::Uuid, "uuid:"@);
    let b = key_of(o, TextField::PciAddress, "pci:"@);
    let c = key_of(o, TextField::Luid, "luid:"@);
    let d = key_of(o, TextField::PnpDeviceId, "pnp:"@);
    let e = key_of(o, TextField::RegistryEntryId, "ioreg:"@);
    let f = key_of(o, TextField::MetalRegistryId, "metal:"@);
    let all = strong_keys(o);
    let at = choose|at: int| 0 <= at < all.len() && all[at] == key;
    let n1 = a.len() as int;
    let n2 = n1 + b.len();
    let n3 = n2 + c.len();
    let n4 = n3 + d.len();
    let n5 = n4 + e.len();
    if at < n1 {
        assert(a =~= seq![key]);
    } else if at < n2 {
        assert(b[at - n1] == key);
        assert(b =~= seq![key]);
    } else if at < n3 {
        assert(c[at - n2] == key);
        assert(c =~= seq![key]);
    } else if at < n4 {
        assert(d[at - n3] == key);
        assert(d =~= seq![key]);
    } else if at < n5 {
        assert(e[at - n4] == key);
        assert(e =~= seq![key]);
    } else {
        assert(f[at - n5] == key);
        assert(f =~= seq![key]);
    }
}

proof fn lemma_prefix(prefix: Seq<char>, a: Seq<char>, b: Seq<char>)
    requires
        prefix + a == prefix + b,
    ensures
        a == b,
{
    assert((prefix + a).skip(prefix.len() as int) =~= a);
    assert((prefix + b).skip(prefix.len() as int) =~= b);
}

/// Two observations have a key in common exactly where an identifier of one kind is the same in
/// both: the UUID, the PCI address, the LUID, the PnP identifier, the registry entry or the Metal
/// registry identifier. No two kinds are mixed up.
pub proof fn law_keys_are_identifiers(a: DeviceObservation, b: DeviceObservation)
    ensures
        shares_key(a, b) <==> same_device(a, b),
{
    reveal_strlit("uuid:");
    reveal_strlit("pci:");
    reveal_strlit("luid:");
    reveal_strlit("pnp:");
    reveal_strlit("ioreg:");
    reveal_strlit("metal:");
    if same_uuid(a, b) {
        lemma_key_in(a, TextField::Uuid, "uuid:"@);
        lemma_key_in(b, TextField::Uuid, "uuid:"@);
    }
    if same_pci_address(a, b) {
        lemma_key_in(a, TextField::PciAddress, "pci:"@);
        lemma_key_in(b, TextField::PciAddress, "pci:"@);
    }
    if same_luid(a, b) {
        lemma_key_in(a, TextField::Luid, "luid:"@);
        lemma_key_in(b, TextField::Luid, "luid:"@);
    }
    if same_pnp_device_id(a, b) {
        lemma_key_in(a, TextField::PnpDeviceId, "pnp:"@);
        lemma_key_in(b, TextField::PnpDeviceId, "pnp:"@);
    }
    if same_registry_entry_id(a, b) {
        lemma_key_in(a, TextField::RegistryEntryId, "ioreg:"@);
        lemma_key_in(b, TextField::RegistryEntryId, "ioreg:"@);
    }
    if same_metal_registry_id(a, b) {
        lemma_key_in(a, TextField::MetalRegistryId, "metal:"@);
        lemma_key_in(b, TextField::MetalRegistryId, "metal:"@);
    }
    if shares_key(a, b) {
        let key = choose|key: Seq<char>| #[trigger]
            strong_keys(a).contains(key) && strong_keys(b).contains(key);
        lemma_key_from(a, key);
        lemma_key_from(b, key);
        let (x, y) = (key[0], key[1]);
        if key_of(a, TextField::Uuid, "uuid:"@) == seq![key] {
            lemma_shared(a, b, TextField::Uuid, "uuid:"@, key);
        } else if key_of(a, TextField::PciAddress, "pci:"@) == seq![key] {
            lemma_shared(a, b, TextField::PciAddress, "pci:"@, key);
        } else if key_of(a, TextField::Luid, "luid:"@) == seq![key] {
            lemma_shared(a, b, TextField::Luid, "luid:"@, key);
        } else if key_of(a, TextField::PnpDeviceId, "pnp:"@) == seq![key] {
            lemma_shared(a, b, TextField::PnpDeviceId, "pnp:"@, key);
        } else if key_of(a, TextField::RegistryEntryId, "ioreg:"@) == seq![key] {
            lemma_shared(a, b, TextField::RegistryEntryId, "ioreg:"@, key);
        } else {
            lemma_shared(a, b, TextField::MetalRegistryId, "metal:"@, key);
        }
    }
}

proof fn lemma_heads(o: DeviceObservation, field: TextField, prefix: Seq<char>, key: Seq<char>)
    requires
        key_of(o, field, prefix) == seq![key],
        prefix.len() >= 2,
    ensures
        key.len() >= 2,
        key[0] == prefix[0],
        key[1] == prefix[1],
{
    assert(key_of(o, field, prefix)[0] == key);
}

proof fn lemma_shared(
    a: DeviceObservation,
    b: DeviceObservation,
    field: TextField,
    prefix: Seq<char>,
    key: Seq<char>,
)
    requires
        (field == TextField::Uuid && prefix == "uuid:"@) || (field == TextField::PciAddress
            && prefix == "pci:"@) || (field == TextField::Luid && prefix == "luid:"@) || (field
            == TextField::PnpDeviceId && prefix == "pnp:"@) || (field
            == TextField::RegistryEntryId && prefix == "ioreg:"@) || (field
            == TextField::MetalRegistryId && prefix == "metal:"@),
        key_of(a, field, prefix) == seq![key],
        strong_keys(b).contains(key),
    ensures
        same_device(a, b),
{
    reveal_strlit("uuid:");
    reveal_strlit("pci:");
    reveal_strlit("luid:");
    reveal_strlit("pnp:");
    reveal_strlit("ioreg:");
    reveal_strlit("metal:");
    lemma_heads(a, field, prefix, key);
    lemma_key_from(b, key);
    if key_of(b, TextField::Uuid, "uuid:"@) == seq![key] {
        lemma_heads(b, TextField::Uuid, "uuid:"@, key);
    } else if key_of(b, TextField::PciAddress, "pci:"@) == seq![key] {
        lemma_heads(b, TextField::PciAddress, "pci:"@, key);
    } else if key_of(b, TextField::Luid, "luid:"@) == seq![key] {
        lemma_heads(b, TextField::Luid, "luid:"@, key);
    } else if key_of(b, TextField::PnpDeviceId, "pnp:"@) == seq![key] {
        lemma_heads(b, TextField::PnpDeviceId, "pnp:"@, key);
    } else if key_of(b, TextField::RegistryEntryId, "ioreg:"@) == seq![key] {
        lemma_heads(b, TextField::RegistryEntryId, "ioreg:"@, key);
    } else {
        lemma_heads(b, TextField::MetalRegistryId, "metal:"@, key);
    }
    assert(key_of(b, field, prefix) == seq![key]);
    assert(key_of(a, field, prefix)[0] == key_of(b, field, prefix)[0]);
    let text_a = crate::canonical::text_field(a, field)->0@;
    let text_b = crate::canonical::text_field(b, field)->0@;
    if field == TextField::PciAddress {
        lemma_prefix(prefix, pci_address(text_a), pci_address(text_b));
    } else {
        lemma_prefix(prefix, identifier(text_a), identifier(text_b));
    }
}

/// Observations with the same UUID speak of one device.
pub proof fn law_same_uuid_is_one_device(observations: Seq<DeviceObservation>, i: int, j: int)
    requires
        observations.len() <= usize::MAX,
        vendors_consistent(observations),
        0 <= i < observations.len(),
        0 <= j < observations.len(),
        observations[i].uuid matches Some(a) && observations[j].uuid matches Some(b) && identifier(
            a@,
        ) == identifier(b@) && identifier(a@).len() > 0,
    ensures
        together(observations, i, j),
{
    law_keys_are_identifiers(observations[i], observations[j]);
    law_linked_observations_merge(observations, i, j);
}

/// Observations with the same PCI address speak of one device.
pub proof fn law_same_pci_address_is_one_device(
    observations: Seq<DeviceObservation>,
    i: int,
    j: int,
)
    requires
        observations.len() <= usize::MAX,
        vendors_consistent(observations),
        0 <= i < observations.len(),
        0 <= j < observations.len(),
        observations[i].pci matches Some(a) && a.address matches Some(x)
            && observations[j].pci matches Some(b) && b.address matches Some(y) && pci_address(x@)
            == pci_address(y@) && pci_address(x@).len() > 0,
    ensures
        together(observations, i, j),
{
    law_keys_are_identifiers(observations[i], observations[j]);
    law_linked_observations_merge(observations, i, j);
}

/// Observations with the same LUID speak of one device.
pub proof fn law_same_luid_is_one_device(observations: Seq<DeviceObservation>, i: int, j: int)
    requires
        observations.len() <= usize::MAX,
        vendors_consistent(observations),
        0 <= i < observations.len(),
        0 <= j < observations.len(),
        observations[i].windows matches Some(a) && a.luid matches Some(x)
            && observations[j].windows matches Some(b) && b.luid matches Some(y) && identifier(x@)
            == identifier(y@),
    ensures
        together(observations, i, j),
{
    law_keys_are_identifiers(observations[i], observations[j]);
    law_linked_observations_merge(observations, i, j);
}

/// Observations with the same PnP identifier speak of one device.
pub proof fn law_same_pnp_device_id_is_one_device(
    observations: Seq<DeviceObservation>,
    i: int,
    j: int,
)
    requires
        observations.len() <= usize::MAX,
        vendors_consistent(observations),
        0 <= i < observations.len(),
        0 <= j < observations.len(),
        observations[i].windows matches Some(a) && a.pnp_device_id matches Some(x)
            && observations[j].windows matches Some(b) && b.pnp_device_id matches Some(y)
            && identifier(x@) == identifier(y@),
    ensures
        together(observations, i, j),
{
    law_keys_are_identifiers(observations[i], observations[j]);
    law_linked_observations_merge(observations, i, j);
}

/// Observations with the same registry entry speak of one device.
pub proof fn law_same_registry_entry_is_one_device(
    observations: Seq<DeviceObservation>,
    i: int,
    j: int,
)
    requires
        observations.len() <= usize::MAX,
        vendors_consistent(observations),
        0 <= i < observations.len(),
        0 <= j < observations.len(),
        observations[i].macos matches Some(a) && a.registry_entry_id matches Some(x)
            && observations[j].macos matches Some(b) && b.registry_entry_id matches Some(y)
            && identifier(x@) == identifier(y@),
    ensures
        together(observations, i, j),
{
    law_keys_are_identifiers(observations[i], observations[j]);
    law_linked_observations_merge(observations, i, j);
}

/// Observations with the same Metal registry identifier speak of one device.
pub proof fn law_same_metal_registry_id_is_one_device(
    observations: Seq<DeviceObservation>,
    i: int,
    j: int,
)
    requires
        observations.len() <= usize::MAX,
        vendors_consistent(observations),
        0 <= i < observations.len(),
        0 <= j < observations.len(),
        observations[i].macos matches Some(a) && a.metal_registry_id matches Some(x)
            && observations[j].macos matches Some(b) && b.metal_registry_id matches Some(y)
            && identifier(x@) == identifier(y@),
    ensures
        together(observations, i, j),
{
    law_keys_are_identifiers(observations[i], observations[j]);
    law_linked_observations_merge(observations, i, j);
}

/// Observations of one place in the enumeration of equally named devices of one vendor speak of
/// one device, where each provider has one of them.
pub proof fn law_same_place_is_one_device(observations: Seq<DeviceObservation>, i: int, j: int)
    requires
        observations.len() <= usize::MAX,
        vendors_consistent(observations),
        0 <= i < observations.len(),
        0 <= j < observations.len(),
        same_place(observations[i], observations[j]),
        forall|k: int, l: int|
            0 <= k < l < observations.len() && same_place(observations[i], observations[k])
                && same_place(observations[i], observations[l])
                ==> #[trigger] observations[k].provider@ != #[trigger] observations[l].provider@,
    ensures
        together(observations, i, j),
{
    law_linked_observations_merge(observations, i, j);
}

/// An observation that speaks of one device with another one shares an identifier or its place
/// with some other observation.
pub proof fn law_devices_are_told_by_identifiers(
    observations: Seq<DeviceObservation>,
    i: int,
    j: int,
)
    requires
        observations.len() <= usize::MAX,
        0 <= i < observations.len(),
        0 <= j < observations.len(),
        i != j,
        together(observations, i, j),
    ensures
        exists|k: int|
            0 <= k < observations.len() && k != i && (same_device(
                observations[i],
                #[trigger] observations[k],
            ) || same_place(observations[i], observations[k])),
{
    law_only_linked_observations_merge(observations, i, j);
    let path = choose|path: Seq<int>|
        #[trigger] is_path(observations, path) && path[0] == i && path.last() == j;
    let k = lemma_leaves(observations, path, i, 0);
    law_keys_are_identifiers(observations[i], observations[k]);
}

proof fn lemma_leaves(observations: Seq<DeviceObservation>, path: Seq<int>, i: int, at: int) -> (k:
    int)
    requires
        is_path(observations, path),
        0 <= at < path.len(),
        path[at] == i,
        path.last() != i,
    ensures
        0 <= k < observations.len(),
        k != i,
        linked(observations, i, k),
    decreases path.len() - at,
{
    assert(linked(observations, path[at], path[at + 1]));
    if path[at + 1] == i {
        lemma_leaves(observations, path, i, at + 1)
    } else {
        path[at + 1]
    }
}

/// Observations whose vendors are all compatible with one another cannot be at odds.
pub proof fn law_compatible_vendors_are_consistent(observations: Seq<DeviceObservation>)
    requires
        forall|i: int, j: int|
            0 <= i < observations.len() && 0 <= j < observations.len() ==> (
            #[trigger] observations[i]).vendor == (#[trigger] observations[j]).vendor
                || observations[i].vendor == GpuVendor::Unknown || observations[j].vendor
                == GpuVendor::Unknown,
    ensures
        vendors_consistent(observations),
{
    reveal(vendors_consistent);
    assert forall|i: int, j: int| #[trigger] connected(observations, i, j) implies
        crate::correlation::compatible(observations[i].vendor, observations[j].vendor) by {
        let path = choose|path: Seq<int>|
            #[trigger] is_path(observations, path) && path[0] == i && path.last() == j;
        assert(0 <= path[0] < observations.len());
        assert(0 <= path[path.len() - 1] < observations.len());
    }
}

} // verus!
