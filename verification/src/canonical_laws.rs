//! What a device takes over from the observations that it is made of.
use crate::canonical::{
    all_metrics, all_vendor_info, cluster_model, device_ids, fingerprint, first_kind, first_name,
    first_number, first_partition, first_text, first_topology, first_vendor, largest_memory,
    memory_field, number_field, stable_id, text_field, MemoryField, NumberField, TextField,
};
use crate::correlation::{
    cluster, correlated, correlation, gpu_models, members, place_of, with_parents, ClusterKey,
};
use crate::correlation_laws::{classes_sound, lemma_correlation_sound, together};
use crate::correlation_order::{base_gpus, device_at, lemma_members, lemma_roots_below, roots_below};
use crate::json::json_models;
use crate::model::{
    CanonicalGpu, DeviceObservation, GpuKind, GpuVendor, MemoryTopology, MetricKey,
};
use crate::normalize::{identifier, pci_address, plain_name};
use crate::ordered::{lemma_stable_order_exists, stable_order_of, Ordered};
use crate::text::{padded_digits, text_less, trim, CharClass};
use vstd::prelude::*;

verus! {

proof fn lemma_first_text(observations: Seq<DeviceObservation>, field: TextField, k: int)
    requires
        0 <= k < observations.len(),
        text_field(observations[k], field) is Some,
        forall|j: int| 0 <= j < k ==> text_field(#[trigger] observations[j], field) is None,
    ensures
        first_text(observations, field) == text_field(observations[k], field),
    decreases observations.len(),
{
    let shorter = observations.drop_last();
    if k < shorter.len() {
        assert forall|j: int| 0 <= j < k implies text_field(#[trigger] shorter[j], field)
            is None by {
            assert(shorter[j] == observations[j]);
        }
        lemma_first_text(shorter, field, k);
    } else {
        assert forall|j: int| 0 <= j < shorter.len() implies text_field(
            #[trigger] shorter[j],
            field,
        ) is None by {
            assert(shorter[j] == observations[j]);
        }
        lemma_no_text(shorter, field);
    }
}

proof fn lemma_no_text(observations: Seq<DeviceObservation>, field: TextField)
    requires
        forall|j: int|
            0 <= j < observations.len() ==> text_field(#[trigger] observations[j], field) is None,
    ensures
        first_text(observations, field) is None,
    decreases observations.len(),
{
    if observations.len() > 0 {
        let shorter = observations.drop_last();
        assert forall|j: int| 0 <= j < shorter.len() implies text_field(
            #[trigger] shorter[j],
            field,
        ) is None by {
            assert(shorter[j] == observations[j]);
        }
        lemma_no_text(shorter, field);
    }
}

/// The device is the one that the observations, in this order, stand for.
pub open spec fn is_made_of(gpu: CanonicalGpu, observations: Seq<DeviceObservation>) -> bool {
    gpu@ == cluster_model(observations, gpu.identity.id@)
}

/// The UUID of a device is that of the first observation which has one.
pub proof fn law_first_uuid_counts(
    gpu: CanonicalGpu,
    observations: Seq<DeviceObservation>,
    k: int,
)
    requires
        is_made_of(gpu, observations),
        0 <= k < observations.len(),
        observations[k].uuid is Some,
        forall|j: int| 0 <= j < k ==> (#[trigger] observations[j]).uuid is None,
    ensures
        gpu.identity.uuid == observations[k].uuid,
{
    lemma_first_text(observations, TextField::Uuid, k);
}

/// The architecture of a device is that of the first observation which has one.
pub proof fn law_first_architecture_counts(
    gpu: CanonicalGpu,
    observations: Seq<DeviceObservation>,
    k: int,
)
    requires
        is_made_of(gpu, observations),
        0 <= k < observations.len(),
        observations[k].architecture is Some,
        forall|j: int| 0 <= j < k ==> (#[trigger] observations[j]).architecture is None,
    ensures
        gpu.identity.architecture == observations[k].architecture,
{
    lemma_first_text(observations, TextField::Architecture, k);
}

/// The driver version of a device is that of the first observation which has one.
pub proof fn law_first_driver_version_counts(
    gpu: CanonicalGpu,
    observations: Seq<DeviceObservation>,
    k: int,
)
    requires
        is_made_of(gpu, observations),
        0 <= k < observations.len(),
        observations[k].driver_version is Some,
        forall|j: int| 0 <= j < k ==> (#[trigger] observations[j]).driver_version is None,
    ensures
        gpu.identity.driver_version == observations[k].driver_version,
{
    lemma_first_text(observations, TextField::DriverVersion, k);
}

/// The firmware version of a device is that of the first observation which has one.
pub proof fn law_first_firmware_version_counts(
    gpu: CanonicalGpu,
    observations: Seq<DeviceObservation>,
    k: int,
)
    requires
        is_made_of(gpu, observations),
        0 <= k < observations.len(),
        observations[k].firmware_version is Some,
        forall|j: int| 0 <= j < k ==> (#[trigger] observations[j]).firmware_version is None,
    ensures
        gpu.identity.firmware_version == observations[k].firmware_version,
{
    lemma_first_text(observations, TextField::FirmwareVersion, k);
}

/// What no observation has, the device does not have.
pub proof fn law_nothing_is_made_up(gpu: CanonicalGpu, observations: Seq<DeviceObservation>)
    requires
        is_made_of(gpu, observations),
    ensures
        (forall|j: int| 0 <= j < observations.len() ==> (#[trigger] observations[j]).uuid is None)
            ==> gpu.identity.uuid is None,
        (forall|j: int|
            0 <= j < observations.len() ==> (#[trigger] observations[j]).architecture is None)
            ==> gpu.identity.architecture is None,
        (forall|j: int|
            0 <= j < observations.len() ==> (#[trigger] observations[j]).driver_version is None)
            ==> gpu.identity.driver_version is None,
        (forall|j: int|
            0 <= j < observations.len() ==> (#[trigger] observations[j]).firmware_version is None)
            ==> gpu.identity.firmware_version is None,
        gpu.identity.pci is Some <==> exists|j: int|
            0 <= j < observations.len() && (#[trigger] observations[j]).pci is Some,
        gpu.identity.windows is Some <==> exists|j: int|
            0 <= j < observations.len() && (#[trigger] observations[j]).windows is Some,
        gpu.identity.macos is Some <==> exists|j: int|
            0 <= j < observations.len() && (#[trigger] observations[j]).macos is Some,
{
    if forall|j: int| 0 <= j < observations.len() ==> (#[trigger] observations[j]).uuid is None {
        lemma_no_text(observations, TextField::Uuid);
    }
    if forall|j: int|
        0 <= j < observations.len() ==> (#[trigger] observations[j]).architecture is None {
        lemma_no_text(observations, TextField::Architecture);
    }
    if forall|j: int|
        0 <= j < observations.len() ==> (#[trigger] observations[j]).driver_version is None {
        lemma_no_text(observations, TextField::DriverVersion);
    }
    if forall|j: int|
        0 <= j < observations.len() ==> (#[trigger] observations[j]).firmware_version is None {
        lemma_no_text(observations, TextField::FirmwareVersion);
    }
}

/// The PCI address of a device is that of the first observation which has one.
pub proof fn law_first_pci_address_counts(
    gpu: CanonicalGpu,
    observations: Seq<DeviceObservation>,
    k: int,
)
    requires
        is_made_of(gpu, observations),
        0 <= k < observations.len(),
        observations[k].pci is Some,
        observations[k].pci->0.address is Some,
        forall|j: int|
            0 <= j < k ==> (#[trigger] observations[j]).pci is None
                || observations[j].pci->0.address is None,
    ensures
        gpu.identity.pci is Some,
        gpu.identity.pci->0.address == observations[k].pci->0.address,
{
    lemma_first_text(observations, TextField::PciAddress, k);
}

/// The LUID of a device is that of the first observation which has one.
pub proof fn law_first_luid_counts(
    gpu: CanonicalGpu,
    observations: Seq<DeviceObservation>,
    k: int,
)
    requires
        is_made_of(gpu, observations),
        0 <= k < observations.len(),
        observations[k].windows is Some,
        observations[k].windows->0.luid is Some,
        forall|j: int|
            0 <= j < k ==> (#[trigger] observations[j]).windows is None
                || observations[j].windows->0.luid is None,
    ensures
        gpu.identity.windows is Some,
        gpu.identity.windows->0.luid == observations[k].windows->0.luid,
{
    lemma_first_text(observations, TextField::Luid, k);
}

/// The PnP identifier of a device is that of the first observation which has one.
pub proof fn law_first_pnp_device_id_counts(
    gpu: CanonicalGpu,
    observations: Seq<DeviceObservation>,
    k: int,
)
    requires
        is_made_of(gpu, observations),
        0 <= k < observations.len(),
        observations[k].windows is Some,
        observations[k].windows->0.pnp_device_id is Some,
        forall|j: int|
            0 <= j < k ==> (#[trigger] observations[j]).windows is None
                || observations[j].windows->0.pnp_device_id is None,
    ensures
        gpu.identity.windows is Some,
        gpu.identity.windows->0.pnp_device_id == observations[k].windows->0.pnp_device_id,
{
    lemma_first_text(observations, TextField::PnpDeviceId, k);
}

/// The registry entry of a device is that of the first observation which has one.
pub proof fn law_first_registry_entry_counts(
    gpu: CanonicalGpu,
    observations: Seq<DeviceObservation>,
    k: int,
)
    requires
        is_made_of(gpu, observations),
        0 <= k < observations.len(),
        observations[k].macos is Some,
        observations[k].macos->0.registry_entry_id is Some,
        forall|j: int|
            0 <= j < k ==> (#[trigger] observations[j]).macos is None
                || observations[j].macos->0.registry_entry_id is None,
    ensures
        gpu.identity.macos is Some,
        gpu.identity.macos->0.registry_entry_id == observations[k].macos->0.registry_entry_id,
{
    lemma_first_text(observations, TextField::RegistryEntryId, k);
}

/// The Metal registry identifier of a device is that of the first observation which has one.
pub proof fn law_first_metal_registry_id_counts(
    gpu: CanonicalGpu,
    observations: Seq<DeviceObservation>,
    k: int,
)
    requires
        is_made_of(gpu, observations),
        0 <= k < observations.len(),
        observations[k].macos is Some,
        observations[k].macos->0.metal_registry_id is Some,
        forall|j: int|
            0 <= j < k ==> (#[trigger] observations[j]).macos is None
                || observations[j].macos->0.metal_registry_id is None,
    ensures
        gpu.identity.macos is Some,
        gpu.identity.macos->0.metal_registry_id == observations[k].macos->0.metal_registry_id,
{
    lemma_first_text(observations, TextField::MetalRegistryId, k);
}

proof fn lemma_first_number(observations: Seq<DeviceObservation>, field: NumberField, k: int)
    requires
        0 <= k <= observations.len(),
        k < observations.len() ==> number_field(observations[k], field) is Some,
        forall|j: int| 0 <= j < k ==> number_field(#[trigger] observations[j], field) is None,
    ensures
        first_number(observations, field) == if k < observations.len() {
            number_field(observations[k], field)
        } else {
            None::<u32>
        },
    decreases observations.len(),
{
    if observations.len() > 0 {
        let shorter = observations.drop_last();
        let limit = if k < shorter.len() {
            k
        } else {
            shorter.len() as int
        };
        assert forall|j: int| 0 <= j < limit implies number_field(#[trigger] shorter[j], field)
            is None by {
            assert(shorter[j] == observations[j]);
        }
        lemma_first_number(shorter, field, limit);
    }
}

/// The numbers of a device on the PCI bus are those of the first observation which has them; a
/// zero stands for a vendor or a device that is not known.
pub proof fn law_first_pci_numbers_count(
    gpu: CanonicalGpu,
    observations: Seq<DeviceObservation>,
    k: int,
)
    requires
        is_made_of(gpu, observations),
        0 <= k < observations.len(),
        observations[k].pci is Some,
    ensures
        gpu.identity.pci is Some,
        observations[k].pci->0.vendor_id != 0 && (forall|j: int|
            0 <= j < k ==> (#[trigger] observations[j]).pci is None
                || observations[j].pci->0.vendor_id == 0) ==> gpu.identity.pci->0.vendor_id
            == observations[k].pci->0.vendor_id,
        observations[k].pci->0.device_id != 0 && (forall|j: int|
            0 <= j < k ==> (#[trigger] observations[j]).pci is None
                || observations[j].pci->0.device_id == 0) ==> gpu.identity.pci->0.device_id
            == observations[k].pci->0.device_id,
        observations[k].pci->0.subsystem_vendor_id is Some && (forall|j: int|
            0 <= j < k ==> (#[trigger] observations[j]).pci is None
                || observations[j].pci->0.subsystem_vendor_id is None)
            ==> gpu.identity.pci->0.subsystem_vendor_id
            == observations[k].pci->0.subsystem_vendor_id,
        observations[k].pci->0.subsystem_device_id is Some && (forall|j: int|
            0 <= j < k ==> (#[trigger] observations[j]).pci is None
                || observations[j].pci->0.subsystem_device_id is None)
            ==> gpu.identity.pci->0.subsystem_device_id
            == observations[k].pci->0.subsystem_device_id,
{
    if observations[k].pci->0.vendor_id != 0 && (forall|j: int|
        0 <= j < k ==> (#[trigger] observations[j]).pci is None
            || observations[j].pci->0.vendor_id == 0) {
        lemma_first_number(observations, NumberField::PciVendorId, k);
    }
    if observations[k].pci->0.device_id != 0 && (forall|j: int|
        0 <= j < k ==> (#[trigger] observations[j]).pci is None
            || observations[j].pci->0.device_id == 0) {
        lemma_first_number(observations, NumberField::PciDeviceId, k);
    }
    if observations[k].pci->0.subsystem_vendor_id is Some && (forall|j: int|
        0 <= j < k ==> (#[trigger] observations[j]).pci is None
            || observations[j].pci->0.subsystem_vendor_id is None) {
        lemma_first_number(observations, NumberField::SubsystemVendorId, k);
    }
    if observations[k].pci->0.subsystem_device_id is Some && (forall|j: int|
        0 <= j < k ==> (#[trigger] observations[j]).pci is None
            || observations[j].pci->0.subsystem_device_id is None) {
        lemma_first_number(observations, NumberField::SubsystemDeviceId, k);
    }
}

proof fn lemma_first_vendor(observations: Seq<DeviceObservation>, k: int)
    requires
        0 <= k < observations.len(),
        observations[k].vendor != GpuVendor::Unknown,
        forall|j: int|
            0 <= j < k ==> (#[trigger] observations[j]).vendor == GpuVendor::Unknown,
    ensures
        first_vendor(observations) == observations[k].vendor,
    decreases observations.len(),
{
    let shorter = observations.drop_last();
    if k < shorter.len() {
        lemma_first_vendor(shorter, k);
    } else {
        lemma_no_vendor(shorter);
    }
}

proof fn lemma_no_vendor(observations: Seq<DeviceObservation>)
    requires
        forall|j: int|
            0 <= j < observations.len() ==> (#[trigger] observations[j]).vendor
                == GpuVendor::Unknown,
    ensures
        first_vendor(observations) == GpuVendor::Unknown,
    decreases observations.len(),
{
    if observations.len() > 0 {
        lemma_no_vendor(observations.drop_last());
    }
}

/// The vendor of a device is the first one that is known.
pub proof fn law_first_vendor_counts(
    gpu: CanonicalGpu,
    observations: Seq<DeviceObservation>,
    k: int,
)
    requires
        is_made_of(gpu, observations),
        0 <= k < observations.len(),
        observations[k].vendor != GpuVendor::Unknown,
        forall|j: int|
            0 <= j < k ==> (#[trigger] observations[j]).vendor == GpuVendor::Unknown,
    ensures
        gpu.identity.vendor == observations[k].vendor,
{
    lemma_first_vendor(observations, k);
}

proof fn lemma_first_kind(observations: Seq<DeviceObservation>, k: int)
    requires
        0 <= k <= observations.len(),
        k < observations.len() ==> observations[k].kind != GpuKind::Unknown,
        forall|j: int| 0 <= j < k ==> (#[trigger] observations[j]).kind == GpuKind::Unknown,
    ensures
        first_kind(observations) == if k < observations.len() {
            observations[k].kind
        } else {
            GpuKind::Unknown
        },
    decreases observations.len(),
{
    if observations.len() > 0 {
        let shorter = observations.drop_last();
        lemma_first_kind(
            shorter,
            if k < shorter.len() {
                k
            } else {
                shorter.len() as int
            },
        );
    }
}

proof fn lemma_first_topology(observations: Seq<DeviceObservation>, k: int)
    requires
        0 <= k <= observations.len(),
        k < observations.len() ==> observations[k].memory.topology != MemoryTopology::Unknown,
        forall|j: int|
            0 <= j < k ==> (#[trigger] observations[j]).memory.topology
                == MemoryTopology::Unknown,
    ensures
        first_topology(observations) == if k < observations.len() {
            observations[k].memory.topology
        } else {
            MemoryTopology::Unknown
        },
    decreases observations.len(),
{
    if observations.len() > 0 {
        let shorter = observations.drop_last();
        lemma_first_topology(
            shorter,
            if k < shorter.len() {
                k
            } else {
                shorter.len() as int
            },
        );
    }
}

proof fn lemma_first_partition(observations: Seq<DeviceObservation>, k: int)
    requires
        0 <= k <= observations.len(),
        k < observations.len() ==> observations[k].partition is Some,
        forall|j: int| 0 <= j < k ==> (#[trigger] observations[j]).partition is None,
    ensures
        k < observations.len() ==> first_partition(observations) == observations[k].partition,
        k == observations.len() ==> first_partition(observations) is None,
    decreases observations.len(),
{
    if observations.len() > 0 {
        let shorter = observations.drop_last();
        lemma_first_partition(
            shorter,
            if k < shorter.len() {
                k
            } else {
                shorter.len() as int
            },
        );
    }
}

/// The kind of a device, its memory topology and its partition are those of the first observation
/// which knows them.
pub proof fn law_first_traits_count(
    gpu: CanonicalGpu,
    observations: Seq<DeviceObservation>,
    k: int,
)
    requires
        is_made_of(gpu, observations),
        0 <= k < observations.len(),
    ensures
        observations[k].kind != GpuKind::Unknown && (forall|j: int|
            0 <= j < k ==> (#[trigger] observations[j]).kind == GpuKind::Unknown)
            ==> gpu.identity.kind == observations[k].kind,
        observations[k].memory.topology != MemoryTopology::Unknown && (forall|j: int|
            0 <= j < k ==> (#[trigger] observations[j]).memory.topology
                == MemoryTopology::Unknown) ==> gpu.memory.topology
            == observations[k].memory.topology,
        observations[k].partition is Some && (forall|j: int|
            0 <= j < k ==> (#[trigger] observations[j]).partition is None)
            ==> gpu.identity.partition == observations[k].partition,
{
    if observations[k].kind != GpuKind::Unknown && (forall|j: int|
        0 <= j < k ==> (#[trigger] observations[j]).kind == GpuKind::Unknown) {
        lemma_first_kind(observations, k);
    }
    if observations[k].memory.topology != MemoryTopology::Unknown && (forall|j: int|
        0 <= j < k ==> (#[trigger] observations[j]).memory.topology == MemoryTopology::Unknown) {
        lemma_first_topology(observations, k);
    }
    if observations[k].partition is Some && (forall|j: int|
        0 <= j < k ==> (#[trigger] observations[j]).partition is None) {
        lemma_first_partition(observations, k);
    }
}

proof fn lemma_first_name(observations: Seq<DeviceObservation>, k: int)
    requires
        0 <= k <= observations.len(),
        k < observations.len() ==> trim(CharClass::White, observations[k].name@).len() > 0,
        forall|j: int|
            0 <= j < k ==> trim(CharClass::White, (#[trigger] observations[j]).name@).len() == 0,
    ensures
        first_name(observations) == if k < observations.len() {
            Some(observations[k].name@)
        } else {
            None
        },
    decreases observations.len(),
{
    if observations.len() > 0 {
        let shorter = observations.drop_last();
        lemma_first_name(
            shorter,
            if k < shorter.len() {
                k
            } else {
                shorter.len() as int
            },
        );
    }
}

/// A device has the first name that is not blank; where all are blank it has none of them.
pub proof fn law_first_name_counts(
    gpu: CanonicalGpu,
    observations: Seq<DeviceObservation>,
    k: int,
)
    requires
        is_made_of(gpu, observations),
        0 <= k <= observations.len(),
        k < observations.len() ==> trim(CharClass::White, observations[k].name@).len() > 0,
        forall|j: int|
            0 <= j < k ==> trim(CharClass::White, (#[trigger] observations[j]).name@).len() == 0,
    ensures
        gpu.identity.name@ == if k < observations.len() {
            observations[k].name@
        } else {
            "Unknown GPU"@
        },
{
    lemma_first_name(observations, k);
}

proof fn lemma_largest_memory(observations: Seq<DeviceObservation>, field: MemoryField)
    ensures
        forall|j: int|
            0 <= j < observations.len() && memory_field(#[trigger] observations[j], field)
                is Some ==> largest_memory(observations, field) is Some && memory_field(
                observations[j],
                field,
            )->0 <= largest_memory(observations, field)->0,
        largest_memory(observations, field) is Some ==> exists|j: int|
            0 <= j < observations.len() && memory_field(#[trigger] observations[j], field)
                == largest_memory(observations, field),
    decreases observations.len(),
{
    if observations.len() > 0 {
        let shorter = observations.drop_last();
        let last = observations.len() - 1;
        lemma_largest_memory(shorter, field);
        assert(observations[last] == observations.last());
        assert forall|j: int|
            0 <= j < observations.len() && memory_field(#[trigger] observations[j], field)
                is Some implies largest_memory(observations, field) is Some && memory_field(
            observations[j],
            field,
        )->0 <= largest_memory(observations, field)->0 by {
            if j < last {
                assert(shorter[j] == observations[j]);
            }
        }
        if largest_memory(observations, field) is Some && memory_field(observations[last], field)
            != largest_memory(observations, field) {
            let j = choose|j: int|
                0 <= j < shorter.len() && memory_field(#[trigger] shorter[j], field)
                    == largest_memory(shorter, field);
            assert(observations[j] == shorter[j]);
        }
    }
}

/// The size is the largest of those that are known, or none is known.
pub open spec fn is_largest(size: Option<u64>, sizes: Seq<Option<u64>>) -> bool {
    &&& forall|j: int|
        0 <= j < sizes.len() && (#[trigger] sizes[j]) is Some ==> size is Some && sizes[j]->0
            <= size->0
    &&& size is Some ==> sizes.contains(size)
}

/// The memory of a device is the largest that an observation gives, for each kind of memory.
pub proof fn law_largest_memory_counts(gpu: CanonicalGpu, observations: Seq<DeviceObservation>)
    requires
        is_made_of(gpu, observations),
    ensures
        is_largest(
            gpu.memory.dedicated_total_bytes,
            observations.map_values(|o: DeviceObservation| o.memory.dedicated_total_bytes),
        ),
        is_largest(
            gpu.memory.shared_total_bytes,
            observations.map_values(|o: DeviceObservation| o.memory.shared_total_bytes),
        ),
        is_largest(
            gpu.memory.unified_total_bytes,
            observations.map_values(|o: DeviceObservation| o.memory.unified_total_bytes),
        ),
{
    let dedicated = observations.map_values(|o: DeviceObservation| o.memory.dedicated_total_bytes);
    let shared = observations.map_values(|o: DeviceObservation| o.memory.shared_total_bytes);
    let unified = observations.map_values(|o: DeviceObservation| o.memory.unified_total_bytes);
    lemma_largest_memory(observations, MemoryField::Dedicated);
    lemma_largest_memory(observations, MemoryField::Shared);
    lemma_largest_memory(observations, MemoryField::Unified);
    assert forall|j: int| 0 <= j < dedicated.len() && (#[trigger] dedicated[j]) is Some implies
        gpu.memory.dedicated_total_bytes is Some && dedicated[j]->0
        <= gpu.memory.dedicated_total_bytes->0 by {
        assert(memory_field(observations[j], MemoryField::Dedicated) is Some);
    }
    assert forall|j: int| 0 <= j < shared.len() && (#[trigger] shared[j]) is Some implies
        gpu.memory.shared_total_bytes is Some && shared[j]->0
        <= gpu.memory.shared_total_bytes->0 by {
        assert(memory_field(observations[j], MemoryField::Shared) is Some);
    }
    assert forall|j: int| 0 <= j < unified.len() && (#[trigger] unified[j]) is Some implies
        gpu.memory.unified_total_bytes is Some && unified[j]->0
        <= gpu.memory.unified_total_bytes->0 by {
        assert(memory_field(observations[j], MemoryField::Unified) is Some);
    }
    if gpu.memory.dedicated_total_bytes is Some {
        let j = choose|j: int|
            0 <= j < observations.len() && memory_field(
                #[trigger] observations[j],
                MemoryField::Dedicated,
            ) == largest_memory(observations, MemoryField::Dedicated);
        assert(dedicated[j] == gpu.memory.dedicated_total_bytes);
    }
    if gpu.memory.shared_total_bytes is Some {
        let j = choose|j: int|
            0 <= j < observations.len() && memory_field(
                #[trigger] observations[j],
                MemoryField::Shared,
            ) == largest_memory(observations, MemoryField::Shared);
        assert(shared[j] == gpu.memory.shared_total_bytes);
    }
    if gpu.memory.unified_total_bytes is Some {
        let j = choose|j: int|
            0 <= j < observations.len() && memory_field(
                #[trigger] observations[j],
                MemoryField::Unified,
            ) == largest_memory(observations, MemoryField::Unified);
        assert(unified[j] == gpu.memory.unified_total_bytes);
    }
}

proof fn lemma_all_metrics(observations: Seq<DeviceObservation>, metric: MetricKey)
    ensures
        all_metrics(observations).contains(metric) <==> exists|j: int|
            0 <= j < observations.len() && (
            #[trigger] observations[j]).capabilities.metric_set().contains(metric),
    decreases observations.len(),
{
    if observations.len() > 0 {
        let rest = observations.skip(1);
        lemma_all_metrics(rest, metric);
        if exists|j: int|
            0 <= j < rest.len() && (#[trigger] rest[j]).capabilities.metric_set().contains(
                metric,
            ) {
            let j = choose|j: int|
                0 <= j < rest.len() && (#[trigger] rest[j]).capabilities.metric_set().contains(
                    metric,
                );
            assert(observations[j + 1] == rest[j]);
        }
        if exists|j: int|
            0 <= j < observations.len() && (
            #[trigger] observations[j]).capabilities.metric_set().contains(metric) {
            let j = choose|j: int|
                0 <= j < observations.len() && (
                #[trigger] observations[j]).capabilities.metric_set().contains(metric);
            if j > 0 {
                assert(rest[j - 1] == observations[j]);
            }
        }
    }
}

/// A device offers a metric exactly where one of its observations does.
pub proof fn law_metrics_are_those_of_the_observations(
    gpu: CanonicalGpu,
    observations: Seq<DeviceObservation>,
    metric: MetricKey,
)
    requires
        is_made_of(gpu, observations),
    ensures
        gpu.capability_set.metric_set().contains(metric) <==> exists|j: int|
            0 <= j < observations.len() && (
            #[trigger] observations[j]).capabilities.metric_set().contains(metric),
{
    lemma_all_metrics(observations, metric);
}

proof fn lemma_device_ids(observations: Seq<DeviceObservation>, k: int)
    requires
        0 <= k < observations.len(),
        forall|j: int|
            0 <= j < k ==> (#[trigger] observations[j]).provider@ != observations[k].provider@,
    ensures
        device_ids(observations).contains_key(observations[k].provider@),
        device_ids(observations)[observations[k].provider@]
            == observations[k].provider_device_id,
    decreases observations.len(),
{
    let rest = observations.skip(1);
    if k > 0 {
        assert(rest[k - 1] == observations[k]);
        assert forall|j: int| 0 <= j < k - 1 implies (#[trigger] rest[j]).provider@
            != rest[k - 1].provider@ by {
            assert(rest[j] == observations[j + 1]);
        }
        lemma_device_ids(rest, k - 1);
        assert(observations[0].provider@ != observations[k].provider@);
    }
}

proof fn lemma_no_device_id(observations: Seq<DeviceObservation>, provider: Seq<char>)
    requires
        forall|j: int|
            0 <= j < observations.len() ==> (#[trigger] observations[j]).provider@ != provider,
    ensures
        !device_ids(observations).contains_key(provider),
    decreases observations.len(),
{
    if observations.len() > 0 {
        let rest = observations.skip(1);
        assert forall|j: int| 0 <= j < rest.len() implies (#[trigger] rest[j]).provider@
            != provider by {
            assert(rest[j] == observations[j + 1]);
        }
        lemma_no_device_id(rest, provider);
    }
}

/// A provider knows a device by the name that it gave in its first observation of it, and a
/// provider without an observation of it does not know it.
pub proof fn law_providers_know_their_devices(
    gpu: CanonicalGpu,
    observations: Seq<DeviceObservation>,
    provider: Seq<char>,
)
    requires
        is_made_of(gpu, observations),
    ensures
        forall|k: int|
            0 <= k < observations.len() && (#[trigger] observations[k]).provider@ == provider && (
            forall|j: int|
                0 <= j < k ==> (#[trigger] observations[j]).provider@ != provider)
                ==> gpu.provider_device_ids@.contains_key(provider)
                && gpu.provider_device_ids@[provider] == observations[k].provider_device_id,
        gpu.provider_device_ids@.contains_key(provider) ==> exists|k: int|
            0 <= k < observations.len() && (#[trigger] observations[k]).provider@ == provider,
{
    assert forall|k: int|
        0 <= k < observations.len() && (#[trigger] observations[k]).provider@ == provider && (
        forall|j: int|
            0 <= j < k ==> (#[trigger] observations[j]).provider@ != provider) implies
        gpu.provider_device_ids@.contains_key(provider) && gpu.provider_device_ids@[provider]
        == observations[k].provider_device_id by {
        lemma_device_ids(observations, k);
    }
    if forall|k: int|
        0 <= k < observations.len() ==> (#[trigger] observations[k]).provider@ != provider {
        lemma_no_device_id(observations, provider);
    }
}

proof fn lemma_vendor_info(observations: Seq<DeviceObservation>, k: int, name: Seq<char>)
    requires
        0 <= k < observations.len(),
        observations[k].vendor_info@.contains_key(name),
        forall|j: int|
            0 <= j < k ==> !(#[trigger] observations[j]).vendor_info@.contains_key(name),
    ensures
        all_vendor_info(observations).contains_key(name),
        all_vendor_info(observations)[name] == observations[k].vendor_info@[name]@,
    decreases observations.len(),
{
    let rest = observations.skip(1);
    if k > 0 {
        assert(rest[k - 1] == observations[k]);
        assert forall|j: int| 0 <= j < k - 1 implies !(
        #[trigger] rest[j]).vendor_info@.contains_key(name) by {
            assert(rest[j] == observations[j + 1]);
        }
        lemma_vendor_info(rest, k - 1, name);
        assert(!observations[0].vendor_info@.contains_key(name));
    }
}

/// Vendor data under one name is that of the first observation which has some.
pub proof fn law_first_vendor_data_counts(
    gpu: CanonicalGpu,
    observations: Seq<DeviceObservation>,
    k: int,
    name: Seq<char>,
)
    requires
        is_made_of(gpu, observations),
        0 <= k < observations.len(),
        observations[k].vendor_info@.contains_key(name),
        forall|j: int|
            0 <= j < k ==> !(#[trigger] observations[j]).vendor_info@.contains_key(name),
    ensures
        gpu.vendor_info@.contains_key(name),
        gpu.vendor_info@[name]@ == observations[k].vendor_info@[name]@,
{
    lemma_vendor_info(observations, k, name);
    assert(json_models(gpu.vendor_info@).contains_key(name));
}

/// The name of a vendor.
pub open spec fn is_vendor_name(vendor: GpuVendor, name: Seq<char>) -> bool {
    &&& vendor == GpuVendor::Nvidia ==> name == "nvidia"@
    &&& vendor == GpuVendor::Amd ==> name == "amd"@
    &&& vendor == GpuVendor::Intel ==> name == "intel"@
    &&& vendor == GpuVendor::Apple ==> name == "apple"@
    &&& vendor == GpuVendor::Unknown ==> name == "unknown"@
}

/// The stable name of a device starts with its vendor and ends with the first twenty characters
/// of the digest.
pub proof fn law_stable_ids_name_vendor_and_digest(vendor: GpuVendor, digest: Seq<char>)
    requires
        digest.len() >= 20,
    ensures
        exists|name: Seq<char>| #[trigger]
            is_vendor_name(vendor, name) && stable_id(vendor, digest) == "gpu_"@ + name + "_"@
                + digest.subrange(0, 20),
{
    assert(is_vendor_name(vendor, vendor.name()));
    assert(digest.take(20) =~= digest.subrange(0, 20));
}

/// What the digest is taken of: the vendor, then the strongest identifier that the device has, by
/// its kind and in its normal form, then the partition. The order of strength is the UUID, the
/// PCI address with its numbers, the LUID, the PnP identifier, the Metal registry identifier, the
/// registry entry, and the name that the first provider gave.
pub proof fn law_fingerprints_hold_the_strongest_identifier(
    gpu: CanonicalGpu,
    observations: Seq<DeviceObservation>,
)
    requires
        is_made_of(gpu, observations),
        observations.len() > 0,
    ensures
        ({
            let suffix = match gpu.identity.partition {
                Some(partition) => ":partition:"@ + identifier(partition.id@),
                None => Seq::<char>::empty(),
            };
            let address = match gpu.identity.pci {
                Some(pci) => pci.address,
                None => None,
            };
            let luid = match gpu.identity.windows {
                Some(windows) => windows.luid,
                None => None,
            };
            let pnp = match gpu.identity.windows {
                Some(windows) => windows.pnp_device_id,
                None => None,
            };
            let metal = match gpu.identity.macos {
                Some(macos) => macos.metal_registry_id,
                None => None,
            };
            let entry = match gpu.identity.macos {
                Some(macos) => macos.registry_entry_id,
                None => None,
            };
            let first = observations[0];
            forall|vendor: Seq<char>| #[trigger]
                is_vendor_name(gpu.identity.vendor, vendor) ==> fingerprint(observations) == match (
                    gpu.identity.uuid,
                    address,
                    luid,
                    pnp,
                    metal,
                    entry,
                ) {
                    (Some(uuid), _, _, _, _, _) => vendor + ":uuid:"@ + identifier(uuid@) + suffix,
                    (None, Some(address), _, _, _, _) => vendor + ":pci:"@ + pci_address(address@)
                        + ":"@ + padded_digits(gpu.identity.pci->0.vendor_id as nat, 16, 4) + ":"@
                        + padded_digits(gpu.identity.pci->0.device_id as nat, 16, 4) + suffix,
                    (None, None, Some(luid), _, _, _) => vendor + ":luid:"@ + identifier(luid@)
                        + suffix,
                    (None, None, None, Some(pnp), _, _) => vendor + ":pnp:"@ + identifier(pnp@)
                        + suffix,
                    (None, None, None, None, Some(metal), _) => vendor + ":metal:"@ + identifier(
                        metal@,
                    ) + suffix,
                    (None, None, None, None, None, Some(entry)) => vendor + ":ioreg:"@
                        + identifier(entry@) + suffix,
                    _ => vendor + ":fallback:"@ + first.provider@ + ":"@ + identifier(
                        first.provider_device_id@,
                    ) + ":"@ + plain_name(first.name@) + suffix,
                }
        }),
{
    if gpu.identity.pci is None {
        assert forall|j: int| 0 <= j < observations.len() implies text_field(
            #[trigger] observations[j],
            TextField::PciAddress,
        ) is None by {
            assert(observations[j].pci is None);
        }
        lemma_no_text(observations, TextField::PciAddress);
    }
    if gpu.identity.windows is None {
        assert forall|j: int| 0 <= j < observations.len() implies (
        #[trigger] observations[j]).windows is None by {}
        lemma_no_text(observations, TextField::Luid);
        lemma_no_text(observations, TextField::PnpDeviceId);
    }
    if gpu.identity.macos is None {
        assert forall|j: int| 0 <= j < observations.len() implies (
        #[trigger] observations[j]).macos is None by {}
        lemma_no_text(observations, TextField::MetalRegistryId);
        lemma_no_text(observations, TextField::RegistryEntryId);
    }
}

/// The observations of a device stand in the order of their priority, the highest first, then in
/// the order of their providers and of the names that these give the device.
pub proof fn law_observations_are_ranked(
    observations: Seq<DeviceObservation>,
    root: int,
    p: int,
    q: int,
)
    requires
        0 <= p < q < cluster(observations, correlation(observations), root).len(),
    ensures
        ({
            let ranked = cluster(observations, correlation(observations), root);
            let (a, b) = (ranked[p], ranked[q]);
            &&& a.identity_priority >= b.identity_priority
            &&& a.identity_priority == b.identity_priority ==> a.provider@ == b.provider@
                || text_less(a.provider@, b.provider@)
            &&& a.identity_priority == b.identity_priority && a.provider@ == b.provider@
                ==> a.provider_device_id@ == b.provider_device_id@ || text_less(
                a.provider_device_id@,
                b.provider_device_id@,
            )
        }),
{
    let partition = correlation(observations);
    let all = members(partition, root, observations.len() as int).map_values(
        |i: int| observations[i],
    );
    let keys = all.map_values(|o: DeviceObservation| place_of(o));
    lemma_stable_order_exists::<ClusterKey>(keys);
    let order = stable_order_of::<ClusterKey>(keys);
    assert(crate::ordered::ranks_before::<ClusterKey>(keys, order[p], order[q]));
}

/// The device holds what an observation says: its metrics, its provider, and its vendor.
pub open spec fn tells_of(gpu: CanonicalGpu, observation: DeviceObservation) -> bool {
    &&& observation.capabilities.metric_set().subset_of(gpu.capability_set.metric_set())
    &&& gpu.provider_device_ids@.contains_key(observation.provider@)
    &&& observation.vendor != GpuVendor::Unknown ==> gpu.identity.vendor == observation.vendor
}

/// Observations that speak of one device are found in one device, with what they all say.
pub proof fn law_observations_find_their_device(
    observations: Seq<DeviceObservation>,
    gpus: Seq<CanonicalGpu>,
    i: int,
)
    requires
        observations.len() <= usize::MAX,
        gpu_models(gpus) == correlated(observations),
        0 <= i < observations.len(),
    ensures
        exists|g: int|
            0 <= g < gpus.len() && forall|j: int|
                0 <= j < observations.len() && together(observations, i, j) ==> tells_of(
                    #[trigger] gpus[g],
                    #[trigger] observations[j],
                ),
{
    lemma_correlation_sound(observations);
    assert(0 <= correlation(observations).roots[i] < observations.len()
        && correlation(observations).roots[correlation(observations).roots[i]] == correlation(
        observations,
    ).roots[i]) by {
        reveal(classes_sound);
    }
    let root = correlation(observations).roots[i];
    let g = lemma_device_place(observations, gpus, root);
    assert forall|j: int| 0 <= j < observations.len() && together(observations, i, j) implies
        tells_of(#[trigger] gpus[g], #[trigger] observations[j]) by {
        lemma_tells_of(observations, gpus[g], root, j);
    }
}

/// Where the device of a class is listed.
proof fn lemma_device_place(
    observations: Seq<DeviceObservation>,
    gpus: Seq<CanonicalGpu>,
    root: int,
) -> (g: int)
    requires
        observations.len() <= usize::MAX,
        gpu_models(gpus) == correlated(observations),
        0 <= root < observations.len(),
        correlation(observations).roots.len() == observations.len(),
        correlation(observations).roots[root] == root,
    ensures
        0 <= g < gpus.len(),
        ({
            let made = cluster(observations, correlation(observations), root);
            &&& gpus[g]@.metrics == all_metrics(made)
            &&& gpus[g]@.device_ids == device_ids(made)
            &&& gpus[g]@.vendor == first_vendor(made)
        }),
{
    let partition = correlation(observations);
    let n = observations.len() as int;
    lemma_roots_below(observations, partition, n);
    let roots = roots_below(partition, n);
    assert(roots.contains(root));
    let at = choose|at: int| 0 <= at < roots.len() && roots[at] == root;
    let base = base_gpus(observations);
    assert(base[at] == device_at(observations, partition, root));
    let all = with_parents(observations, base);
    let ids = all.map_values(|gpu: crate::canonical::GpuModel| gpu.id);
    lemma_stable_order_exists::<String>(ids);
    let order = stable_order_of::<String>(ids);
    assert(order.contains(at));
    let g = choose|g: int| 0 <= g < order.len() && order[g] == at;
    assert(correlated(observations)[g] == all[at]);
    assert(gpu_models(gpus).len() == gpus.len());
    assert(gpu_models(gpus)[g] == gpus[g]@);
    g
}

proof fn lemma_tells_of(
    observations: Seq<DeviceObservation>,
    gpu: CanonicalGpu,
    root: int,
    j: int,
)
    requires
        observations.len() <= usize::MAX,
        0 <= j < observations.len(),
        correlation(observations).roots.len() == observations.len(),
        correlation(observations).roots[j] == root,
        ({
            let made = cluster(observations, correlation(observations), root);
            &&& gpu@.metrics == all_metrics(made)
            &&& gpu@.device_ids == device_ids(made)
            &&& gpu@.vendor == first_vendor(made)
        }),
    ensures
        tells_of(gpu, observations[j]),
{
    let partition = correlation(observations);
    let n = observations.len() as int;
    let made = cluster(observations, partition, root);
    lemma_members(partition, root, n);
    let found = members(partition, root, n);
    assert(found.contains(j));
    let m = choose|m: int| 0 <= m < found.len() && found[m] == j;
    let listed = found.map_values(|i: int| observations[i]);
    let keys = listed.map_values(|o: DeviceObservation| place_of(o));
    lemma_stable_order_exists::<ClusterKey>(keys);
    let ranks = stable_order_of::<ClusterKey>(keys);
    assert(ranks.contains(m));
    let k = choose|k: int| 0 <= k < ranks.len() && ranks[k] == m;
    assert(made[k] == observations[j]);
    assert forall|metric: MetricKey|
        observations[j].capabilities.metric_set().contains(metric) implies
        gpu.capability_set.metric_set().contains(metric) by {
        lemma_all_metrics(made, metric);
        assert(made[k].capabilities.metric_set().contains(metric));
    }
    let f = lemma_first_of(made, made[k].provider@, k);
    lemma_device_ids(made, f);
    if observations[j].vendor != GpuVendor::Unknown {
        let v = lemma_first_known(made, k);
        lemma_first_vendor(made, v);
        let w = lemma_member_of(observations, root, v);
        crate::correlation_laws::law_vendors_never_mix(observations, w, j);
    }
}

/// Where a member of a cluster comes from.
proof fn lemma_member_of(observations: Seq<DeviceObservation>, root: int, k: int) -> (i: int)
    requires
        observations.len() <= usize::MAX,
        0 <= k < cluster(observations, correlation(observations), root).len(),
    ensures
        0 <= i < observations.len(),
        correlation(observations).roots[i] == root,
        cluster(observations, correlation(observations), root)[k] == observations[i],
{
    let partition = correlation(observations);
    let n = observations.len() as int;
    lemma_correlation_sound(observations);
    lemma_members(partition, root, n);
    let found = members(partition, root, n);
    let listed = found.map_values(|i: int| observations[i]);
    let keys = listed.map_values(|o: DeviceObservation| place_of(o));
    lemma_stable_order_exists::<ClusterKey>(keys);
    let order = stable_order_of::<ClusterKey>(keys);
    assert(0 <= order[k] < keys.len());
    assert(found.contains(found[order[k]]));
    found[order[k]]
}

proof fn lemma_first_of(made: Seq<DeviceObservation>, provider: Seq<char>, k: int) -> (f: int)
    requires
        0 <= k < made.len(),
        made[k].provider@ == provider,
    ensures
        0 <= f <= k,
        made[f].provider@ == provider,
        forall|j: int| 0 <= j < f ==> (#[trigger] made[j]).provider@ != provider,
    decreases k,
{
    if exists|j: int| 0 <= j < k && (#[trigger] made[j]).provider@ == provider {
        let j = choose|j: int| 0 <= j < k && (#[trigger] made[j]).provider@ == provider;
        lemma_first_of(made, provider, j)
    } else {
        k
    }
}

proof fn lemma_first_known(made: Seq<DeviceObservation>, k: int) -> (f: int)
    requires
        0 <= k < made.len(),
        made[k].vendor != GpuVendor::Unknown,
    ensures
        0 <= f <= k,
        made[f].vendor != GpuVendor::Unknown,
        forall|j: int| 0 <= j < f ==> (#[trigger] made[j]).vendor == GpuVendor::Unknown,
    decreases k,
{
    if exists|j: int| 0 <= j < k && (#[trigger] made[j]).vendor != GpuVendor::Unknown {
        let j = choose|j: int| 0 <= j < k && (#[trigger] made[j]).vendor != GpuVendor::Unknown;
        lemma_first_known(made, j)
    } else {
        k
    }
}

/// There are as many devices as there are classes of observations that speak of one device: each
/// device stands for another class.
pub proof fn law_devices_are_the_classes(
    observations: Seq<DeviceObservation>,
    gpus: Seq<CanonicalGpu>,
)
    requires
        observations.len() <= usize::MAX,
        gpu_models(gpus) == correlated(observations),
    ensures
        exists|leaders: Seq<int>|
            #![trigger leaders.no_duplicates()]
            leaders.no_duplicates() && leaders.len() == gpus.len() && (forall|k: int|
                0 <= k < leaders.len() ==> 0 <= #[trigger] leaders[k] < observations.len()) && (
            forall|k: int, l: int|
                0 <= k < l < leaders.len() ==> !together(
                    observations,
                    #[trigger] leaders[k],
                    #[trigger] leaders[l],
                )),
{
    lemma_correlation_sound(observations);
    reveal(classes_sound);
    let partition = correlation(observations);
    let n = observations.len() as int;
    lemma_roots_below(observations, partition, n);
    let leaders = roots_below(partition, n);
    let base = base_gpus(observations);
    let all = with_parents(observations, base);
    let ids = all.map_values(|gpu: crate::canonical::GpuModel| gpu.id);
    lemma_stable_order_exists::<String>(ids);
    assert(correlated(observations).len() == leaders.len());
    assert(gpu_models(gpus).len() == gpus.len());
    assert forall|k: int| 0 <= k < leaders.len() implies partition.roots[#[trigger] leaders[k]]
        == leaders[k] && 0 <= leaders[k] && leaders[k] < observations.len() by {
        assert(leaders.contains(leaders[k]));
    }
    assert(leaders.no_duplicates());
}

/// Devices are listed in ascending order of their names.
pub proof fn law_devices_are_listed_by_name(
    observations: Seq<DeviceObservation>,
    gpus: Seq<CanonicalGpu>,
    p: int,
    q: int,
)
    requires
        gpu_models(gpus) == correlated(observations),
        0 <= p < q < gpus.len(),
    ensures
        gpus[p].identity.id@ == gpus[q].identity.id@ || text_less(
            gpus[p].identity.id@,
            gpus[q].identity.id@,
        ),
{
    let base = base_gpus(observations);
    let all = with_parents(observations, base);
    let ids = all.map_values(|gpu: crate::canonical::GpuModel| gpu.id);
    lemma_stable_order_exists::<String>(ids);
    let order = stable_order_of::<String>(ids);
    assert(gpu_models(gpus).len() == gpus.len());
    assert(gpu_models(gpus)[p] == gpus[p]@);
    assert(gpu_models(gpus)[q] == gpus[q]@);
    assert(crate::ordered::ranks_before::<String>(ids, order[p], order[q]));
    assert(correlated(observations)[p] == all[order[p]]);
    assert(correlated(observations)[q] == all[order[q]]);
}

} // verus!
