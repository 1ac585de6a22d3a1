//! One device out of the observations of several providers.
use crate::json::{extend_json, json_models, JsonMap, JsonModel};
use crate::model::{
    text_views, CanonicalGpu, CapabilitySet, DeviceObservation, GpuIdentity, GpuKind, GpuVendor,
    MacosIdentity, MemoryTopology, MetricKey, PartitionIdentity, PciIdentity, StaticMemoryInfo,
    WindowsIdentity,
};
use crate::normalize::{
    identifier, normalize_identifier, normalize_name, normalize_pci_address, pci_address,
    plain_name,
};
use crate::sorted_map::{lists_keys, SortedMap};
use crate::text::{
    chars_of, extend, extend_text, owned, padded_digits, padded_digits_of, slice_of, string_of,
    trim, trimmed, CharClass,
};
use vstd::prelude::*;
use vstd::utf8::encode_utf8;

verus! {

/// The optional texts of an observation.
#[derive(Clone, Copy, Debug, PartialEq, Eq, Structural)]
pub enum TextField {
    Architecture,
    DriverVersion,
    FirmwareVersion,
    Uuid,
    PciAddress,
    Luid,
    PnpDeviceId,
    RegistryEntryId,
    MetalRegistryId,
}

pub open spec fn text_field(observation: DeviceObservation, field: TextField) -> Option<String> {
    match field {
        TextField::Architecture => observation.architecture,
        TextField::DriverVersion => observation.driver_version,
        TextField::FirmwareVersion => observation.firmware_version,
        TextField::Uuid => observation.uuid,
        TextField::PciAddress => match observation.pci {
            Some(pci) => pci.address,
            None => None,
        },
        TextField::Luid => match observation.windows {
            Some(windows) => windows.luid,
            None => None,
        },
        TextField::PnpDeviceId => match observation.windows {
            Some(windows) => windows.pnp_device_id,
            None => None,
        },
        TextField::RegistryEntryId => match observation.macos {
            Some(macos) => macos.registry_entry_id,
            None => None,
        },
        TextField::MetalRegistryId => match observation.macos {
            Some(macos) => macos.metal_registry_id,
            None => None,
        },
    }
}

pub fn get_text_field(observation: &DeviceObservation, field: TextField) -> (text: Option<String>)
    ensures
        text == text_field(*observation, field),
{
    match field {
        TextField::Architecture => observation.architecture.clone(),
        TextField::DriverVersion => observation.driver_version.clone(),
        TextField::FirmwareVersion => observation.firmware_version.clone(),
        TextField::Uuid => observation.uuid.clone(),
        TextField::PciAddress => match &observation.pci {
            Some(pci) => pci.address.clone(),
            None => None,
        },
        TextField::Luid => match &observation.windows {
            Some(windows) => windows.luid.clone(),
            None => None,
        },
        TextField::PnpDeviceId => match &observation.windows {
            Some(windows) => windows.pnp_device_id.clone(),
            None => None,
        },
        TextField::RegistryEntryId => match &observation.macos {
            Some(macos) => macos.registry_entry_id.clone(),
            None => None,
        },
        TextField::MetalRegistryId => match &observation.macos {
            Some(macos) => macos.metal_registry_id.clone(),
            None => None,
        },
    }
}

/// The optional numbers of an observation that count only where they are not zero.
#[derive(Clone, Copy, Debug, PartialEq, Eq, Structural)]
pub enum NumberField {
    PciVendorId,
    PciDeviceId,
    SubsystemVendorId,
    SubsystemDeviceId,
}

pub open spec fn number_field(observation: DeviceObservation, field: NumberField) -> Option<u32> {
    match observation.pci {
        None => None,
        Some(pci) => match field {
            NumberField::PciVendorId => if pci.vendor_id == 0 {
                None
            } else {
                Some(pci.vendor_id)
            },
            NumberField::PciDeviceId => if pci.device_id == 0 {
                None
            } else {
                Some(pci.device_id)
            },
            NumberField::SubsystemVendorId => pci.subsystem_vendor_id,
            NumberField::SubsystemDeviceId => pci.subsystem_device_id,
        },
    }
}

fn get_number_field(observation: &DeviceObservation, field: NumberField) -> (number: Option<u32>)
    ensures
        number == number_field(*observation, field),
{
    match &observation.pci {
        None => None,
        Some(pci) => match field {
            NumberField::PciVendorId => if pci.vendor_id == 0 {
                None
            } else {
                Some(pci.vendor_id)
            },
            NumberField::PciDeviceId => if pci.device_id == 0 {
                None
            } else {
                Some(pci.device_id)
            },
            NumberField::SubsystemVendorId => pci.subsystem_vendor_id,
            NumberField::SubsystemDeviceId => pci.subsystem_device_id,
        },
    }
}

/// The sizes of memory that an observation may give.
#[derive(Clone, Copy, Debug, PartialEq, Eq, Structural)]
pub enum MemoryField {
    Dedicated,
    Shared,
    Unified,
}

pub open spec fn memory_field(observation: DeviceObservation, field: MemoryField) -> Option<u64> {
    match field {
        MemoryField::Dedicated => observation.memory.dedicated_total_bytes,
        MemoryField::Shared => observation.memory.shared_total_bytes,
        MemoryField::Unified => observation.memory.unified_total_bytes,
    }
}

/// The first text that an observation of the cluster gives.
pub open spec fn first_text(cluster: Seq<DeviceObservation>, field: TextField) -> Option<String>
    decreases cluster.len(),
{
    if cluster.len() == 0 {
        None
    } else if first_text(cluster.drop_last(), field) is Some {
        first_text(cluster.drop_last(), field)
    } else {
        text_field(cluster.last(), field)
    }
}

/// The first number that an observation of the cluster gives.
pub open spec fn first_number(cluster: Seq<DeviceObservation>, field: NumberField) -> Option<u32>
    decreases cluster.len(),
{
    if cluster.len() == 0 {
        None
    } else if first_number(cluster.drop_last(), field) is Some {
        first_number(cluster.drop_last(), field)
    } else {
        number_field(cluster.last(), field)
    }
}

/// The largest size that an observation of the cluster gives.
pub open spec fn largest_memory(cluster: Seq<DeviceObservation>, field: MemoryField) -> Option<u64>
    decreases cluster.len(),
{
    if cluster.len() == 0 {
        None
    } else {
        match (largest_memory(cluster.drop_last(), field), memory_field(cluster.last(), field)) {
            (Some(a), Some(b)) => if a < b {
                Some(b)
            } else {
                Some(a)
            },
            (Some(a), None) => Some(a),
            (None, other) => other,
        }
    }
}

/// The first vendor of the cluster that is known.
pub open spec fn first_vendor(cluster: Seq<DeviceObservation>) -> GpuVendor
    decreases cluster.len(),
{
    if cluster.len() == 0 {
        GpuVendor::Unknown
    } else if first_vendor(cluster.drop_last()) != GpuVendor::Unknown {
        first_vendor(cluster.drop_last())
    } else {
        cluster.last().vendor
    }
}

/// The first kind of the cluster that is known.
pub open spec fn first_kind(cluster: Seq<DeviceObservation>) -> GpuKind
    decreases cluster.len(),
{
    if cluster.len() == 0 {
        GpuKind::Unknown
    } else if first_kind(cluster.drop_last()) != GpuKind::Unknown {
        first_kind(cluster.drop_last())
    } else {
        cluster.last().kind
    }
}

/// The first memory topology of the cluster that is known.
pub open spec fn first_topology(cluster: Seq<DeviceObservation>) -> MemoryTopology
    decreases cluster.len(),
{
    if cluster.len() == 0 {
        MemoryTopology::Unknown
    } else if first_topology(cluster.drop_last()) != MemoryTopology::Unknown {
        first_topology(cluster.drop_last())
    } else {
        cluster.last().memory.topology
    }
}

/// The first partition that an observation of the cluster gives.
pub open spec fn first_partition(cluster: Seq<DeviceObservation>) -> Option<PartitionIdentity>
    decreases cluster.len(),
{
    if cluster.len() == 0 {
        None
    } else if first_partition(cluster.drop_last()) is Some {
        first_partition(cluster.drop_last())
    } else {
        cluster.last().partition
    }
}

/// The first name of the cluster that is not blank.
pub open spec fn first_name(cluster: Seq<DeviceObservation>) -> Option<Seq<char>>
    decreases cluster.len(),
{
    if cluster.len() == 0 {
        None
    } else if first_name(cluster.drop_last()) is Some {
        first_name(cluster.drop_last())
    } else if trim(CharClass::White, cluster.last().name@).len() > 0 {
        Some(cluster.last().name@)
    } else {
        None
    }
}

pub open spec fn cluster_name(cluster: Seq<DeviceObservation>) -> Seq<char> {
    match first_name(cluster) {
        Some(name) => name,
        None => "Unknown GPU"@,
    }
}

/// Some observation of the cluster has PCI data.
pub open spec fn any_pci(cluster: Seq<DeviceObservation>) -> bool {
    exists|i: int| 0 <= i < cluster.len() && (#[trigger] cluster[i]).pci is Some
}

pub open spec fn any_windows(cluster: Seq<DeviceObservation>) -> bool {
    exists|i: int| 0 <= i < cluster.len() && (#[trigger] cluster[i]).windows is Some
}

pub open spec fn any_macos(cluster: Seq<DeviceObservation>) -> bool {
    exists|i: int| 0 <= i < cluster.len() && (#[trigger] cluster[i]).macos is Some
}

pub open spec fn number_or_zero(number: Option<u32>) -> u32 {
    match number {
        Some(n) => n,
        None => 0,
    }
}

pub open spec fn merged_pci(cluster: Seq<DeviceObservation>) -> Option<PciIdentity> {
    if any_pci(cluster) {
        Some(
            PciIdentity {
                address: first_text(cluster, TextField::PciAddress),
                vendor_id: number_or_zero(first_number(cluster, NumberField::PciVendorId)),
                device_id: number_or_zero(first_number(cluster, NumberField::PciDeviceId)),
                subsystem_vendor_id: first_number(cluster, NumberField::SubsystemVendorId),
                subsystem_device_id: first_number(cluster, NumberField::SubsystemDeviceId),
            },
        )
    } else {
        None
    }
}

pub open spec fn merged_windows(cluster: Seq<DeviceObservation>) -> Option<WindowsIdentity> {
    if any_windows(cluster) {
        Some(
            WindowsIdentity {
                luid: first_text(cluster, TextField::Luid),
                pnp_device_id: first_text(cluster, TextField::PnpDeviceId),
            },
        )
    } else {
        None
    }
}

pub open spec fn merged_macos(cluster: Seq<DeviceObservation>) -> Option<MacosIdentity> {
    if any_macos(cluster) {
        Some(
            MacosIdentity {
                registry_entry_id: first_text(cluster, TextField::RegistryEntryId),
                metal_registry_id: first_text(cluster, TextField::MetalRegistryId),
            },
        )
    } else {
        None
    }
}

pub open spec fn merged_memory(cluster: Seq<DeviceObservation>) -> StaticMemoryInfo {
    StaticMemoryInfo {
        topology: first_topology(cluster),
        dedicated_total_bytes: largest_memory(cluster, MemoryField::Dedicated),
        shared_total_bytes: largest_memory(cluster, MemoryField::Shared),
        unified_total_bytes: largest_memory(cluster, MemoryField::Unified),
    }
}

/// Every metric that an observation of the cluster offers.
pub open spec fn all_metrics(cluster: Seq<DeviceObservation>) -> Set<MetricKey>
    decreases cluster.len(),
{
    if cluster.len() == 0 {
        Set::empty()
    } else {
        all_metrics(cluster.skip(1)).union(cluster[0].capabilities.metric_set())
    }
}

/// Every vendor extension that an observation of the cluster offers.
pub open spec fn all_extensions(cluster: Seq<DeviceObservation>) -> Set<Seq<char>>
    decreases cluster.len(),
{
    if cluster.len() == 0 {
        Set::empty()
    } else {
        all_extensions(cluster.skip(1)).union(cluster[0].capabilities.vendor_extensions@)
    }
}

/// How each provider names the device; the earlier observation of a provider counts.
pub open spec fn device_ids(cluster: Seq<DeviceObservation>) -> Map<Seq<char>, String>
    decreases cluster.len(),
{
    if cluster.len() == 0 {
        Map::empty()
    } else {
        device_ids(cluster.skip(1)).insert(cluster[0].provider@, cluster[0].provider_device_id)
    }
}

/// The vendor data of the cluster; for one name the earlier observation counts.
pub open spec fn all_vendor_info(cluster: Seq<DeviceObservation>) -> Map<Seq<char>, JsonModel>
    decreases cluster.len(),
{
    if cluster.len() == 0 {
        Map::empty()
    } else {
        all_vendor_info(cluster.skip(1)).union_prefer_right(
            json_models(cluster[0].vendor_info@),
        )
    }
}

/// What a device is told apart by, from the strongest identifier at hand.
pub open spec fn fingerprint(cluster: Seq<DeviceObservation>) -> Seq<char> {
    let vendor = first_vendor(cluster).name();
    let suffix = match first_partition(cluster) {
        Some(partition) => ":partition:"@ + identifier(partition.id@),
        None => Seq::empty(),
    };
    if let Some(uuid) = first_text(cluster, TextField::Uuid) {
        vendor + ":uuid:"@ + identifier(uuid@) + suffix
    } else if let Some(address) = first_text(cluster, TextField::PciAddress) {
        vendor + ":pci:"@ + pci_address(address@) + ":"@ + padded_digits(
            number_or_zero(first_number(cluster, NumberField::PciVendorId)) as nat,
            16,
            4,
        ) + ":"@ + padded_digits(
            number_or_zero(first_number(cluster, NumberField::PciDeviceId)) as nat,
            16,
            4,
        ) + suffix
    } else if let Some(luid) = first_text(cluster, TextField::Luid) {
        vendor + ":luid:"@ + identifier(luid@) + suffix
    } else if let Some(pnp) = first_text(cluster, TextField::PnpDeviceId) {
        vendor + ":pnp:"@ + identifier(pnp@) + suffix
    } else if let Some(metal) = first_text(cluster, TextField::MetalRegistryId) {
        vendor + ":metal:"@ + identifier(metal@) + suffix
    } else if let Some(registry) = first_text(cluster, TextField::RegistryEntryId) {
        vendor + ":ioreg:"@ + identifier(registry@) + suffix
    } else {
        vendor + ":fallback:"@ + cluster[0].provider@ + ":"@ + identifier(
            cluster[0].provider_device_id@,
        ) + ":"@ + plain_name(cluster[0].name@) + suffix
    }
}

/// What `blake3::hash` gives for the bytes, in the lower-case hexadecimal of `Hash::to_hex`.
pub uninterp spec fn blake3_hex(input: Seq<u8>) -> Seq<char>;

/// `blake3::hash` and `Hash::to_hex`: the digest of the bytes, which is a function of them alone,
/// as sixty-four characters.
#[verifier::external_body]
fn digest_hex(input: &[u8]) -> (hex: String)
    ensures
        hex@ == blake3_hex(input@),
        hex@.len() == 64,
{
    blake3::hash(input).to_hex().to_string()
}

/// The public name of a device: its vendor and the head of the digest of its fingerprint.
pub open spec fn stable_id(vendor: GpuVendor, digest: Seq<char>) -> Seq<char> {
    "gpu_"@ + vendor.name() + "_"@ + digest.take(20)
}

/// The public name of the device that a cluster stands for.
pub open spec fn cluster_id(cluster: Seq<DeviceObservation>) -> Seq<char> {
    stable_id(first_vendor(cluster), blake3_hex(encode_utf8(fingerprint(cluster))))
}

/// The public name of a device of the given vendor with the given digest of its fingerprint.
pub fn device_id(vendor: GpuVendor, digest: &str) -> (id: String)
    requires
        digest@.len() >= 20,
    ensures
        id@ == stable_id(vendor, digest@),
{
    let mut out = chars_of("gpu_");
    extend_text(&mut out, vendor.text());
    extend_text(&mut out, "_");
    let digest = chars_of(digest);
    let head = slice_of(&digest, 0, 20);
    extend(&mut out, &head);
    assert(head@ == digest@.take(20));
    string_of(&out)
}

/// A device by its contents.
#[verifier::ext_equal]
pub struct GpuModel {
    pub id: Seq<char>,
    pub vendor: GpuVendor,
    pub name: Seq<char>,
    pub architecture: Option<String>,
    pub driver_version: Option<String>,
    pub firmware_version: Option<String>,
    pub kind: GpuKind,
    pub uuid: Option<String>,
    pub pci: Option<PciIdentity>,
    pub windows: Option<WindowsIdentity>,
    pub macos: Option<MacosIdentity>,
    pub parent_device_id: Option<Seq<char>>,
    pub partition: Option<PartitionIdentity>,
    pub memory: StaticMemoryInfo,
    pub metrics: Set<MetricKey>,
    pub extensions: Set<Seq<char>>,
    pub device_ids: Map<Seq<char>, String>,
    pub vendor_info: Map<Seq<char>, JsonModel>,
}

impl View for CanonicalGpu {
    type V = GpuModel;

    open spec fn view(&self) -> GpuModel {
        GpuModel {
            id: self.identity.id@,
            vendor: self.identity.vendor,
            name: self.identity.name@,
            architecture: self.identity.architecture,
            driver_version: self.identity.driver_version,
            firmware_version: self.identity.firmware_version,
            kind: self.identity.kind,
            uuid: self.identity.uuid,
            pci: self.identity.pci,
            windows: self.identity.windows,
            macos: self.identity.macos,
            parent_device_id: match self.identity.parent_device_id {
                Some(id) => Some(id@),
                None => None,
            },
            partition: self.identity.partition,
            memory: self.memory,
            metrics: self.capability_set.metric_set(),
            extensions: self.capability_set.vendor_extensions@,
            device_ids: self.provider_device_ids@,
            vendor_info: json_models(self.vendor_info@),
        }
    }
}

impl CanonicalGpu {
    /// The public capabilities and the list of providers tell what the sets behind them hold.
    pub open spec fn consistent(&self) -> bool {
        &&& self.capabilities.shows(&self.capability_set)
        &&& lists_keys::<String>(text_views(self.providers@), self.provider_device_ids@.dom())
    }
}

/// The device that a cluster with the public name `id` stands for.
pub open spec fn cluster_model(cluster: Seq<DeviceObservation>, id: Seq<char>) -> GpuModel {
    GpuModel {
        id,
        vendor: first_vendor(cluster),
        name: cluster_name(cluster),
        architecture: first_text(cluster, TextField::Architecture),
        driver_version: first_text(cluster, TextField::DriverVersion),
        firmware_version: first_text(cluster, TextField::FirmwareVersion),
        kind: first_kind(cluster),
        uuid: first_text(cluster, TextField::Uuid),
        pci: merged_pci(cluster),
        windows: merged_windows(cluster),
        macos: merged_macos(cluster),
        parent_device_id: None,
        partition: first_partition(cluster),
        memory: merged_memory(cluster),
        metrics: all_metrics(cluster),
        extensions: all_extensions(cluster),
        device_ids: device_ids(cluster),
        vendor_info: all_vendor_info(cluster),
    }
}

/// The observations that `order` picks.
pub open spec fn picked(
    observations: Seq<DeviceObservation>,
    order: Seq<usize>,
) -> Seq<DeviceObservation> {
    Seq::new(order.len(), |k: int| observations[order[k] as int])
}

/// Every index of `order` is one of the observations.
pub open spec fn in_bounds(observations: Seq<DeviceObservation>, order: Seq<usize>) -> bool {
    forall|k: int| 0 <= k < order.len() ==> #[trigger] order[k] < observations.len()
}

fn find_text(observations: &Vec<DeviceObservation>, order: &Vec<usize>, field: TextField) -> (text:
    Option<String>)
    requires
        in_bounds(observations@, order@),
    ensures
        text == first_text(picked(observations@, order@), field),
{
    let ghost cluster = picked(observations@, order@);
    let mut text: Option<String> = None;
    let mut k: usize = 0;
    while k < order.len()
        invariant
            k <= order.len(),
            in_bounds(observations@, order@),
            cluster == picked(observations@, order@),
            text == first_text(cluster.take(k as int), field),
        decreases order.len() - k,
    {
        assert(cluster.take(k + 1).drop_last() == cluster.take(k as int));
        if text.is_none() {
            text = get_text_field(&observations[order[k]], field);
        }
        k = k + 1;
    }
    assert(cluster.take(k as int) == cluster);
    text
}

fn find_number(
    observations: &Vec<DeviceObservation>,
    order: &Vec<usize>,
    field: NumberField,
) -> (number: Option<u32>)
    requires
        in_bounds(observations@, order@),
    ensures
        number == first_number(picked(observations@, order@), field),
{
    let ghost cluster = picked(observations@, order@);
    let mut number: Option<u32> = None;
    let mut k: usize = 0;
    while k < order.len()
        invariant
            k <= order.len(),
            in_bounds(observations@, order@),
            cluster == picked(observations@, order@),
            number == first_number(cluster.take(k as int), field),
        decreases order.len() - k,
    {
        assert(cluster.take(k + 1).drop_last() == cluster.take(k as int));
        if number.is_none() {
            number = get_number_field(&observations[order[k]], field);
        }
        k = k + 1;
    }
    assert(cluster.take(k as int) == cluster);
    number
}

fn larger(a: Option<u64>, b: Option<u64>) -> (result: Option<u64>)
    ensures
        result == match (a, b) {
            (Some(a), Some(b)) => if a < b {
                Some(b)
            } else {
                Some(a)
            },
            (Some(a), None) => Some(a),
            (None, other) => other,
        },
{
    match (a, b) {
        (Some(a), Some(b)) => if a < b {
            Some(b)
        } else {
            Some(a)
        },
        (Some(a), None) => Some(a),
        (None, other) => other,
    }
}

fn merge_memory(observations: &Vec<DeviceObservation>, order: &Vec<usize>) -> (memory:
    StaticMemoryInfo)
    requires
        in_bounds(observations@, order@),
    ensures
        memory == merged_memory(picked(observations@, order@)),
{
    let ghost cluster = picked(observations@, order@);
    let mut memory = StaticMemoryInfo::default();
    let mut k: usize = 0;
    while k < order.len()
        invariant
            k <= order.len(),
            in_bounds(observations@, order@),
            cluster == picked(observations@, order@),
            memory == merged_memory(cluster.take(k as int)),
        decreases order.len() - k,
    {
        assert(cluster.take(k + 1).drop_last() == cluster.take(k as int));
        let other = observations[order[k]].memory;
        memory =
        StaticMemoryInfo {
            topology: if memory.topology == MemoryTopology::Unknown {
                other.topology
            } else {
                memory.topology
            },
            dedicated_total_bytes: larger(
                memory.dedicated_total_bytes,
                other.dedicated_total_bytes,
            ),
            shared_total_bytes: larger(memory.shared_total_bytes, other.shared_total_bytes),
            unified_total_bytes: larger(memory.unified_total_bytes, other.unified_total_bytes),
        };
        k = k + 1;
    }
    assert(cluster.take(k as int) == cluster);
    memory
}

fn merge_pci(observations: &Vec<DeviceObservation>, order: &Vec<usize>) -> (pci: Option<
    PciIdentity,
>)
    requires
        in_bounds(observations@, order@),
    ensures
        pci == merged_pci(picked(observations@, order@)),
{
    let ghost cluster = picked(observations@, order@);
    let mut k: usize = 0;
    while k < order.len()
        invariant
            k <= order.len(),
            in_bounds(observations@, order@),
            cluster == picked(observations@, order@),
            forall|i: int| 0 <= i < k ==> (#[trigger] cluster[i]).pci is None,
        decreases order.len() - k,
    {
        if observations[order[k]].pci.is_some() {
            assert(cluster[k as int].pci is Some);
            let vendor_id = find_number(observations, order, NumberField::PciVendorId);
            let device_id = find_number(observations, order, NumberField::PciDeviceId);
            return Some(
                PciIdentity {
                    address: find_text(observations, order, TextField::PciAddress),
                    vendor_id: match vendor_id {
                        Some(n) => n,
                        None => 0,
                    },
                    device_id: match device_id {
                        Some(n) => n,
                        None => 0,
                    },
                    subsystem_vendor_id: find_number(
                        observations,
                        order,
                        NumberField::SubsystemVendorId,
                    ),
                    subsystem_device_id: find_number(
                        observations,
                        order,
                        NumberField::SubsystemDeviceId,
                    ),
                },
            );
        }
        k = k + 1;
    }
    None
}

fn merge_windows(observations: &Vec<DeviceObservation>, order: &Vec<usize>) -> (windows: Option<
    WindowsIdentity,
>)
    requires
        in_bounds(observations@, order@),
    ensures
        windows == merged_windows(picked(observations@, order@)),
{
    let ghost cluster = picked(observations@, order@);
    let mut k: usize = 0;
    while k < order.len()
        invariant
            k <= order.len(),
            in_bounds(observations@, order@),
            cluster == picked(observations@, order@),
            forall|i: int| 0 <= i < k ==> (#[trigger] cluster[i]).windows is None,
        decreases order.len() - k,
    {
        if observations[order[k]].windows.is_some() {
            assert(cluster[k as int].windows is Some);
            return Some(
                WindowsIdentity {
                    luid: find_text(observations, order, TextField::Luid),
                    pnp_device_id: find_text(observations, order, TextField::PnpDeviceId),
                },
            );
        }
        k = k + 1;
    }
    None
}

fn merge_macos(observations: &Vec<DeviceObservation>, order: &Vec<usize>) -> (macos: Option<
    MacosIdentity,
>)
    requires
        in_bounds(observations@, order@),
    ensures
        macos == merged_macos(picked(observations@, order@)),
{
    let ghost cluster = picked(observations@, order@);
    let mut k: usize = 0;
    while k < order.len()
        invariant
            k <= order.len(),
            in_bounds(observations@, order@),
            cluster == picked(observations@, order@),
            forall|i: int| 0 <= i < k ==> (#[trigger] cluster[i]).macos is None,
        decreases order.len() - k,
    {
        if observations[order[k]].macos.is_some() {
            assert(cluster[k as int].macos is Some);
            return Some(
                MacosIdentity {
                    registry_entry_id: find_text(
                        observations,
                        order,
                        TextField::RegistryEntryId,
                    ),
                    metal_registry_id: find_text(
                        observations,
                        order,
                        TextField::MetalRegistryId,
                    ),
                },
            );
        }
        k = k + 1;
    }
    None
}

/// The parts of a device that come from the first observation to say something.
struct Traits {
    vendor: GpuVendor,
    kind: GpuKind,
    name: Option<String>,
    partition: Option<PartitionIdentity>,
}

fn merge_traits(observations: &Vec<DeviceObservation>, order: &Vec<usize>) -> (traits: Traits)
    requires
        in_bounds(observations@, order@),
    ensures
        traits.vendor == first_vendor(picked(observations@, order@)),
        traits.kind == first_kind(picked(observations@, order@)),
        traits.partition == first_partition(picked(observations@, order@)),
        match traits.name {
            Some(name) => first_name(picked(observations@, order@)) == Some(name@),
            None => first_name(picked(observations@, order@)) is None,
        },
{
    let ghost cluster = picked(observations@, order@);
    let mut vendor = GpuVendor::Unknown;
    let mut kind = GpuKind::Unknown;
    let mut name: Option<String> = None;
    let mut partition: Option<PartitionIdentity> = None;
    let mut k: usize = 0;
    while k < order.len()
        invariant
            k <= order.len(),
            in_bounds(observations@, order@),
            cluster == picked(observations@, order@),
            vendor == first_vendor(cluster.take(k as int)),
            kind == first_kind(cluster.take(k as int)),
            partition == first_partition(cluster.take(k as int)),
            match name {
                Some(name) => first_name(cluster.take(k as int)) == Some(name@),
                None => first_name(cluster.take(k as int)) is None,
            },
        decreases order.len() - k,
    {
        assert(cluster.take(k + 1).drop_last() == cluster.take(k as int));
        let observation = &observations[order[k]];
        if vendor == GpuVendor::Unknown {
            vendor = observation.vendor;
        }
        if kind == GpuKind::Unknown {
            kind = observation.kind;
        }
        if partition.is_none() {
            partition = observation.partition.clone();
        }
        if name.is_none() {
            let chars = chars_of(observation.name.as_str());
            if trimmed(CharClass::White, &chars).len() > 0 {
                name = Some(observation.name.clone());
            }
        }
        k = k + 1;
    }
    assert(cluster.take(k as int) == cluster);
    Traits { vendor, kind, name, partition }
}

/// The fingerprint of a cluster.
pub fn best_fingerprint(observations: &Vec<DeviceObservation>, order: &Vec<usize>) -> (text: String)
    requires
        in_bounds(observations@, order@),
        order@.len() > 0,
    ensures
        text@ == fingerprint(picked(observations@, order@)),
{
    let ghost cluster = picked(observations@, order@);
    let traits = merge_traits(observations, order);
    let mut suffix: Vec<char> = Vec::new();
    if let Some(partition) = &traits.partition {
        extend_text(&mut suffix, ":partition:");
        let id = normalize_identifier(partition.id.as_str());
        extend_text(&mut suffix, id.as_str());
    }
    let ghost tail = suffix@;
    assert(tail == match first_partition(cluster) {
        Some(partition) => ":partition:"@ + identifier(partition.id@),
        None => Seq::empty(),
    });
    let mut out = chars_of(traits.vendor.text());
    if let Some(uuid) = find_text(observations, order, TextField::Uuid) {
        extend_text(&mut out, ":uuid:");
        let id = normalize_identifier(uuid.as_str());
        extend_text(&mut out, id.as_str());
    } else if let Some(address) = find_text(observations, order, TextField::PciAddress) {
        extend_text(&mut out, ":pci:");
        let id = normalize_pci_address(address.as_str());
        extend_text(&mut out, id.as_str());
        extend_text(&mut out, ":");
        let vendor_id = find_number(observations, order, NumberField::PciVendorId);
        let device_id = find_number(observations, order, NumberField::PciDeviceId);
        let vendor_number: u32 = match vendor_id {
            Some(n) => n,
            None => 0,
        };
        let device_number: u32 = match device_id {
            Some(n) => n,
            None => 0,
        };
        let digits = padded_digits_of(vendor_number as u64, 16, 4);
        extend(&mut out, &digits);
        extend_text(&mut out, ":");
        let digits = padded_digits_of(device_number as u64, 16, 4);
        extend(&mut out, &digits);
    } else if let Some(luid) = find_text(observations, order, TextField::Luid) {
        extend_text(&mut out, ":luid:");
        let id = normalize_identifier(luid.as_str());
        extend_text(&mut out, id.as_str());
    } else if let Some(pnp) = find_text(observations, order, TextField::PnpDeviceId) {
        extend_text(&mut out, ":pnp:");
        let id = normalize_identifier(pnp.as_str());
        extend_text(&mut out, id.as_str());
    } else if let Some(metal) = find_text(observations, order, TextField::MetalRegistryId) {
        extend_text(&mut out, ":metal:");
        let id = normalize_identifier(metal.as_str());
        extend_text(&mut out, id.as_str());
    } else if let Some(registry) = find_text(observations, order, TextField::RegistryEntryId) {
        extend_text(&mut out, ":ioreg:");
        let id = normalize_identifier(registry.as_str());
        extend_text(&mut out, id.as_str());
    } else {
        let fallback = &observations[order[0]];
        assert(*fallback == cluster[0]);
        extend_text(&mut out, ":fallback:");
        extend_text(&mut out, fallback.provider.as_str());
        extend_text(&mut out, ":");
        let id = normalize_identifier(fallback.provider_device_id.as_str());
        extend_text(&mut out, id.as_str());
        extend_text(&mut out, ":");
        let name = normalize_name(fallback.name.as_str());
        extend_text(&mut out, name.as_str());
    }
    extend(&mut out, &suffix);
    assert(out@ == fingerprint(cluster));
    string_of(&out)
}

/// The keys of a map of texts in ascending order.
pub fn key_texts(map: &SortedMap<String, String>) -> (texts: Vec<String>)
    ensures
        lists_keys::<String>(text_views(texts@), map@.dom()),
{
    let mut texts: Vec<String> = Vec::new();
    let n: usize = map.len();
    let mut i: usize = 0;
    while i < n
        invariant
            i <= n == map.keys().len(),
            text_views(texts@) == map.keys().take(i as int),
        decreases n - i,
    {
        let ghost before = text_views(texts@);
        texts.push(map.key_at(i).clone());
        i = i + 1;
        assert(text_views(texts@) == before.push(map.keys()[i - 1]));
    }
    assert(text_views(texts@) == map.keys());
    texts
}

/// Puts a device together from its observations and the digest of its fingerprint.
pub fn assemble_gpu(
    observations: &Vec<DeviceObservation>,
    order: &Vec<usize>,
    digest: &str,
) -> (gpu: CanonicalGpu)
    requires
        in_bounds(observations@, order@),
        digest@.len() >= 20,
    ensures
        gpu.consistent(),
        gpu@ == cluster_model(
            picked(observations@, order@),
            stable_id(first_vendor(picked(observations@, order@)), digest@),
        ),
{
    let ghost cluster = picked(observations@, order@);
    let traits = merge_traits(observations, order);
    let mut capability_set = CapabilitySet::default();
    let mut provider_device_ids: SortedMap<String, String> = SortedMap::new();
    let mut vendor_info: JsonMap = SortedMap::new();
    let mut k: usize = order.len();
    assert(cluster.skip(k as int) == Seq::<DeviceObservation>::empty());
    assert(json_models(vendor_info@) == Map::<Seq<char>, JsonModel>::empty());
    while k > 0
        invariant
            k <= order.len(),
            in_bounds(observations@, order@),
            cluster == picked(observations@, order@),
            capability_set.metric_set() == all_metrics(cluster.skip(k as int)),
            capability_set.vendor_extensions@ == all_extensions(cluster.skip(k as int)),
            provider_device_ids@ == device_ids(cluster.skip(k as int)),
            json_models(vendor_info@) == all_vendor_info(cluster.skip(k as int)),
        decreases k,
    {
        k = k - 1;
        assert(cluster.skip(k as int).skip(1) == cluster.skip(k + 1));
        let observation = &observations[order[k]];
        assert(cluster.skip(k as int)[0] == *observation);
        capability_set.extend(&observation.capabilities);
        provider_device_ids.insert(
            observation.provider.clone(),
            observation.provider_device_id.clone(),
        );
        extend_json(&mut vendor_info, &observation.vendor_info);
    }
    assert(cluster.skip(0) == cluster);
    let name = match traits.name {
        Some(name) => name,
        None => owned("Unknown GPU"),
    };
    let identity = GpuIdentity {
        id: device_id(traits.vendor, digest),
        vendor: traits.vendor,
        name,
        architecture: find_text(observations, order, TextField::Architecture),
        driver_version: find_text(observations, order, TextField::DriverVersion),
        firmware_version: find_text(observations, order, TextField::FirmwareVersion),
        kind: traits.kind,
        uuid: find_text(observations, order, TextField::Uuid),
        pci: merge_pci(observations, order),
        windows: merge_windows(observations, order),
        macos: merge_macos(observations, order),
        parent_device_id: None,
        partition: traits.partition,
    };
    CanonicalGpu {
        identity,
        capabilities: capability_set.to_public(),
        memory: merge_memory(observations, order),
        providers: key_texts(&provider_device_ids),
        vendor_info,
        capability_set,
        provider_device_ids,
    }
}

/// The device that a cluster of observations stands for.
pub fn merge_cluster(observations: &Vec<DeviceObservation>, order: &Vec<usize>) -> (gpu:
    CanonicalGpu)
    requires
        in_bounds(observations@, order@),
        order@.len() > 0,
    ensures
        gpu.consistent(),
        gpu@ == cluster_model(
            picked(observations@, order@),
            cluster_id(picked(observations@, order@)),
        ),
{
    let fingerprint = best_fingerprint(observations, order);
    let digest = digest_hex(fingerprint.as_str().as_bytes());
    assemble_gpu(observations, order, digest.as_str())
}

} // verus!
