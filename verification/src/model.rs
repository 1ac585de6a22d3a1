//! Devices, metrics, capabilities and samples.
use crate::binary64::Binary64;
use crate::float_arithmetic::nearest_bits;
use crate::json::{copy_json_map, json_models, JsonMap};
use crate::ordered::{Ordered, Relation};
use crate::sorted_map::{lists_keys, Duplicate, SortedMap, SortedSet};
use crate::text::owned;
use vstd::prelude::*;

verus! {

pub type DeviceId = String;

pub type ProviderId = String;

pub type TimestampMs = u64;

/// `SystemTime::elapsed` of std, taken of the Unix epoch, as whole milliseconds; none where the
/// clock stands before the epoch. The result is up to the clock, so nothing is claimed of it.
#[verifier::external_body]
fn since_epoch() -> (millis: Option<u128>) {
    std::time::UNIX_EPOCH.elapsed().ok().map(|elapsed| elapsed.as_millis())
}

/// A reading of the clock as a timestamp: zero before the epoch, capped at the largest timestamp.
pub open spec fn timestamp(reading: Option<u128>) -> TimestampMs {
    match reading {
        None => 0,
        Some(millis) => if millis <= u64::MAX {
            millis as u64
        } else {
            u64::MAX
        },
    }
}

pub fn timestamp_of(reading: Option<u128>) -> (stamp: TimestampMs)
    ensures
        stamp == timestamp(reading),
{
    match reading {
        None => 0,
        Some(millis) => if millis <= u64::MAX as u128 {
            millis as u64
        } else {
            u64::MAX
        },
    }
}

/// Milliseconds since the Unix epoch.
pub fn now_millis() -> (now: TimestampMs)
    ensures
        exists|reading: Option<u128>| now == #[trigger] timestamp(reading),
{
    timestamp_of(since_epoch())
}

#[derive(Debug, Clone, Copy, PartialEq, Eq, Structural)]
pub enum GpuVendor {
    Nvidia,
    Amd,
    Intel,
    Apple,
    Unknown,
}

/// The vendor that a PCI vendor number stands for.
pub open spec fn pci_vendor(vendor_id: u32) -> GpuVendor {
    if vendor_id == 0x10de {
        GpuVendor::Nvidia
    } else if vendor_id == 0x1002 || vendor_id == 0x1022 {
        GpuVendor::Amd
    } else if vendor_id == 0x8086 {
        GpuVendor::Intel
    } else if vendor_id == 0x106b {
        GpuVendor::Apple
    } else {
        GpuVendor::Unknown
    }
}

impl GpuVendor {
    pub fn from_pci_vendor_id(vendor_id: u32) -> (vendor: Self)
        ensures
            vendor == pci_vendor(vendor_id),
    {
        match vendor_id {
            0x10de => GpuVendor::Nvidia,
            0x1002 | 0x1022 => GpuVendor::Amd,
            0x8086 => GpuVendor::Intel,
            0x106b => GpuVendor::Apple,
            _ => GpuVendor::Unknown,
        }
    }

    pub open spec fn name(self) -> Seq<char> {
        match self {
            GpuVendor::Nvidia => "nvidia"@,
            GpuVendor::Amd => "amd"@,
            GpuVendor::Intel => "intel"@,
            GpuVendor::Apple => "apple"@,
            GpuVendor::Unknown => "unknown"@,
        }
    }

    /// The vendor in lower case.
    pub fn text(self) -> (text: &'static str)
        ensures
            text@ == self.name(),
    {
        match self {
            GpuVendor::Nvidia => "nvidia",
            GpuVendor::Amd => "amd",
            GpuVendor::Intel => "intel",
            GpuVendor::Apple => "apple",
            GpuVendor::Unknown => "unknown",
        }
    }
}

#[derive(Debug, Clone, Copy, PartialEq, Eq, Structural)]
pub enum GpuKind {
    Integrated,
    Discrete,
    External,
    Virtual,
    Unknown,
}

impl Default for GpuKind {
    fn default() -> (kind: Self)
        ensures
            kind == GpuKind::Unknown,
    {
        GpuKind::Unknown
    }
}

#[derive(Debug)]
pub struct PciIdentity {
    pub address: Option<String>,
    pub vendor_id: u32,
    pub device_id: u32,
    pub subsystem_vendor_id: Option<u32>,
    pub subsystem_device_id: Option<u32>,
}

impl Clone for PciIdentity {
    fn clone(&self) -> (copy: Self)
        ensures
            copy == *self,
    {
        PciIdentity {
            address: self.address.clone(),
            vendor_id: self.vendor_id,
            device_id: self.device_id,
            subsystem_vendor_id: self.subsystem_vendor_id,
            subsystem_device_id: self.subsystem_device_id,
        }
    }
}

/// A PCI identity by its contents.
pub struct PciModel {
    pub address: Option<Seq<char>>,
    pub vendor_id: u32,
    pub device_id: u32,
    pub subsystem_vendor_id: Option<u32>,
    pub subsystem_device_id: Option<u32>,
}

pub open spec fn pci_view(pci: PciIdentity) -> PciModel {
    PciModel {
        address: match pci.address {
            Some(address) => Some(address@),
            None => None,
        },
        vendor_id: pci.vendor_id,
        device_id: pci.device_id,
        subsystem_vendor_id: pci.subsystem_vendor_id,
        subsystem_device_id: pci.subsystem_device_id,
    }
}

#[derive(Debug)]
pub struct WindowsIdentity {
    pub luid: Option<String>,
    pub pnp_device_id: Option<String>,
}

impl Default for WindowsIdentity {
    fn default() -> (identity: Self)
        ensures
            identity == (WindowsIdentity { luid: None, pnp_device_id: None }),
    {
        WindowsIdentity { luid: None, pnp_device_id: None }
    }
}

impl Clone for WindowsIdentity {
    fn clone(&self) -> (copy: Self)
        ensures
            copy == *self,
    {
        WindowsIdentity { luid: self.luid.clone(), pnp_device_id: self.pnp_device_id.clone() }
    }
}

#[derive(Debug)]
pub struct MacosIdentity {
    pub registry_entry_id: Option<String>,
    pub metal_registry_id: Option<String>,
}

impl Default for MacosIdentity {
    fn default() -> (identity: Self)
        ensures
            identity == (MacosIdentity { registry_entry_id: None, metal_registry_id: None }),
    {
        MacosIdentity { registry_entry_id: None, metal_registry_id: None }
    }
}

impl Clone for MacosIdentity {
    fn clone(&self) -> (copy: Self)
        ensures
            copy == *self,
    {
        MacosIdentity {
            registry_entry_id: self.registry_entry_id.clone(),
            metal_registry_id: self.metal_registry_id.clone(),
        }
    }
}

#[derive(Debug, Clone, Copy, PartialEq, Eq, Structural)]
pub enum PartitionType {
    Mig,
    Vgpu,
    Sriov,
    Tile,
}

#[derive(Debug)]
pub struct PartitionIdentity {
    pub partition_type: PartitionType,
    pub id: String,
}

impl Clone for PartitionIdentity {
    fn clone(&self) -> (copy: Self)
        ensures
            copy == *self,
    {
        PartitionIdentity { partition_type: self.partition_type, id: self.id.clone() }
    }
}

#[derive(Debug)]
pub struct GpuIdentity {
    pub id: DeviceId,
    pub vendor: GpuVendor,
    pub name: String,
    pub architecture: Option<String>,
    pub driver_version: Option<String>,
    pub firmware_version: Option<String>,
    pub kind: GpuKind,
    pub uuid: Option<String>,
    pub pci: Option<PciIdentity>,
    pub windows: Option<WindowsIdentity>,
    pub macos: Option<MacosIdentity>,
    pub parent_device_id: Option<String>,
    pub partition: Option<PartitionIdentity>,
}

impl Clone for GpuIdentity {
    fn clone(&self) -> (copy: Self)
        ensures
            copy == *self,
    {
        GpuIdentity {
            id: self.id.clone(),
            vendor: self.vendor,
            name: self.name.clone(),
            architecture: self.architecture.clone(),
            driver_version: self.driver_version.clone(),
            firmware_version: self.firmware_version.clone(),
            kind: self.kind,
            uuid: self.uuid.clone(),
            pci: self.pci.clone(),
            windows: self.windows.clone(),
            macos: self.macos.clone(),
            parent_device_id: self.parent_device_id.clone(),
            partition: self.partition.clone(),
        }
    }
}

#[derive(Debug, Clone, Copy, PartialEq, Eq, Structural)]
pub enum MemoryTopology {
    Dedicated,
    Shared,
    Unified,
    Mixed,
    Unknown,
}

impl Default for MemoryTopology {
    fn default() -> (topology: Self)
        ensures
            topology == MemoryTopology::Unknown,
    {
        MemoryTopology::Unknown
    }
}

#[derive(Debug, Clone, Copy, PartialEq, Eq, Structural)]
pub struct StaticMemoryInfo {
    pub topology: MemoryTopology,
    pub dedicated_total_bytes: Option<u64>,
    pub shared_total_bytes: Option<u64>,
    pub unified_total_bytes: Option<u64>,
}

impl Default for StaticMemoryInfo {
    fn default() -> (memory: Self)
        ensures
            memory == (StaticMemoryInfo {
                topology: MemoryTopology::Unknown,
                dedicated_total_bytes: None,
                shared_total_bytes: None,
                unified_total_bytes: None,
            }),
    {
        StaticMemoryInfo {
            topology: MemoryTopology::Unknown,
            dedicated_total_bytes: None,
            shared_total_bytes: None,
            unified_total_bytes: None,
        }
    }
}

#[derive(Debug, Clone, Copy, PartialEq, Eq, Structural)]
pub enum MetricKey {
    UtilizationOverall,
    UtilizationGraphics,
    UtilizationCompute,
    UtilizationCopy,
    UtilizationMemoryController,
    UtilizationEncoder,
    UtilizationDecoder,
    MemoryDedicatedUsedBytes,
    MemorySharedUsedBytes,
    MemoryUnifiedUsedBytes,
    MemoryBudgetBytes,
    MemoryBandwidthUtilizationPercent,
    TemperatureCoreCelsius,
    TemperatureEdgeCelsius,
    TemperatureHotspotCelsius,
    TemperatureMemoryCelsius,
    PowerDrawWatts,
    PowerLimitWatts,
    PowerEnergyJoules,
    ClockGraphicsMhz,
    ClockComputeMhz,
    ClockMemoryMhz,
    ClockVideoMhz,
    FanPercent,
    FanRpm,
    Processes,
}

/// The place of a metric in the list of all metrics.
pub open spec fn metric_place(metric: MetricKey) -> int {
    match metric {
        MetricKey::UtilizationOverall => 0,
        MetricKey::UtilizationGraphics => 1,
        MetricKey::UtilizationCompute => 2,
        MetricKey::UtilizationCopy => 3,
        MetricKey::UtilizationMemoryController => 4,
        MetricKey::UtilizationEncoder => 5,
        MetricKey::UtilizationDecoder => 6,
        MetricKey::MemoryDedicatedUsedBytes => 7,
        MetricKey::MemorySharedUsedBytes => 8,
        MetricKey::MemoryUnifiedUsedBytes => 9,
        MetricKey::MemoryBudgetBytes => 10,
        MetricKey::MemoryBandwidthUtilizationPercent => 11,
        MetricKey::TemperatureCoreCelsius => 12,
        MetricKey::TemperatureEdgeCelsius => 13,
        MetricKey::TemperatureHotspotCelsius => 14,
        MetricKey::TemperatureMemoryCelsius => 15,
        MetricKey::PowerDrawWatts => 16,
        MetricKey::PowerLimitWatts => 17,
        MetricKey::PowerEnergyJoules => 18,
        MetricKey::ClockGraphicsMhz => 19,
        MetricKey::ClockComputeMhz => 20,
        MetricKey::ClockMemoryMhz => 21,
        MetricKey::ClockVideoMhz => 22,
        MetricKey::FanPercent => 23,
        MetricKey::FanRpm => 24,
        MetricKey::Processes => 25,
    }
}

impl MetricKey {
    /// The place of the metric in the list of all metrics.
    pub fn place(self) -> (place: u8)
        ensures
            place == metric_place(self),
    {
        match self {
            MetricKey::UtilizationOverall => 0,
            MetricKey::UtilizationGraphics => 1,
            MetricKey::UtilizationCompute => 2,
            MetricKey::UtilizationCopy => 3,
            MetricKey::UtilizationMemoryController => 4,
            MetricKey::UtilizationEncoder => 5,
            MetricKey::UtilizationDecoder => 6,
            MetricKey::MemoryDedicatedUsedBytes => 7,
            MetricKey::MemorySharedUsedBytes => 8,
            MetricKey::MemoryUnifiedUsedBytes => 9,
            MetricKey::MemoryBudgetBytes => 10,
            MetricKey::MemoryBandwidthUtilizationPercent => 11,
            MetricKey::TemperatureCoreCelsius => 12,
            MetricKey::TemperatureEdgeCelsius => 13,
            MetricKey::TemperatureHotspotCelsius => 14,
            MetricKey::TemperatureMemoryCelsius => 15,
            MetricKey::PowerDrawWatts => 16,
            MetricKey::PowerLimitWatts => 17,
            MetricKey::PowerEnergyJoules => 18,
            MetricKey::ClockGraphicsMhz => 19,
            MetricKey::ClockComputeMhz => 20,
            MetricKey::ClockMemoryMhz => 21,
            MetricKey::ClockVideoMhz => 22,
            MetricKey::FanPercent => 23,
            MetricKey::FanRpm => 24,
            MetricKey::Processes => 25,
        }
    }

    /// The metric at a place in the list of all metrics.
    pub fn at(place: u8) -> (metric: MetricKey)
        requires
            place < 26,
        ensures
            metric_place(metric) == place,
    {
        match place {
            0 => MetricKey::UtilizationOverall,
            1 => MetricKey::UtilizationGraphics,
            2 => MetricKey::UtilizationCompute,
            3 => MetricKey::UtilizationCopy,
            4 => MetricKey::UtilizationMemoryController,
            5 => MetricKey::UtilizationEncoder,
            6 => MetricKey::UtilizationDecoder,
            7 => MetricKey::MemoryDedicatedUsedBytes,
            8 => MetricKey::MemorySharedUsedBytes,
            9 => MetricKey::MemoryUnifiedUsedBytes,
            10 => MetricKey::MemoryBudgetBytes,
            11 => MetricKey::MemoryBandwidthUtilizationPercent,
            12 => MetricKey::TemperatureCoreCelsius,
            13 => MetricKey::TemperatureEdgeCelsius,
            14 => MetricKey::TemperatureHotspotCelsius,
            15 => MetricKey::TemperatureMemoryCelsius,
            16 => MetricKey::PowerDrawWatts,
            17 => MetricKey::PowerLimitWatts,
            18 => MetricKey::PowerEnergyJoules,
            19 => MetricKey::ClockGraphicsMhz,
            20 => MetricKey::ClockComputeMhz,
            21 => MetricKey::ClockMemoryMhz,
            22 => MetricKey::ClockVideoMhz,
            23 => MetricKey::FanPercent,
            24 => MetricKey::FanRpm,
            _ => MetricKey::Processes,
        }
    }

    /// Every metric that has a numeric value, in order.
    pub fn all() -> (metrics: Vec<MetricKey>)
        ensures
            metrics@.len() == 25,
            forall|i: int| 0 <= i < 25 ==> metric_place(#[trigger] metrics@[i]) == i,
    {
        vec![
            MetricKey::UtilizationOverall,
            MetricKey::UtilizationGraphics,
            MetricKey::UtilizationCompute,
            MetricKey::UtilizationCopy,
            MetricKey::UtilizationMemoryController,
            MetricKey::UtilizationEncoder,
            MetricKey::UtilizationDecoder,
            MetricKey::MemoryDedicatedUsedBytes,
            MetricKey::MemorySharedUsedBytes,
            MetricKey::MemoryUnifiedUsedBytes,
            MetricKey::MemoryBudgetBytes,
            MetricKey::MemoryBandwidthUtilizationPercent,
            MetricKey::TemperatureCoreCelsius,
            MetricKey::TemperatureEdgeCelsius,
            MetricKey::TemperatureHotspotCelsius,
            MetricKey::TemperatureMemoryCelsius,
            MetricKey::PowerDrawWatts,
            MetricKey::PowerLimitWatts,
            MetricKey::PowerEnergyJoules,
            MetricKey::ClockGraphicsMhz,
            MetricKey::ClockComputeMhz,
            MetricKey::ClockMemoryMhz,
            MetricKey::ClockVideoMhz,
            MetricKey::FanPercent,
            MetricKey::FanRpm,
        ]
    }
}

impl Ordered for MetricKey {
    type Model = MetricKey;

    open spec fn model(&self) -> MetricKey {
        *self
    }

    open spec fn less(a: MetricKey, b: MetricKey) -> bool {
        metric_place(a) < metric_place(b)
    }

    proof fn less_irreflexive(a: MetricKey) {
    }

    proof fn less_transitive(a: MetricKey, b: MetricKey, c: MetricKey) {
    }

    proof fn less_total(a: MetricKey, b: MetricKey) {
    }

    fn relation(&self, other: &Self) -> (relation: Relation) {
        let a: u8 = self.place();
        let b: u8 = other.place();
        if a < b {
            Relation::Before
        } else if a > b {
            Relation::After
        } else {
            Relation::Same
        }
    }
}

impl Duplicate for MetricKey {
    fn duplicate(&self) -> (copy: Self) {
        *self
    }
}

#[derive(Debug, Clone, Copy, PartialEq, Eq, Structural)]
pub enum MetricQuality {
    Direct,
    Derived,
    Estimated,
}

/// How much a quality counts when sources are compared.
pub open spec fn quality_score(quality: MetricQuality) -> i64 {
    match quality {
        MetricQuality::Direct => 300,
        MetricQuality::Derived => 200,
        MetricQuality::Estimated => 100,
    }
}

impl MetricQuality {
    pub fn score(self) -> (score: i64)
        ensures
            score == quality_score(self),
    {
        match self {
            MetricQuality::Direct => 300,
            MetricQuality::Derived => 200,
            MetricQuality::Estimated => 100,
        }
    }
}

#[derive(Debug, Clone, Copy, PartialEq, Eq, Structural)]
pub enum UnavailableReason {
    Unsupported,
    DriverLibraryMissing,
    PermissionDenied,
    DeviceLost,
    FirstSample,
    TemporarilyUnavailable,
    ProviderError,
}

impl UnavailableReason {
    pub open spec fn name(self) -> Seq<char> {
        match self {
            UnavailableReason::Unsupported => "Unsupported"@,
            UnavailableReason::DriverLibraryMissing => "DriverLibraryMissing"@,
            UnavailableReason::PermissionDenied => "PermissionDenied"@,
            UnavailableReason::DeviceLost => "DeviceLost"@,
            UnavailableReason::FirstSample => "FirstSample"@,
            UnavailableReason::TemporarilyUnavailable => "TemporarilyUnavailable"@,
            UnavailableReason::ProviderError => "ProviderError"@,
        }
    }

    /// The name of the reason.
    pub fn text(self) -> (text: &'static str)
        ensures
            text@ == self.name(),
    {
        match self {
            UnavailableReason::Unsupported => "Unsupported",
            UnavailableReason::DriverLibraryMissing => "DriverLibraryMissing",
            UnavailableReason::PermissionDenied => "PermissionDenied",
            UnavailableReason::DeviceLost => "DeviceLost",
            UnavailableReason::FirstSample => "FirstSample",
            UnavailableReason::TemporarilyUnavailable => "TemporarilyUnavailable",
            UnavailableReason::ProviderError => "ProviderError",
        }
    }
}

#[derive(Debug)]
pub enum MetricValue {
    Number(Binary64),
    Integer(u64),
    Boolean(bool),
    Text(String),
}

/// A value in double precision, where it is a number.
pub open spec fn numeric(value: MetricValue) -> Option<Binary64> {
    match value {
        MetricValue::Number(number) => Some(number),
        MetricValue::Integer(n) => Some(Binary64 { bits: nearest_bits(n as nat) as u64 }),
        MetricValue::Boolean(flag) => None,
        MetricValue::Text(text) => None,
    }
}

impl MetricValue {
    pub fn as_f64(&self) -> (value: Option<Binary64>)
        ensures
            value == numeric(*self),
    {
        match self {
            MetricValue::Number(number) => Some(*number),
            MetricValue::Integer(n) => Some(Binary64::from_u64(*n)),
            MetricValue::Boolean(flag) => None,
            MetricValue::Text(text) => None,
        }
    }
}

impl Clone for MetricValue {
    fn clone(&self) -> (copy: Self)
        ensures
            copy == *self,
    {
        match self {
            MetricValue::Number(number) => MetricValue::Number(*number),
            MetricValue::Integer(n) => MetricValue::Integer(*n),
            MetricValue::Boolean(flag) => MetricValue::Boolean(*flag),
            MetricValue::Text(text) => MetricValue::Text(text.clone()),
        }
    }
}

#[derive(Debug)]
pub struct MetricObservation {
    pub device_id: DeviceId,
    pub metric: MetricKey,
    pub value: MetricValue,
    pub source: ProviderId,
    pub quality: MetricQuality,
    pub sampled_at: TimestampMs,
    pub interval_ms: Option<u64>,
    pub definition: Option<String>,
}

impl Clone for MetricObservation {
    fn clone(&self) -> (copy: Self)
        ensures
            copy == *self,
    {
        MetricObservation {
            device_id: self.device_id.clone(),
            metric: self.metric,
            value: self.value.clone(),
            source: self.source.clone(),
            quality: self.quality,
            sampled_at: self.sampled_at,
            interval_ms: self.interval_ms,
            definition: self.definition.clone(),
        }
    }
}

#[derive(Debug)]
pub struct UnavailableObservation {
    pub device_id: DeviceId,
    pub metric: MetricKey,
    pub reason: UnavailableReason,
    pub source: Option<ProviderId>,
    pub message: Option<String>,
}

impl Clone for UnavailableObservation {
    fn clone(&self) -> (copy: Self)
        ensures
            copy == *self,
    {
        UnavailableObservation {
            device_id: self.device_id.clone(),
            metric: self.metric,
            reason: self.reason,
            source: self.source.clone(),
            message: self.message.clone(),
        }
    }
}

#[derive(Debug)]
pub struct AvailableMetric<T> {
    pub available: bool,
    pub value: T,
    pub source: ProviderId,
    pub quality: MetricQuality,
    pub sampled_at: TimestampMs,
    pub interval_ms: Option<u64>,
    pub definition: Option<String>,
}

#[derive(Debug)]
pub struct UnavailableMetric {
    pub available: bool,
    pub reason: UnavailableReason,
    pub source: Option<ProviderId>,
    pub message: Option<String>,
}

#[derive(Debug)]
pub enum Metric<T> {
    Available(AvailableMetric<T>),
    Unavailable(UnavailableMetric),
}

impl<T> Metric<T> {
    pub fn available(
        value: T,
        source: ProviderId,
        quality: MetricQuality,
        sampled_at: TimestampMs,
        interval_ms: Option<u64>,
        definition: Option<String>,
    ) -> (metric: Self)
        ensures
            metric == Metric::Available(
                AvailableMetric {
                    available: true,
                    value,
                    source,
                    quality,
                    sampled_at,
                    interval_ms,
                    definition,
                },
            ),
    {
        Metric::Available(
            AvailableMetric {
                available: true,
                value,
                source,
                quality,
                sampled_at,
                interval_ms,
                definition,
            },
        )
    }

    pub fn unavailable(
        reason: UnavailableReason,
        source: Option<ProviderId>,
        message: Option<String>,
    ) -> (metric: Self)
        ensures
            metric == Metric::<T>::Unavailable(
                UnavailableMetric { available: false, reason, source, message },
            ),
    {
        Metric::Unavailable(UnavailableMetric { available: false, reason, source, message })
    }

    pub fn is_available(&self) -> (available: bool)
        ensures
            available == (self is Available),
    {
        matches!(self, Metric::Available(_))
    }
}

impl Clone for Metric<Binary64> {
    fn clone(&self) -> (copy: Self)
        ensures
            copy == *self,
    {
        match self {
            Metric::Available(metric) => Metric::Available(
                AvailableMetric {
                    available: metric.available,
                    value: metric.value,
                    source: metric.source.clone(),
                    quality: metric.quality,
                    sampled_at: metric.sampled_at,
                    interval_ms: metric.interval_ms,
                    definition: metric.definition.clone(),
                },
            ),
            Metric::Unavailable(metric) => Metric::Unavailable(
                UnavailableMetric {
                    available: metric.available,
                    reason: metric.reason,
                    source: metric.source.clone(),
                    message: metric.message.clone(),
                },
            ),
        }
    }
}

/// The metrics and vendor extensions that a device or a provider offers.
pub struct CapabilitySet {
    pub metrics: SortedSet<MetricKey>,
    pub vendor_extensions: SortedSet<String>,
}

impl Default for CapabilitySet {
    fn default() -> (set: Self)
        ensures
            set.metric_set() == Set::<MetricKey>::empty(),
            set.vendor_extensions@ == Set::<Seq<char>>::empty(),
    {
        CapabilitySet { metrics: SortedSet::new(), vendor_extensions: SortedSet::new() }
    }
}

impl CapabilitySet {
    /// The metrics as a set.
    pub open spec fn metric_set(&self) -> Set<MetricKey> {
        self.metrics@
    }

    pub fn new(metrics: Vec<MetricKey>) -> (set: Self)
        ensures
            set.metric_set() == metrics@.to_set(),
            set.vendor_extensions@ == Set::<Seq<char>>::empty(),
    {
        let mut set = CapabilitySet::default();
        let mut i: usize = 0;
        while i < metrics.len()
            invariant
                i <= metrics.len(),
                set.metric_set() == metrics@.take(i as int).to_set(),
                set.vendor_extensions@ == Set::<Seq<char>>::empty(),
            decreases metrics.len() - i,
        {
            set.insert(metrics[i]);
            i = i + 1;
            proof {
                let seen = metrics@.take(i - 1);
                assert(metrics@.take(i as int) == seen.push(metrics@[i - 1]));
                seen.lemma_push_to_set_commute(metrics@[i - 1]);
            }
        }
        assert(metrics@.take(i as int) == metrics@);
        set
    }

    pub fn with_extension(self, extension: &str) -> (set: Self)
        ensures
            set.metric_set() == self.metric_set(),
            set.vendor_extensions@ == self.vendor_extensions@.insert(extension@),
    {
        let CapabilitySet { metrics, mut vendor_extensions } = self;
        vendor_extensions.insert(owned(extension));
        CapabilitySet { metrics, vendor_extensions }
    }

    pub fn insert(&mut self, metric: MetricKey)
        ensures
            final(self).metric_set() == old(self).metric_set().insert(metric),
            final(self).vendor_extensions@ == old(self).vendor_extensions@,
    {
        self.metrics.insert(metric);
    }

    pub fn supports(&self, metric: MetricKey) -> (supported: bool)
        ensures
            supported == self.metric_set().contains(metric),
    {
        self.metrics.contains(&metric)
    }

    /// No metric is offered.
    pub fn is_empty(&self) -> (empty: bool)
        ensures
            empty == (self.metric_set() == Set::<MetricKey>::empty()),
    {
        let n: usize = self.metrics.len();
        proof {
            let members = self.metrics.members();
            if n > 0 {
                assert(members.contains(members[0]));
                assert(self.metric_set().contains(members[0]));
            } else {
                assert forall|k: MetricKey| !self.metric_set().contains(k) by {
                    assert(!members.contains(k));
                }
                assert(self.metric_set() == Set::<MetricKey>::empty());
            }
        }
        n == 0
    }

    /// The metrics in order.
    pub fn metrics(&self) -> (metrics: Vec<MetricKey>)
        ensures
            lists_keys::<MetricKey>(metrics@, self.metric_set()),
    {
        let mut metrics: Vec<MetricKey> = Vec::new();
        let n: usize = self.metrics.len();
        let mut i: usize = 0;
        while i < n
            invariant
                i <= n == self.metrics.members().len(),
                metrics@ == self.metrics.members().take(i as int),
            decreases n - i,
        {
            metrics.push(*self.metrics.at(i));
            i = i + 1;
        }
        assert(metrics@ == self.metrics.members());
        metrics
    }

    pub fn extend(&mut self, other: &Self)
        ensures
            final(self).metric_set() == old(self).metric_set().union(other.metric_set()),
            final(self).vendor_extensions@ == old(self).vendor_extensions@.union(
                other.vendor_extensions@,
            ),
    {
        self.metrics.extend(&other.metrics);
        self.vendor_extensions.extend(&other.vendor_extensions);
    }

    /// A set with the same members.
    pub fn duplicate(&self) -> (copy: Self)
        ensures
            copy.metric_set() == self.metric_set(),
            copy.vendor_extensions@ == self.vendor_extensions@,
    {
        CapabilitySet {
            metrics: self.metrics.duplicate(),
            vendor_extensions: self.vendor_extensions.duplicate(),
        }
    }

    pub fn to_public(&self) -> (public: GpuCapabilities)
        ensures
            public.shows(self),
    {
        let temperature = self.supports(MetricKey::TemperatureCoreCelsius) || self.supports(
            MetricKey::TemperatureEdgeCelsius,
        ) || self.supports(MetricKey::TemperatureHotspotCelsius) || self.supports(
            MetricKey::TemperatureMemoryCelsius,
        );
        let power = self.supports(MetricKey::PowerDrawWatts) || self.supports(
            MetricKey::PowerLimitWatts,
        ) || self.supports(MetricKey::PowerEnergyJoules);
        let clocks = self.supports(MetricKey::ClockGraphicsMhz) || self.supports(
            MetricKey::ClockComputeMhz,
        ) || self.supports(MetricKey::ClockMemoryMhz) || self.supports(MetricKey::ClockVideoMhz);
        let fan = self.supports(MetricKey::FanPercent) || self.supports(MetricKey::FanRpm);
        GpuCapabilities {
            metrics: self.metrics(),
            utilization: UtilizationCapabilities {
                overall: self.supports(MetricKey::UtilizationOverall),
                graphics: self.supports(MetricKey::UtilizationGraphics),
                compute: self.supports(MetricKey::UtilizationCompute),
                copy: self.supports(MetricKey::UtilizationCopy),
                memory_controller: self.supports(MetricKey::UtilizationMemoryController),
                encoder: self.supports(MetricKey::UtilizationEncoder),
                decoder: self.supports(MetricKey::UtilizationDecoder),
            },
            temperature,
            power,
            clocks,
            fan,
            processes: self.supports(MetricKey::Processes),
            vendor_extensions: sorted_texts(&self.vendor_extensions),
        }
    }
}

/// The views of a list of texts.
pub open spec fn text_views(texts: Seq<String>) -> Seq<Seq<char>> {
    texts.map_values(|text: String| text@)
}

/// The members of a set of texts in ascending order.
pub fn sorted_texts(set: &SortedSet<String>) -> (texts: Vec<String>)
    ensures
        lists_keys::<String>(text_views(texts@), set@),
{
    let mut texts: Vec<String> = Vec::new();
    let n: usize = set.len();
    let mut i: usize = 0;
    while i < n
        invariant
            i <= n == set.members().len(),
            text_views(texts@) == set.members().take(i as int),
        decreases n - i,
    {
        let ghost before = text_views(texts@);
        texts.push(set.at(i).clone());
        i = i + 1;
        assert(text_views(texts@) == before.push(set.members()[i - 1]));
    }
    assert(text_views(texts@) == set.members());
    texts
}

#[derive(Debug, Clone, Copy, PartialEq, Eq, Structural)]
pub struct UtilizationCapabilities {
    pub overall: bool,
    pub graphics: bool,
    pub compute: bool,
    pub copy: bool,
    pub memory_controller: bool,
    pub encoder: bool,
    pub decoder: bool,
}

#[derive(Debug)]
pub struct GpuCapabilities {
    pub metrics: Vec<MetricKey>,
    pub utilization: UtilizationCapabilities,
    pub temperature: bool,
    pub power: bool,
    pub clocks: bool,
    pub fan: bool,
    pub processes: bool,
    pub vendor_extensions: Vec<String>,
}

impl GpuCapabilities {
    /// The public form of a set of capabilities.
    pub open spec fn shows(&self, set: &CapabilitySet) -> bool {
        let has = |metric: MetricKey| set.metric_set().contains(metric);
        &&& lists_keys::<MetricKey>(self.metrics@, set.metric_set())
        &&& self.utilization == UtilizationCapabilities {
            overall: has(MetricKey::UtilizationOverall),
            graphics: has(MetricKey::UtilizationGraphics),
            compute: has(MetricKey::UtilizationCompute),
            copy: has(MetricKey::UtilizationCopy),
            memory_controller: has(MetricKey::UtilizationMemoryController),
            encoder: has(MetricKey::UtilizationEncoder),
            decoder: has(MetricKey::UtilizationDecoder),
        }
        &&& self.temperature == (has(MetricKey::TemperatureCoreCelsius) || has(
            MetricKey::TemperatureEdgeCelsius,
        ) || has(MetricKey::TemperatureHotspotCelsius) || has(MetricKey::TemperatureMemoryCelsius))
        &&& self.power == (has(MetricKey::PowerDrawWatts) || has(MetricKey::PowerLimitWatts) || has(
            MetricKey::PowerEnergyJoules,
        ))
        &&& self.clocks == (has(MetricKey::ClockGraphicsMhz) || has(MetricKey::ClockComputeMhz)
            || has(MetricKey::ClockMemoryMhz) || has(MetricKey::ClockVideoMhz))
        &&& self.fan == (has(MetricKey::FanPercent) || has(MetricKey::FanRpm))
        &&& self.processes == has(MetricKey::Processes)
        &&& lists_keys::<String>(text_views(self.vendor_extensions@), set.vendor_extensions@)
    }
}

/// One provider's account of one device.
pub struct DeviceObservation {
    pub provider: ProviderId,
    pub provider_device_id: String,
    pub observed_at: TimestampMs,
    pub vendor: GpuVendor,
    pub name: String,
    pub architecture: Option<String>,
    pub driver_version: Option<String>,
    pub firmware_version: Option<String>,
    pub kind: GpuKind,
    pub uuid: Option<String>,
    pub pci: Option<PciIdentity>,
    pub windows: Option<WindowsIdentity>,
    pub macos: Option<MacosIdentity>,
    pub parent_provider_device_id: Option<String>,
    pub partition: Option<PartitionIdentity>,
    pub memory: StaticMemoryInfo,
    pub capabilities: CapabilitySet,
    pub identity_priority: i16,
    pub enumeration_ordinal: Option<u32>,
    pub vendor_info: JsonMap,
}

impl DeviceObservation {
    pub fn new(
        provider: &str,
        provider_device_id: &str,
        vendor: GpuVendor,
        name: &str,
    ) -> (observation: Self)
        ensures
            observation.is_bare(provider@, provider_device_id@, vendor, name@),
    {
        DeviceObservation {
            provider: owned(provider),
            provider_device_id: owned(provider_device_id),
            observed_at: now_millis(),
            vendor,
            name: owned(name),
            architecture: None,
            driver_version: None,
            firmware_version: None,
            kind: GpuKind::Unknown,
            uuid: None,
            pci: None,
            windows: None,
            macos: None,
            parent_provider_device_id: None,
            partition: None,
            memory: StaticMemoryInfo::default(),
            capabilities: CapabilitySet::default(),
            identity_priority: 0,
            enumeration_ordinal: None,
            vendor_info: SortedMap::new(),
        }
    }

    /// An observation that says no more than what was seen by whom.
    pub open spec fn is_bare(
        &self,
        provider: Seq<char>,
        provider_device_id: Seq<char>,
        vendor: GpuVendor,
        name: Seq<char>,
    ) -> bool {
        &&& self.provider@ == provider
        &&& self.provider_device_id@ == provider_device_id
        &&& self.vendor == vendor
        &&& self.name@ == name
        &&& self.architecture is None
        &&& self.driver_version is None
        &&& self.firmware_version is None
        &&& self.kind == GpuKind::Unknown
        &&& self.uuid is None
        &&& self.pci is None
        &&& self.windows is None
        &&& self.macos is None
        &&& self.parent_provider_device_id is None
        &&& self.partition is None
        &&& self.memory == StaticMemoryInfo {
            topology: MemoryTopology::Unknown,
            dedicated_total_bytes: None,
            shared_total_bytes: None,
            unified_total_bytes: None,
        }
        &&& self.capabilities.metric_set() == Set::<MetricKey>::empty()
        &&& self.capabilities.vendor_extensions@ == Set::<Seq<char>>::empty()
        &&& self.identity_priority == 0
        &&& self.enumeration_ordinal is None
        &&& self.vendor_info@ == Map::<Seq<char>, crate::json::Json>::empty()
    }
}

impl DeviceObservation {
    /// Two observations say the same.
    pub open spec fn says_same(&self, other: &DeviceObservation) -> bool {
        &&& self.provider == other.provider
        &&& self.provider_device_id == other.provider_device_id
        &&& self.observed_at == other.observed_at
        &&& self.vendor == other.vendor
        &&& self.name == other.name
        &&& self.architecture == other.architecture
        &&& self.driver_version == other.driver_version
        &&& self.firmware_version == other.firmware_version
        &&& self.kind == other.kind
        &&& self.uuid == other.uuid
        &&& self.pci == other.pci
        &&& self.windows == other.windows
        &&& self.macos == other.macos
        &&& self.parent_provider_device_id == other.parent_provider_device_id
        &&& self.partition == other.partition
        &&& self.memory == other.memory
        &&& self.capabilities.metric_set() == other.capabilities.metric_set()
        &&& self.capabilities.vendor_extensions@ == other.capabilities.vendor_extensions@
        &&& self.identity_priority == other.identity_priority
        &&& self.enumeration_ordinal == other.enumeration_ordinal
        &&& json_models(self.vendor_info@) == json_models(other.vendor_info@)
    }

    /// An observation that says the same.
    pub fn duplicate(&self) -> (copy: DeviceObservation)
        ensures
            copy.says_same(self),
    {
        DeviceObservation {
            provider: self.provider.clone(),
            provider_device_id: self.provider_device_id.clone(),
            observed_at: self.observed_at,
            vendor: self.vendor,
            name: self.name.clone(),
            architecture: self.architecture.clone(),
            driver_version: self.driver_version.clone(),
            firmware_version: self.firmware_version.clone(),
            kind: self.kind,
            uuid: self.uuid.clone(),
            pci: self.pci.clone(),
            windows: self.windows.clone(),
            macos: self.macos.clone(),
            parent_provider_device_id: self.parent_provider_device_id.clone(),
            partition: self.partition.clone(),
            memory: self.memory,
            capabilities: self.capabilities.duplicate(),
            identity_priority: self.identity_priority,
            enumeration_ordinal: self.enumeration_ordinal,
            vendor_info: copy_json_map(&self.vendor_info),
        }
    }
}

/// A device as the monitor presents it, put together from all its observations.
pub struct CanonicalGpu {
    pub identity: GpuIdentity,
    pub capabilities: GpuCapabilities,
    pub memory: StaticMemoryInfo,
    pub providers: Vec<String>,
    pub vendor_info: JsonMap,
    pub capability_set: CapabilitySet,
    pub provider_device_ids: SortedMap<String, String>,
}

/// What is asked of a sample.
pub struct SampleRequest {
    pub window_ms: u64,
    /// The wanted metrics; every metric where there is no set.
    pub metrics: Option<SortedSet<MetricKey>>,
    pub include_processes: bool,
}

impl Default for SampleRequest {
    fn default() -> (request: Self)
        ensures
            request == (SampleRequest { window_ms: 1_000, metrics: None, include_processes: false }),
    {
        SampleRequest { window_ms: 1_000, metrics: None, include_processes: false }
    }
}

impl SampleRequest {
    /// The request asks for `metric`.
    pub open spec fn asks_for(&self, metric: MetricKey) -> bool {
        match self.metrics {
            None => true,
            Some(metrics) => metrics@.contains(metric),
        }
    }

    pub fn wants(&self, metric: MetricKey) -> (wanted: bool)
        ensures
            wanted == self.asks_for(metric),
    {
        match &self.metrics {
            None => true,
            Some(metrics) => metrics.contains(&metric),
        }
    }
}

/// What one provider says of one device at one time.
#[derive(Debug)]
pub struct ProviderSample {
    pub metrics: Vec<MetricObservation>,
    pub unavailable: Vec<UnavailableObservation>,
    /// An empty list means that a supported process query succeeded and found no processes; none
    /// means that the provider did not supply process data.
    pub processes: Option<Vec<GpuProcessSnapshot>>,
}

impl Default for ProviderSample {
    fn default() -> (sample: Self)
        ensures
            sample.metrics@.len() == 0,
            sample.unavailable@.len() == 0,
            sample.processes is None,
    {
        ProviderSample { metrics: Vec::new(), unavailable: Vec::new(), processes: None }
    }
}

impl ProviderSample {
    /// Two samples say the same.
    pub open spec fn says_same(&self, other: &ProviderSample) -> bool {
        &&& self.metrics@ == other.metrics@
        &&& self.unavailable@ == other.unavailable@
        &&& match (self.processes, other.processes) {
            (Some(a), Some(b)) => a@ == b@,
            (None, None) => true,
            _ => false,
        }
    }

    /// A sample that says the same.
    pub fn duplicate(&self) -> (copy: ProviderSample)
        ensures
            copy.says_same(self),
    {
        let mut metrics: Vec<MetricObservation> = Vec::new();
        let mut i: usize = 0;
        while i < self.metrics.len()
            invariant
                i <= self.metrics.len(),
                metrics@ == self.metrics@.take(i as int),
            decreases self.metrics.len() - i,
        {
            metrics.push(self.metrics[i].clone());
            i = i + 1;
            assert(metrics@ == self.metrics@.take(i as int));
        }
        assert(metrics@ == self.metrics@);
        let mut unavailable: Vec<UnavailableObservation> = Vec::new();
        let mut i: usize = 0;
        while i < self.unavailable.len()
            invariant
                i <= self.unavailable.len(),
                unavailable@ == self.unavailable@.take(i as int),
            decreases self.unavailable.len() - i,
        {
            unavailable.push(self.unavailable[i].clone());
            i = i + 1;
            assert(unavailable@ == self.unavailable@.take(i as int));
        }
        assert(unavailable@ == self.unavailable@);
        ProviderSample {
            metrics,
            unavailable,
            processes: match &self.processes {
                Some(list) => Some(crate::snapshot::copy_processes(list)),
                None => None,
            },
        }
    }
}

#[derive(Debug)]
pub struct GpuProcessSnapshot {
    pub pid: u32,
    pub name: Option<String>,
    pub memory_used_bytes: Option<Metric<Binary64>>,
    pub utilization: Option<ProcessUtilization>,
}

impl Clone for GpuProcessSnapshot {
    fn clone(&self) -> (copy: Self)
        ensures
            copy == *self,
    {
        GpuProcessSnapshot {
            pid: self.pid,
            name: self.name.clone(),
            memory_used_bytes: self.memory_used_bytes.clone(),
            utilization: self.utilization.clone(),
        }
    }
}

#[derive(Debug)]
pub struct ProcessUtilization {
    pub overall: Option<Metric<Binary64>>,
    pub graphics: Option<Metric<Binary64>>,
    pub compute: Option<Metric<Binary64>>,
    pub encoder: Option<Metric<Binary64>>,
    pub decoder: Option<Metric<Binary64>>,
}

impl Default for ProcessUtilization {
    fn default() -> (utilization: Self)
        ensures
            utilization == (ProcessUtilization {
                overall: None,
                graphics: None,
                compute: None,
                encoder: None,
                decoder: None,
            }),
    {
        ProcessUtilization {
            overall: None,
            graphics: None,
            compute: None,
            encoder: None,
            decoder: None,
        }
    }
}

impl Clone for ProcessUtilization {
    fn clone(&self) -> (copy: Self)
        ensures
            copy == *self,
    {
        ProcessUtilization {
            overall: self.overall.clone(),
            graphics: self.graphics.clone(),
            compute: self.compute.clone(),
            encoder: self.encoder.clone(),
            decoder: self.decoder.clone(),
        }
    }
}

#[derive(Debug)]
pub struct ProviderDiagnostic {
    pub id: ProviderId,
    pub loaded: bool,
    pub version: Option<String>,
    pub devices_matched: usize,
    pub reason: Option<UnavailableReason>,
    pub message: Option<String>,
}

impl Clone for ProviderDiagnostic {
    fn clone(&self) -> (copy: Self)
        ensures
            copy == *self,
    {
        ProviderDiagnostic {
            id: self.id.clone(),
            loaded: self.loaded,
            version: self.version.clone(),
            devices_matched: self.devices_matched,
            reason: self.reason,
            message: self.message.clone(),
        }
    }
}

#[derive(Debug)]
pub struct Diagnostics {
    pub platform: String,
    pub arch: String,
    pub providers: Vec<ProviderDiagnostic>,
    pub warnings: Vec<String>,
    pub metric_selections: Vec<DeviceMergeDiagnostics>,
}

#[derive(Debug)]
pub struct MergeCandidateDiagnostic {
    pub source: ProviderId,
    pub score: i64,
    pub selected: bool,
    pub quality: MetricQuality,
    pub sampled_at: TimestampMs,
}

impl Clone for MergeCandidateDiagnostic {
    fn clone(&self) -> (copy: Self)
        ensures
            copy == *self,
    {
        MergeCandidateDiagnostic {
            source: self.source.clone(),
            score: self.score,
            selected: self.selected,
            quality: self.quality,
            sampled_at: self.sampled_at,
        }
    }
}

#[derive(Debug)]
pub struct MetricMergeDiagnostic {
    pub metric: MetricKey,
    pub candidates: Vec<MergeCandidateDiagnostic>,
}

#[derive(Debug)]
pub struct DeviceMergeDiagnostics {
    pub device_id: DeviceId,
    pub metrics: Vec<MetricMergeDiagnostic>,
}

} // verus!
