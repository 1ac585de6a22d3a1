//! Which NVIDIA devices there are, and the state of their provider.
use crate::json::{
    insert_entry, is_object_of, json_models, object_of, unsigned_number, with_entry, Json,
    JsonModel, JsonNumber,
};
use crate::merge::{absences, text_view, values};
use crate::model::{
    pci_view, CanonicalGpu, CapabilitySet, DeviceObservation, GpuKind, GpuVendor, MemoryTopology,
    MetricKey, PciIdentity, PciModel, ProviderDiagnostic, ProviderSample, SampleRequest,
    StaticMemoryInfo, TimestampMs, UnavailableReason,
};
use crate::provider::ProviderMetadata;
use crate::providers::nvml::{
    address_text, all_absences, average_fan_percentage, average_fan_reading, bounded_string,
    canonical_pci_address, failure_reason, fits_nvml, mean_percentage, mean_speed, nvml_absences,
    nvml_name, nvml_values, reported_function, reports_processes, sample_metrics,
    split_combined_pci_id, unavailable_for_all, unavailable_reason, FanReadings, NvmlFailure,
    NvmlReadings, MAX_INVENTORY_FAILURE_DETAILS, MAX_NVML_DEVICES,
};
use crate::providers::nvml_info::{
    add_static_vendor_info, dynamic_vendor_info, is_dynamic_info, with_static_info, DynamicFacts,
    StaticFacts,
};
use crate::sorted_map::{lists_keys, SortedMap};
use crate::text::{
    chars_of, decimal, decimal_text, enumerate_texts, enumerated, extend_text, joined, owned,
    string_of,
};
use vstd::prelude::*;

verus! {

/// The generations of devices.
#[derive(Clone, Copy, Debug, PartialEq, Eq, Structural)]
pub enum DeviceArchitecture {
    Kepler,
    Maxwell,
    Pascal,
    Volta,
    Turing,
    Ampere,
    Ada,
    Hopper,
    Blackwell,
    Unknown,
}

pub open spec fn generation_name(architecture: DeviceArchitecture) -> Option<Seq<char>> {
    match architecture {
        DeviceArchitecture::Kepler => Some("Kepler"@),
        DeviceArchitecture::Maxwell => Some("Maxwell"@),
        DeviceArchitecture::Pascal => Some("Pascal"@),
        DeviceArchitecture::Volta => Some("Volta"@),
        DeviceArchitecture::Turing => Some("Turing"@),
        DeviceArchitecture::Ampere => Some("Ampere"@),
        DeviceArchitecture::Ada => Some("Ada Lovelace"@),
        DeviceArchitecture::Hopper => Some("Hopper"@),
        DeviceArchitecture::Blackwell => Some("Blackwell"@),
        DeviceArchitecture::Unknown => None,
    }
}

pub fn architecture_name(architecture: DeviceArchitecture) -> (name: Option<&'static str>)
    ensures
        match name {
            Some(name) => generation_name(architecture) == Some(name@),
            None => generation_name(architecture) is None,
        },
{
    match architecture {
        DeviceArchitecture::Kepler => Some("Kepler"),
        DeviceArchitecture::Maxwell => Some("Maxwell"),
        DeviceArchitecture::Pascal => Some("Pascal"),
        DeviceArchitecture::Volta => Some("Volta"),
        DeviceArchitecture::Turing => Some("Turing"),
        DeviceArchitecture::Ampere => Some("Ampere"),
        DeviceArchitecture::Ada => Some("Ada Lovelace"),
        DeviceArchitecture::Hopper => Some("Hopper"),
        DeviceArchitecture::Blackwell => Some("Blackwell"),
        DeviceArchitecture::Unknown => None,
    }
}

/// Where a device sits on the PCI bus.
#[derive(Debug)]
pub struct NvmlPci {
    pub domain: u32,
    pub bus: u32,
    pub device: u32,
    pub bus_id: String,
    /// The device number in the high word, the vendor number in the low word.
    pub combined: u32,
    pub subsystem: Option<u32>,
}

/// Which queries a device answers.
#[derive(Debug)]
pub struct NvmlProbes {
    pub utilization: bool,
    pub encoder: bool,
    pub decoder: bool,
    pub temperature: bool,
    pub power: bool,
    pub limit: bool,
    pub energy: bool,
    pub graphics_clock: bool,
    pub sm_clock: bool,
    pub memory_clock: bool,
    pub video_clock: bool,
    pub fan_percent: FanReadings,
    pub fan_rpm: FanReadings,
    pub compute_processes: bool,
    pub graphics_processes: bool,
    /// What NVML says of a query that it does not support.
    pub unsupported: NvmlFailure,
}

/// What was queried of a device.
#[derive(Debug)]
pub struct NvmlDeviceFacts {
    pub uuid: Option<String>,
    pub pci: Option<NvmlPci>,
    pub name: Option<String>,
    pub memory_total: Option<u64>,
    pub architecture: Option<DeviceArchitecture>,
    pub vbios: Option<String>,
    pub probes: NvmlProbes,
    pub info: StaticFacts,
}

/// The identity of a device on the PCI bus.
pub open spec fn nvml_pci(pci: NvmlPci) -> PciModel {
    PciModel {
        address: Some(
            address_text(pci.domain, pci.bus, pci.device, reported_function(pci.bus_id@)),
        ),
        vendor_id: (pci.combined as int % 0x1_0000) as u32,
        device_id: (pci.combined as int / 0x1_0000) as u32,
        subsystem_vendor_id: match pci.subsystem {
            Some(id) => Some((id as int % 0x1_0000) as u32),
            None => None,
        },
        subsystem_device_id: match pci.subsystem {
            Some(id) => Some((id as int / 0x1_0000) as u32),
            None => None,
        },
    }
}

pub fn pci_identity(pci: &NvmlPci) -> (identity: PciIdentity)
    ensures
        pci_view(identity) == nvml_pci(*pci),
{
    let (vendor_id, device_id) = split_combined_pci_id(pci.combined);
    let (subsystem_vendor_id, subsystem_device_id) = match pci.subsystem {
        Some(id) => {
            let (vendor, device) = split_combined_pci_id(id);
            (Some(vendor), Some(device))
        },
        None => (None, None),
    };
    PciIdentity {
        address: Some(
            canonical_pci_address(pci.domain, pci.bus, pci.device, pci.bus_id.as_str()),
        ),
        vendor_id,
        device_id,
        subsystem_vendor_id,
        subsystem_device_id,
    }
}

/// A set with a member, where it belongs to it.
pub open spec fn set_if(set: Set<MetricKey>, flag: bool, key: MetricKey) -> Set<MetricKey> {
    if flag {
        set.insert(key)
    } else {
        set
    }
}

/// The metrics that a device offers.
pub open spec fn probed_metrics(probes: NvmlProbes, memory: bool) -> Set<MetricKey> {
    let set = Set::<MetricKey>::empty();
    let set = set_if(set, probes.utilization, MetricKey::UtilizationOverall);
    let set = set_if(set, probes.utilization, MetricKey::UtilizationMemoryController);
    let set = set_if(set, probes.encoder, MetricKey::UtilizationEncoder);
    let set = set_if(set, probes.decoder, MetricKey::UtilizationDecoder);
    let set = set_if(set, memory, MetricKey::MemoryDedicatedUsedBytes);
    let set = set_if(set, probes.temperature, MetricKey::TemperatureCoreCelsius);
    let set = set_if(set, probes.power, MetricKey::PowerDrawWatts);
    let set = set_if(set, probes.limit, MetricKey::PowerLimitWatts);
    let set = set_if(set, probes.energy, MetricKey::PowerEnergyJoules);
    let set = set_if(set, probes.graphics_clock, MetricKey::ClockGraphicsMhz);
    let set = set_if(set, probes.sm_clock, MetricKey::ClockComputeMhz);
    let set = set_if(set, probes.memory_clock, MetricKey::ClockMemoryMhz);
    let set = set_if(set, probes.video_clock, MetricKey::ClockVideoMhz);
    let set = set_if(
        set,
        mean_percentage(probes.fan_percent, probes.unsupported) is Ok,
        MetricKey::FanPercent,
    );
    let set = set_if(
        set,
        mean_speed(probes.fan_rpm, probes.unsupported) is Ok,
        MetricKey::FanRpm,
    );
    set_if(set, probes.compute_processes || probes.graphics_processes, MetricKey::Processes)
}

fn insert_if(capabilities: &mut CapabilitySet, flag: bool, key: MetricKey)
    ensures
        final(capabilities).metric_set() == set_if(old(capabilities).metric_set(), flag, key),
        final(capabilities).vendor_extensions@ == old(capabilities).vendor_extensions@,
{
    if flag {
        capabilities.insert(key);
    }
}

pub fn probe_capabilities(probes: &NvmlProbes, memory: bool) -> (capabilities: CapabilitySet)
    ensures
        capabilities.metric_set() == probed_metrics(*probes, memory),
        capabilities.vendor_extensions@ == Set::<Seq<char>>::empty(),
{
    let mut set = CapabilitySet::default();
    insert_if(&mut set, probes.utilization, MetricKey::UtilizationOverall);
    insert_if(&mut set, probes.utilization, MetricKey::UtilizationMemoryController);
    insert_if(&mut set, probes.encoder, MetricKey::UtilizationEncoder);
    insert_if(&mut set, probes.decoder, MetricKey::UtilizationDecoder);
    insert_if(&mut set, memory, MetricKey::MemoryDedicatedUsedBytes);
    insert_if(&mut set, probes.temperature, MetricKey::TemperatureCoreCelsius);
    insert_if(&mut set, probes.power, MetricKey::PowerDrawWatts);
    insert_if(&mut set, probes.limit, MetricKey::PowerLimitWatts);
    insert_if(&mut set, probes.energy, MetricKey::PowerEnergyJoules);
    insert_if(&mut set, probes.graphics_clock, MetricKey::ClockGraphicsMhz);
    insert_if(&mut set, probes.sm_clock, MetricKey::ClockComputeMhz);
    insert_if(&mut set, probes.memory_clock, MetricKey::ClockMemoryMhz);
    insert_if(&mut set, probes.video_clock, MetricKey::ClockVideoMhz);
    let percent = average_fan_percentage(&probes.fan_percent, &probes.unsupported);
    insert_if(&mut set, percent.is_ok(), MetricKey::FanPercent);
    let rpm = average_fan_reading(&probes.fan_rpm, &probes.unsupported);
    insert_if(&mut set, rpm.is_ok(), MetricKey::FanRpm);
    insert_if(
        &mut set,
        probes.compute_processes || probes.graphics_processes,
        MetricKey::Processes,
    );
    set
}

/// A text of the driver, unless it is missing or too long.
pub open spec fn bounded(text: Option<String>) -> Option<Seq<char>> {
    match text {
        Some(text) => if fits_nvml(text@) {
            Some(text@)
        } else {
            None
        },
        None => None,
    }
}

fn keep_bounded(text: &Option<String>) -> (kept: Option<String>)
    ensures
        text_view(kept) == bounded(*text),
{
    match text {
        Some(text) => bounded_string(text.clone()),
        None => None,
    }
}

/// How the provider names a device: by its UUID, or its address, or its place.
pub open spec fn nvml_device_id(facts: NvmlDeviceFacts, index: u32) -> Seq<char> {
    match bounded(facts.uuid) {
        Some(uuid) => uuid,
        None => match facts.pci {
            Some(pci) => "pci:"@ + nvml_pci(pci).address->0,
            None => "index:"@ + decimal(index as nat),
        },
    }
}

/// The name of a device.
pub open spec fn nvml_device_name(facts: NvmlDeviceFacts, index: u32) -> Seq<char> {
    match bounded(facts.name) {
        Some(name) => name,
        None => "NVIDIA GPU "@ + decimal(index as nat),
    }
}

/// The vendor data of an observation.
pub open spec fn nvml_vendor_info(facts: NvmlDeviceFacts, index: u32) -> Map<
    Seq<char>,
    JsonModel,
> {
    with_static_info(
        with_entry(
            Map::<Seq<char>, JsonModel>::empty().insert(
                "nvmlIndex"@,
                unsigned_number(index as int),
            ),
            "vbiosVersion"@,
            match bounded(facts.vbios) {
                Some(version) => Some(JsonModel::Text(version)),
                None => None,
            },
        ),
        facts.info,
    )
}

/// What is observed of a device.
pub open spec fn is_nvml_observation(
    o: DeviceObservation,
    facts: NvmlDeviceFacts,
    index: u32,
    driver_version: Option<String>,
    on_windows: bool,
) -> bool {
    &&& o.provider@ == nvml_name()
    &&& o.provider_device_id@ == nvml_device_id(facts, index)
    &&& o.vendor == GpuVendor::Nvidia
    &&& o.name@ == nvml_device_name(facts, index)
    &&& text_view(o.architecture) == match facts.architecture {
        Some(architecture) => generation_name(architecture),
        None => None,
    }
    &&& o.driver_version == driver_version
    &&& text_view(o.firmware_version) == bounded(facts.vbios)
    &&& o.kind == if on_windows && facts.pci is Some {
        GpuKind::Discrete
    } else {
        GpuKind::Unknown
    }
    &&& text_view(o.uuid) == bounded(facts.uuid)
    &&& match (o.pci, facts.pci) {
        (Some(identity), Some(pci)) => pci_view(identity) == nvml_pci(pci),
        (None, None) => true,
        _ => false,
    }
    &&& o.windows is None
    &&& o.macos is None
    &&& o.parent_provider_device_id is None
    &&& o.partition is None
    &&& o.memory == StaticMemoryInfo {
        topology: if facts.memory_total is Some {
            MemoryTopology::Dedicated
        } else {
            MemoryTopology::Unknown
        },
        dedicated_total_bytes: facts.memory_total,
        shared_total_bytes: None,
        unified_total_bytes: None,
    }
    &&& o.capabilities.metric_set() == probed_metrics(facts.probes, facts.memory_total is Some)
    &&& o.capabilities.vendor_extensions@ == Set::<Seq<char>>::empty().insert("nvidia.nvml"@)
    &&& o.identity_priority == 100
    &&& o.enumeration_ordinal == Some(index)
    &&& json_models(o.vendor_info@) == nvml_vendor_info(facts, index)
}

/// How a device is found again.
pub struct NvmlRecord {
    pub uuid: Option<String>,
    pub pci_bus_id: Option<String>,
    pub index: u32,
    pub capabilities: CapabilitySet,
}

/// A record by its contents.
pub struct RecordModel {
    pub uuid: Option<Seq<char>>,
    pub pci_bus_id: Option<Seq<char>>,
    pub index: u32,
    pub metrics: Set<MetricKey>,
    pub extensions: Set<Seq<char>>,
}

impl View for NvmlRecord {
    type V = RecordModel;

    open spec fn view(&self) -> RecordModel {
        RecordModel {
            uuid: text_view(self.uuid),
            pci_bus_id: text_view(self.pci_bus_id),
            index: self.index,
            metrics: self.capabilities.metric_set(),
            extensions: self.capabilities.vendor_extensions@,
        }
    }
}

/// How the device with the given facts is found again.
pub open spec fn record_of(facts: NvmlDeviceFacts, index: u32) -> RecordModel {
    RecordModel {
        uuid: bounded(facts.uuid),
        pci_bus_id: match facts.pci {
            Some(pci) => if fits_nvml(pci.bus_id@) {
                Some(pci.bus_id@)
            } else {
                None
            },
            None => None,
        },
        index,
        metrics: probed_metrics(facts.probes, facts.memory_total is Some),
        extensions: Set::<Seq<char>>::empty().insert("nvidia.nvml"@),
    }
}

/// By what a device is asked for again.
#[derive(Debug)]
pub enum DeviceHandle {
    Uuid(String),
    BusId(String),
    Index(u32),
}

impl NvmlRecord {
    /// The strongest name of the device: its UUID, its bus address, its place.
    pub fn handle(&self) -> (handle: DeviceHandle)
        ensures
            match self@.uuid {
                Some(uuid) => handle matches DeviceHandle::Uuid(text) && text@ == uuid,
                None => match self@.pci_bus_id {
                    Some(bus_id) => handle matches DeviceHandle::BusId(text) && text@ == bus_id,
                    None => handle == DeviceHandle::Index(self.index),
                },
            },
    {
        if let Some(uuid) = &self.uuid {
            return DeviceHandle::Uuid(uuid.clone());
        }
        if let Some(bus_id) = &self.pci_bus_id {
            return DeviceHandle::BusId(bus_id.clone());
        }
        DeviceHandle::Index(self.index)
    }
}

/// The observation and the record of a device.
pub fn observe_device(
    facts: &NvmlDeviceFacts,
    index: u32,
    driver_version: &Option<String>,
    on_windows: bool,
) -> (result: (DeviceObservation, NvmlRecord))
    ensures
        is_nvml_observation(result.0, *facts, index, *driver_version, on_windows),
        result.1@ == record_of(*facts, index),
{
    let uuid = keep_bounded(&facts.uuid);
    let pci = match &facts.pci {
        Some(pci) => Some(pci_identity(pci)),
        None => None,
    };
    let provider_device_id = match &uuid {
        Some(uuid) => uuid.clone(),
        None => match &facts.pci {
            Some(pci) => {
                let address = canonical_pci_address(
                    pci.domain,
                    pci.bus,
                    pci.device,
                    pci.bus_id.as_str(),
                );
                joined("pci:", address.as_str())
            },
            None => {
                let number = decimal_text(index as u64);
                joined("index:", number.as_str())
            },
        },
    };
    let name = match keep_bounded(&facts.name) {
        Some(name) => name,
        None => {
            let number = decimal_text(index as u64);
            joined("NVIDIA GPU ", number.as_str())
        },
    };
    let architecture = match facts.architecture {
        Some(architecture) => match architecture_name(architecture) {
            Some(name) => Some(owned(name)),
            None => None,
        },
        None => None,
    };
    let firmware_version = keep_bounded(&facts.vbios);
    let mut capabilities = probe_capabilities(&facts.probes, facts.memory_total.is_some());
    capabilities.vendor_extensions.insert(owned("nvidia.nvml"));
    let mut o = DeviceObservation::new(
        "nvml",
        provider_device_id.as_str(),
        GpuVendor::Nvidia,
        name.as_str(),
    );
    insert_entry(
        &mut o.vendor_info,
        "nvmlIndex",
        Some(Json::Number(JsonNumber::Unsigned(index as u64))),
    );
    assert(json_models(Map::<Seq<char>, Json>::empty()) == Map::<Seq<char>, JsonModel>::empty());
    let version = match &firmware_version {
        Some(version) => Some(Json::Text(version.clone())),
        None => None,
    };
    insert_entry(&mut o.vendor_info, "vbiosVersion", version);
    add_static_vendor_info(&mut o.vendor_info, &facts.info);
    o.identity_priority = 100;
    o.enumeration_ordinal = Some(index);
    o.kind =
    if on_windows && facts.pci.is_some() {
        GpuKind::Discrete
    } else {
        GpuKind::Unknown
    };
    o.uuid = uuid.clone();
    o.pci = pci;
    o.architecture = architecture;
    o.driver_version = driver_version.clone();
    o.firmware_version = firmware_version;
    o.memory =
    StaticMemoryInfo {
        topology: if facts.memory_total.is_some() {
            MemoryTopology::Dedicated
        } else {
            MemoryTopology::Unknown
        },
        dedicated_total_bytes: facts.memory_total,
        shared_total_bytes: None,
        unified_total_bytes: None,
    };
    o.capabilities = capabilities.duplicate();
    let pci_bus_id = match &facts.pci {
        Some(pci) => bounded_string(pci.bus_id.clone()),
        None => None,
    };
    let record = NvmlRecord { uuid, pci_bus_id, index, capabilities };
    (o, record)
}

/// The places of the devices that could be reached, among the first `n`.
pub open spec fn reached(devices: Seq<Result<NvmlDeviceFacts, String>>, n: int) -> Seq<int>
    decreases n,
{
    if n <= 0 {
        Seq::empty()
    } else if devices[n - 1] is Ok {
        reached(devices, n - 1).push(n - 1)
    } else {
        reached(devices, n - 1)
    }
}

/// The records of the first `n` devices by the provider's names for them.
pub open spec fn named_records(devices: Seq<Result<NvmlDeviceFacts, String>>, n: int) -> Map<
    Seq<char>,
    RecordModel,
>
    decreases n,
{
    if n <= 0 {
        Map::empty()
    } else {
        match devices[n - 1] {
            Ok(facts) => named_records(devices, n - 1).insert(
                nvml_device_id(facts, (n - 1) as u32),
                record_of(facts, (n - 1) as u32),
            ),
            Err(words) => named_records(devices, n - 1),
        }
    }
}

/// How many of the first `n` devices could not be reached.
pub open spec fn skipped(devices: Seq<Result<NvmlDeviceFacts, String>>, n: int) -> nat
    decreases n,
{
    if n <= 0 {
        0
    } else {
        skipped(devices, n - 1) + match devices[n - 1] {
            Ok(facts) => 0nat,
            Err(words) => 1nat,
        }
    }
}

/// What is told of the devices among the first `n` that could not be reached; of the first few.
pub open spec fn skip_details(devices: Seq<Result<NvmlDeviceFacts, String>>, n: int) -> Seq<
    Seq<char>,
>
    decreases n,
{
    if n <= 0 {
        Seq::empty()
    } else {
        let before = skip_details(devices, n - 1);
        match devices[n - 1] {
            Ok(facts) => before,
            Err(words) => if before.len() < MAX_INVENTORY_FAILURE_DETAILS {
                before.push("index "@ + decimal((n - 1) as nat) + ": "@ + words@)
            } else {
                before
            },
        }
    }
}

/// What is said of the devices that could not be reached.
pub open spec fn skip_message(devices: Seq<Result<NvmlDeviceFacts, String>>) -> Option<Seq<char>> {
    let n = devices.len() as int;
    if skipped(devices, n) == 0 {
        None
    } else {
        Some(
            "NVML skipped "@ + decimal(skipped(devices, n)) + " inaccessible device(s): "@
                + enumerated(skip_details(devices, n)),
        )
    }
}

/// The contents of records.
pub open spec fn record_models(records: Map<Seq<char>, NvmlRecord>) -> Map<Seq<char>, RecordModel> {
    records.map_values(|record: NvmlRecord| record@)
}

/// The state of the provider.
pub struct NvmlProvider {
    available: bool,
    nvml_version: Option<String>,
    driver_version: Option<String>,
    failure: Option<(UnavailableReason, String)>,
    runtime_message: Option<String>,
    inventory_message: Option<String>,
    records: SortedMap<String, NvmlRecord>,
    closed: bool,
}

/// The state of the provider by its contents.
pub struct NvmlState {
    pub available: bool,
    pub nvml_version: Option<String>,
    pub driver_version: Option<String>,
    pub failure: Option<(UnavailableReason, Seq<char>)>,
    pub runtime_message: Option<Seq<char>>,
    pub inventory_message: Option<Seq<char>>,
    pub records: Map<Seq<char>, RecordModel>,
    pub closed: bool,
}

/// Two texts with a semicolon between them, or the one that is there.
pub open spec fn both_messages(first: Option<Seq<char>>, second: Option<Seq<char>>) -> Option<
    Seq<char>,
> {
    match (first, second) {
        (Some(a), Some(b)) => Some(a + "; "@ + b),
        (Some(a), None) => Some(a),
        (None, other) => other,
    }
}

impl View for NvmlProvider {
    type V = NvmlState;

    closed spec fn view(&self) -> NvmlState {
        NvmlState {
            available: self.available,
            nvml_version: self.nvml_version,
            driver_version: self.driver_version,
            failure: match self.failure {
                Some((reason, words)) => Some((reason, words@)),
                None => None,
            },
            runtime_message: text_view(self.runtime_message),
            inventory_message: text_view(self.inventory_message),
            records: record_models(self.records@),
            closed: self.closed,
        }
    }
}

impl NvmlProvider {
    /// The provider of a library that was loaded.
    pub fn loaded(
        nvml_version: Option<String>,
        driver_version: Option<String>,
        runtime_message: Option<String>,
    ) -> (provider: Self)
        ensures
            provider@.available,
            text_view(provider@.nvml_version) == bounded(nvml_version),
            text_view(provider@.driver_version) == bounded(driver_version),
            provider@.failure is None,
            provider@.runtime_message == text_view(runtime_message),
            provider@.inventory_message is None,
            provider@.records == Map::<Seq<char>, RecordModel>::empty(),
            !provider@.closed,
    {
        let provider = NvmlProvider {
            available: true,
            nvml_version: keep_bounded(&nvml_version),
            driver_version: keep_bounded(&driver_version),
            failure: None,
            runtime_message,
            inventory_message: None,
            records: SortedMap::new(),
            closed: false,
        };
        assert(provider@.records == Map::<Seq<char>, RecordModel>::empty());
        provider
    }

    /// The provider of a library that could not be loaded.
    pub fn unavailable(reason: UnavailableReason, message: &str) -> (provider: Self)
        ensures
            !provider@.available,
            provider@.nvml_version is None,
            provider@.driver_version is None,
            provider@.failure == Some((reason, message@)),
            provider@.runtime_message is None,
            provider@.inventory_message is None,
            provider@.records == Map::<Seq<char>, RecordModel>::empty(),
            !provider@.closed,
    {
        let provider = NvmlProvider {
            available: false,
            nvml_version: None,
            driver_version: None,
            failure: Some((reason, owned(message))),
            runtime_message: None,
            inventory_message: None,
            records: SortedMap::new(),
            closed: false,
        };
        assert(provider@.records == Map::<Seq<char>, RecordModel>::empty());
        provider
    }

    /// The library is there to be asked.
    pub fn is_usable(&self) -> (usable: bool)
        ensures
            usable == (self@.available && !self@.closed),
    {
        self.available && !self.closed
    }

    /// Notes that the number of devices could not be had.
    pub fn enumeration_failed(&mut self, words: &str)
        ensures
            final(self)@ == (NvmlState {
                records: Map::empty(),
                inventory_message: Some("NVML device enumeration failed: "@ + words@),
                ..old(self)@
            }),
    {
        self.records = SortedMap::new();
        self.inventory_message = Some(joined("NVML device enumeration failed: ", words));
        assert(self@.records == Map::<Seq<char>, RecordModel>::empty());
    }

    /// Whether so many devices can be believed; notes it where not.
    pub fn accepts_count(&mut self, count: u32) -> (accepted: bool)
        ensures
            accepted == (count <= MAX_NVML_DEVICES),
            accepted ==> final(self)@ == old(self)@,
            !accepted ==> final(self)@ == (NvmlState {
                records: Map::empty(),
                inventory_message: Some(
                    "NVML reported an unreasonable device count ("@ + decimal(count as nat)
                        + "); the safety limit is 256"@,
                ),
                ..old(self)@
            }),
    {
        if count <= MAX_NVML_DEVICES {
            return true;
        }
        let mut text = chars_of("NVML reported an unreasonable device count (");
        let number = decimal_text(count as u64);
        extend_text(&mut text, number.as_str());
        extend_text(&mut text, "); the safety limit is 256");
        self.records = SortedMap::new();
        self.inventory_message = Some(string_of(&text));
        assert(self@.records == Map::<Seq<char>, RecordModel>::empty());
        false
    }

    /// Takes over what was queried of the devices, and gives their observations. Nothing where
    /// the library is not there.
    pub fn install(&mut self, devices: &Vec<Result<NvmlDeviceFacts, String>>, on_windows: bool) -> (observations:
        Vec<DeviceObservation>)
        requires
            devices@.len() <= MAX_NVML_DEVICES,
        ensures
            if !old(self)@.available || old(self)@.closed {
                final(self)@ == old(self)@ && observations@.len() == 0
            } else {
                let places = reached(devices@, devices@.len() as int);
                &&& final(self)@ == (NvmlState {
                    records: named_records(devices@, devices@.len() as int),
                    inventory_message: skip_message(devices@),
                    ..old(self)@
                })
                &&& observations@.len() == places.len()
                &&& forall|k: int|
                    0 <= k < observations@.len() ==> is_nvml_observation(
                        #[trigger] observations@[k],
                        devices@[places[k]]->Ok_0,
                        places[k] as u32,
                        old(self)@.driver_version,
                        on_windows,
                    )
            },
    {
        let mut observations: Vec<DeviceObservation> = Vec::new();
        if !self.available || self.closed {
            return observations;
        }
        let ghost before = self@;
        let mut records: SortedMap<String, NvmlRecord> = SortedMap::new();
        let mut details: Vec<String> = Vec::new();
        let mut count: usize = 0;
        let mut i: usize = 0;
        assert(record_models(records@) == Map::<Seq<char>, RecordModel>::empty());
        assert(details@.map_values(|w: String| w@) == Seq::<Seq<char>>::empty());
        while i < devices.len()
            invariant
                i <= devices.len() <= MAX_NVML_DEVICES,
                self@ == before,
                self.driver_version == before.driver_version,
                count <= i,
                count == skipped(devices@, i as int),
                details@.map_values(|w: String| w@) == skip_details(devices@, i as int),
                record_models(records@) == named_records(devices@, i as int),
                observations.len() == reached(devices@, i as int).len(),
                forall|k: int|
                    0 <= k < observations@.len() ==> is_nvml_observation(
                        #[trigger] observations@[k],
                        devices@[reached(devices@, i as int)[k]]->Ok_0,
                        reached(devices@, i as int)[k] as u32,
                        before.driver_version,
                        on_windows,
                    ),
            decreases devices.len() - i,
        {
            let ghost places = reached(devices@, i as int);
            match &devices[i] {
                Err(words) => {
                    count = count + 1;
                    let ghost held = details@.map_values(|w: String| w@);
                    if details.len() < MAX_INVENTORY_FAILURE_DETAILS {
                        let mut text = chars_of("index ");
                        let number = decimal_text(i as u64);
                        extend_text(&mut text, number.as_str());
                        extend_text(&mut text, ": ");
                        extend_text(&mut text, words.as_str());
                        details.push(string_of(&text));
                        assert(details@.map_values(|w: String| w@) == held.push(text@));
                    }
                },
                Ok(facts) => {
                    let (observation, record) = observe_device(
                        facts,
                        i as u32,
                        &self.driver_version,
                        on_windows,
                    );
                    let ghost held = record_models(records@);
                    records.insert(observation.provider_device_id.clone(), record);
                    assert(record_models(records@) == held.insert(
                        observation.provider_device_id@,
                        record@,
                    ));
                    observations.push(observation);
                    assert(reached(devices@, i + 1) == places.push(i as int));
                },
            }
            i = i + 1;
        }
        self.records = records;
        self.inventory_message =
        if count > 0 {
            let mut text = chars_of("NVML skipped ");
            let number = decimal_text(count as u64);
            extend_text(&mut text, number.as_str());
            extend_text(&mut text, " inaccessible device(s): ");
            let list = enumerate_texts(&details);
            extend_text(&mut text, list.as_str());
            Some(string_of(&text))
        } else {
            None
        };
        observations
    }

    /// What the provider says of its own state.
    pub fn diagnostic(&self) -> (diagnostic: ProviderDiagnostic)
        ensures
            diagnostic.id@ == nvml_name(),
            diagnostic.loaded == (self@.available && !self@.closed),
            diagnostic.version == self@.nvml_version,
            diagnostic.devices_matched == self@.records.dom().len(),
            diagnostic.reason == match self@.failure {
                Some((reason, words)) => Some(reason),
                None => if self@.closed {
                    Some(UnavailableReason::TemporarilyUnavailable)
                } else {
                    None
                },
            },
            text_view(diagnostic.message) == match self@.failure {
                Some((reason, words)) => Some(words),
                None => match both_messages(self@.runtime_message, self@.inventory_message) {
                    Some(words) => Some(words),
                    None => if self@.closed {
                        Some("NVML provider is shut down"@)
                    } else {
                        None
                    },
                },
            },
    {
        let messages = match (&self.runtime_message, &self.inventory_message) {
            (Some(a), Some(b)) => {
                let mut text = chars_of(a.as_str());
                extend_text(&mut text, "; ");
                extend_text(&mut text, b.as_str());
                Some(string_of(&text))
            },
            (Some(a), None) => Some(a.clone()),
            (None, Some(b)) => Some(b.clone()),
            (None, None) => None,
        };
        let reason = match &self.failure {
            Some((reason, words)) => Some(*reason),
            None => if self.closed {
                Some(UnavailableReason::TemporarilyUnavailable)
            } else {
                None
            },
        };
        let message = match &self.failure {
            Some((reason, words)) => Some(words.clone()),
            None => match messages {
                Some(words) => Some(words),
                None => if self.closed {
                    Some(owned("NVML provider is shut down"))
                } else {
                    None
                },
            },
        };
        let count: usize = self.records.len();
        proof {
            lemma_names_counted(self.records.keys(), self.records@.dom());
            assert(self@.records.dom() == self.records@.dom());
        }
        ProviderDiagnostic {
            id: owned("nvml"),
            loaded: self.available && !self.closed,
            version: self.nvml_version.clone(),
            devices_matched: count,
            reason,
            message,
        }
    }

    /// The record that speaks of a device.
    pub open spec fn record_for_spec(&self, device: &CanonicalGpu) -> Option<RecordModel> {
        if device.provider_device_ids@.contains_key(nvml_name()) && self@.records.contains_key(
            device.provider_device_ids@[nvml_name()]@,
        ) {
            Some(self@.records[device.provider_device_ids@[nvml_name()]@])
        } else {
            None
        }
    }

    pub fn record_for(&self, device: &CanonicalGpu) -> (record: Option<&NvmlRecord>)
        ensures
            match record {
                Some(record) => self.record_for_spec(device) == Some(record@),
                None => self.record_for_spec(device) is None,
            },
    {
        match device.provider_device_ids.get(&owned("nvml")) {
            None => None,
            Some(name) => self.records.get(name),
        }
    }

    pub fn capabilities(&self, device: &CanonicalGpu) -> (capabilities: CapabilitySet)
        ensures
            match self.record_for_spec(device) {
                Some(record) => capabilities.metric_set() == record.metrics
                    && capabilities.vendor_extensions@ == record.extensions,
                None => capabilities.metric_set() == Set::<MetricKey>::empty()
                    && capabilities.vendor_extensions@ == Set::<Seq<char>>::empty(),
            },
    {
        match self.record_for(device) {
            Some(record) => record.capabilities.duplicate(),
            None => CapabilitySet::default(),
        }
    }

    /// What a device says at a time: its readings, or why it could not be asked.
    pub fn answer(
        &self,
        device: &CanonicalGpu,
        request: &SampleRequest,
        readings: &Result<NvmlReadings, NvmlFailure>,
        sampled_at: TimestampMs,
    ) -> (sample: ProviderSample)
        ensures
            match self.record_for_spec(device) {
                None => sample.metrics@.len() == 0 && sample.unavailable@.len() == 0
                    && sample.processes is None,
                Some(record) => match (self@.available, *readings) {
                    (false, _) => is_lost(
                        sample,
                        record.metrics,
                        *request,
                        device.identity.id@,
                        UnavailableReason::DriverLibraryMissing,
                        "NVML is no longer available"@,
                    ),
                    (true, Err(failure)) => is_lost(
                        sample,
                        record.metrics,
                        *request,
                        device.identity.id@,
                        failure_reason(failure.kind),
                        "NVML could not reacquire the device: "@ + failure.words@,
                    ),
                    (true, Ok(readings)) => {
                        &&& values(sample.metrics@) == nvml_values(
                            readings,
                            record.metrics,
                            *request,
                            device.identity.id@,
                            sampled_at,
                            26,
                        )
                        &&& absences(sample.unavailable@) == nvml_absences(
                            readings,
                            record.metrics,
                            *request,
                            device.identity.id@,
                            26,
                        )
                        &&& reports_processes(
                            sample.processes,
                            readings,
                            record.metrics,
                            *request,
                            sampled_at,
                        )
                    },
                },
            },
    {
        let record = match self.record_for(device) {
            Some(record) => record,
            None => return ProviderSample::default(),
        };
        let id = &device.identity.id;
        if !self.available {
            return unavailable_for_all(
                id,
                request,
                &record.capabilities,
                UnavailableReason::DriverLibraryMissing,
                "NVML is no longer available",
            );
        }
        match readings {
            Err(failure) => {
                let message = joined(
                    "NVML could not reacquire the device: ",
                    failure.words.as_str(),
                );
                unavailable_for_all(
                    id,
                    request,
                    &record.capabilities,
                    unavailable_reason(failure.kind),
                    message.as_str(),
                )
            },
            Ok(readings) => sample_metrics(
                readings,
                id,
                request,
                &record.capabilities,
                sampled_at,
            ),
        }
    }

    /// The vendor data of a device, where it could be asked.
    pub fn vendor_info(
        &self,
        device: &CanonicalGpu,
        facts: &Option<DynamicFacts>,
        sampled_at: TimestampMs,
    ) -> (info: Json)
        ensures
            match (self.record_for_spec(device), self@.available, *facts) {
                (Some(record), true, Some(facts)) => shows_dynamic_info(info@, facts, sampled_at),
                _ => info == Json::Null,
            },
    {
        if self.record_for(device).is_none() || !self.available {
            return Json::Null;
        }
        match facts {
            Some(facts) => {
                let entries = dynamic_vendor_info(facts, sampled_at);
                let info = object_of(&entries);
                assert(is_object_of(info@, json_models(entries@)));
                info
            },
            None => Json::Null,
        }
    }

    /// Lets go of the library; says whether it had been held.
    pub fn shutdown(&mut self) -> (held: bool)
        ensures
            held == (!old(self)@.closed && old(self)@.available),
            final(self)@ == if old(self)@.closed {
                old(self)@
            } else {
                NvmlState {
                    available: false,
                    records: Map::empty(),
                    closed: true,
                    ..old(self)@
                }
            },
    {
        if self.closed {
            return false;
        }
        let held = self.available;
        self.closed = true;
        self.available = false;
        self.records = SortedMap::new();
        assert(self@.records == Map::<Seq<char>, RecordModel>::empty());
        held
    }

    /// Notes what went wrong when the library was let go.
    pub fn shutdown_failed(&mut self, words: &str)
        ensures
            final(self)@ == (NvmlState {
                inventory_message: Some("NVML shutdown reported an error: "@ + words@),
                ..old(self)@
            }),
    {
        self.inventory_message = Some(joined("NVML shutdown reported an error: ", words));
    }

    /// How the values of NVML are weighed.
    pub fn metadata() -> (metadata: ProviderMetadata)
        ensures
            metadata.id@ == nvml_name(),
            metadata.specificity == 100,
            metadata.reliability == 95,
            forall|key: MetricKey|
                metadata.priority(key) == if is_nvml_metric(key) {
                    100i16
                } else {
                    0i16
                },
    {
        let metadata = ProviderMetadata::new("nvml", 100, 95);
        let metadata = metadata.prefer(MetricKey::UtilizationOverall, 100);
        let metadata = metadata.prefer(MetricKey::UtilizationMemoryController, 100);
        let metadata = metadata.prefer(MetricKey::UtilizationEncoder, 100);
        let metadata = metadata.prefer(MetricKey::UtilizationDecoder, 100);
        let metadata = metadata.prefer(MetricKey::MemoryDedicatedUsedBytes, 100);
        let metadata = metadata.prefer(MetricKey::TemperatureCoreCelsius, 100);
        let metadata = metadata.prefer(MetricKey::PowerDrawWatts, 100);
        let metadata = metadata.prefer(MetricKey::PowerLimitWatts, 100);
        let metadata = metadata.prefer(MetricKey::PowerEnergyJoules, 100);
        let metadata = metadata.prefer(MetricKey::ClockGraphicsMhz, 100);
        let metadata = metadata.prefer(MetricKey::ClockComputeMhz, 100);
        let metadata = metadata.prefer(MetricKey::ClockMemoryMhz, 100);
        let metadata = metadata.prefer(MetricKey::ClockVideoMhz, 100);
        let metadata = metadata.prefer(MetricKey::FanPercent, 100);
        let metadata = metadata.prefer(MetricKey::FanRpm, 100);
        metadata.prefer(MetricKey::Processes, 100)
    }
}

/// The object holds the vendor data of a device.
pub open spec fn shows_dynamic_info(
    info: JsonModel,
    facts: DynamicFacts,
    sampled_at: TimestampMs,
) -> bool {
    exists|entries: Map<Seq<char>, JsonModel>|
        #![trigger is_object_of(info, entries)]
        is_object_of(info, entries) && is_dynamic_info(entries, facts, sampled_at)
}

/// Every wanted metric of a device is missing for one reason.
pub open spec fn is_lost(
    sample: ProviderSample,
    metrics: Set<MetricKey>,
    request: SampleRequest,
    device_id: Seq<char>,
    reason: UnavailableReason,
    message: Seq<char>,
) -> bool {
    &&& sample.metrics@.len() == 0
    &&& sample.processes is None
    &&& absences(sample.unavailable@) == all_absences(
        metrics,
        request,
        device_id,
        reason,
        message,
        26,
    )
}

/// The metrics that NVML can give.
pub open spec fn is_nvml_metric(key: MetricKey) -> bool {
    ||| key == MetricKey::UtilizationOverall
    ||| key == MetricKey::UtilizationMemoryController
    ||| key == MetricKey::UtilizationEncoder
    ||| key == MetricKey::UtilizationDecoder
    ||| key == MetricKey::MemoryDedicatedUsedBytes
    ||| key == MetricKey::TemperatureCoreCelsius
    ||| key == MetricKey::PowerDrawWatts
    ||| key == MetricKey::PowerLimitWatts
    ||| key == MetricKey::PowerEnergyJoules
    ||| key == MetricKey::ClockGraphicsMhz
    ||| key == MetricKey::ClockComputeMhz
    ||| key == MetricKey::ClockMemoryMhz
    ||| key == MetricKey::ClockVideoMhz
    ||| key == MetricKey::FanPercent
    ||| key == MetricKey::FanRpm
    ||| key == MetricKey::Processes
}

proof fn lemma_names_counted(keys: Seq<Seq<char>>, dom: Set<Seq<char>>)
    requires
        lists_keys::<String>(keys, dom),
    ensures
        keys.len() == dom.len(),
{
    assert forall|i: int, j: int| 0 <= i < keys.len() && 0 <= j < keys.len() && i != j implies keys[i]
        != keys[j] by {
        crate::text::lemma_text_less_irreflexive(keys[i]);
    }
    keys.unique_seq_to_set();
    assert(keys.to_set() == dom);
}

} // verus!
