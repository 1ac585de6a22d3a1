//! Whose account of a device comes first.
use crate::json::JsonModel;
use crate::model::{DeviceObservation, MetricKey};
use crate::providers::linux::inventory::{is_record_of, DeviceFacts, LinuxDeviceRecord, SourceGroup};
use crate::providers::linux::metric::SourceReading;
use crate::providers::macos::ioreport::ChannelModel;
use crate::providers::macos::ioreport_provider::is_report_observation;
use crate::providers::macos::metal_inventory::{is_metal_observation, MetalDevice};
use crate::providers::macos::smc::{is_smc_observation, ListedDevice};
use crate::providers::nvml_inventory::{is_nvml_observation, NvmlDeviceFacts};
use crate::providers::windows::dxgi::{is_dxgi_observation, AdapterDescription};
use vstd::prelude::*;

verus! {

/// On Linux NVML knows a device better than sysfs.
pub proof fn law_nvml_ranks_before_sysfs(
    o: DeviceObservation,
    facts: NvmlDeviceFacts,
    index: u32,
    driver_version: Option<String>,
    record: LinuxDeviceRecord,
    found: DeviceFacts,
    groups: Seq<SourceGroup>,
    readings: Seq<Vec<SourceReading>>,
)
    requires
        is_nvml_observation(o, facts, index, driver_version, false),
        is_record_of(record, found, groups, readings),
    ensures
        o.identity_priority == record.observation.identity_priority + 40,
        record.observation.identity_priority == 60,
{
}

/// On Windows NVML knows a device better than DXGI. What DXGI tells of an adapter offers no metric
/// and numbers it by its place.
pub proof fn law_nvml_ranks_before_dxgi(
    o: DeviceObservation,
    facts: NvmlDeviceFacts,
    index: u32,
    driver_version: Option<String>,
    adapter: AdapterDescription,
    ordinal: u32,
    seen: DeviceObservation,
)
    requires
        is_nvml_observation(o, facts, index, driver_version, true),
        is_dxgi_observation(seen, adapter, ordinal as int),
    ensures
        o.identity_priority == seen.identity_priority + 20,
        seen.identity_priority == 80,
        seen.enumeration_ordinal == Some(ordinal),
        seen.capabilities.metric_set() == Set::<MetricKey>::empty(),
        seen.uuid is None,
        seen.macos is None,
        o.windows is None,
        o.macos is None,
        o.capabilities.vendor_extensions@.contains("nvidia.nvml"@),
{
}

/// On macOS Metal knows a device better than the counters, and these better than the sensors.
pub proof fn law_metal_ranks_before_counters_and_sensors(
    seen: DeviceObservation,
    device: MetalDevice,
    ordinal: int,
    host_memory: Option<u64>,
    counted: DeviceObservation,
    name: Option<String>,
    channels: Seq<ChannelModel>,
    sensed: DeviceObservation,
    listed: ListedDevice,
    has_sensors: bool,
)
    requires
        is_metal_observation(seen, device, ordinal, host_memory),
        is_report_observation(counted, name, channels),
        is_smc_observation(sensed, listed, has_sensors),
    ensures
        seen.identity_priority == counted.identity_priority + 20,
        counted.identity_priority == sensed.identity_priority + 50,
        sensed.identity_priority == 10,
        seen.uuid is None && seen.pci is None && seen.windows is None,
        counted.uuid is None && counted.pci is None && counted.windows is None,
        sensed.uuid is None && sensed.pci is None && sensed.windows is None,
{
}

/// The vendor data that NVML gives of a device holds its place among the devices.
pub proof fn law_nvml_tells_the_place(
    o: DeviceObservation,
    facts: NvmlDeviceFacts,
    index: u32,
    driver_version: Option<String>,
    on_windows: bool,
)
    requires
        is_nvml_observation(o, facts, index, driver_version, on_windows),
    ensures
        ({
            let told = crate::json::json_models(o.vendor_info@);
            &&& told.contains_key("nvmlIndex"@)
            &&& told["nvmlIndex"@] == JsonModel::Number(
                crate::json::JsonNumber::Unsigned(index as u64),
            )
            &&& facts.vbios is Some && o.firmware_version is Some ==> told.contains_key(
                "vbiosVersion"@,
            ) && told["vbiosVersion"@] == JsonModel::Text(facts.vbios->0@)
        }),
{
    reveal_strlit("nvmlIndex");
    reveal_strlit("vbiosVersion");
    reveal_strlit("smCount");
    reveal_strlit("bar1TotalBytes");
    reveal_strlit("cudaComputeCapability");
    reveal_strlit("ecc");
    reveal_strlit("mig");
    reveal_strlit("computeMode");
    assert("nvmlIndex"@.len() == 9 && "vbiosVersion"@.len() == 12);
    assert("smCount"@.len() == 7 && "bar1TotalBytes"@.len() == 14 && "computeMode"@.len() == 11);
    assert("cudaComputeCapability"@.len() == 21 && "ecc"@.len() == 3 && "mig"@.len() == 3);
}

} // verus!
