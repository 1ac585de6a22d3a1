//! The devices that Metal lists.
use crate::json::{
    insert_entry, json_models, name_list, unsigned_number, with_entry, Json, JsonModel, JsonNumber,
};
use crate::merge::text_view;
use crate::model::{
    DeviceObservation, GpuKind, GpuVendor, MacosIdentity, MemoryTopology, MetricKey,
    ProviderDiagnostic, StaticMemoryInfo,
};
use crate::provider::ProviderMetadata;
use crate::text::{
    begins, chars_of, contains, has, lower, lowered, named, owned, padded_digits, padded_digits_of,
    push_named, starts_with, str_views, string_of,
};
use vstd::prelude::*;

verus! {

/// The name of the provider.
pub open spec fn metal_name() -> Seq<char> {
    "macos-metal"@
}

/// Where a device sits.
#[derive(Clone, Copy, Debug, PartialEq, Eq, Structural)]
pub enum MetalLocation {
    BuiltIn,
    Slot,
    External,
    Unspecified,
}

/// The families of features that a device may support.
#[derive(Clone, Copy, Debug, PartialEq, Eq, Structural)]
pub struct MetalFamilies {
    pub apple1: bool,
    pub apple2: bool,
    pub apple3: bool,
    pub apple4: bool,
    pub apple5: bool,
    pub apple6: bool,
    pub apple7: bool,
    pub apple8: bool,
    pub apple9: bool,
    pub mac1: bool,
    pub mac2: bool,
    pub metal3: bool,
    pub metal4: bool,
}

/// What Metal says of a device.
#[derive(Debug)]
pub struct MetalDevice {
    pub name: String,
    pub registry_id: u64,
    pub unified_memory: bool,
    pub removable: bool,
    pub low_power: bool,
    pub location: MetalLocation,
    pub families: MetalFamilies,
    pub recommended_max_working_set_bytes: u64,
}

/// The vendor that the name of a device gives away.
pub open spec fn named_vendor(name: Seq<char>) -> GpuVendor {
    let name = lower(name);
    if contains(name, "apple"@) {
        GpuVendor::Apple
    } else if contains(name, "nvidia"@) || contains(name, "geforce"@) {
        GpuVendor::Nvidia
    } else if contains(name, "amd"@) || contains(name, "radeon"@) {
        GpuVendor::Amd
    } else if contains(name, "intel"@) {
        GpuVendor::Intel
    } else {
        GpuVendor::Unknown
    }
}

pub fn vendor_from_name(name: &str) -> (vendor: GpuVendor)
    ensures
        vendor == named_vendor(name@),
{
    let chars = chars_of(name);
    let lowercase = lowered(&chars);
    if has(&lowercase, "apple") {
        GpuVendor::Apple
    } else if has(&lowercase, "nvidia") || has(&lowercase, "geforce") {
        GpuVendor::Nvidia
    } else if has(&lowercase, "amd") || has(&lowercase, "radeon") {
        GpuVendor::Amd
    } else if has(&lowercase, "intel") {
        GpuVendor::Intel
    } else {
        GpuVendor::Unknown
    }
}

pub open spec fn metal_kind(device: MetalDevice) -> GpuKind {
    if device.removable || device.location == MetalLocation::External {
        GpuKind::External
    } else if device.unified_memory || device.low_power {
        GpuKind::Integrated
    } else if device.location == MetalLocation::Slot {
        GpuKind::Discrete
    } else {
        GpuKind::Unknown
    }
}

pub fn kind(device: &MetalDevice) -> (kind: GpuKind)
    ensures
        kind == metal_kind(*device),
{
    if device.removable || device.location == MetalLocation::External {
        GpuKind::External
    } else if device.unified_memory || device.low_power {
        GpuKind::Integrated
    } else if device.location == MetalLocation::Slot {
        GpuKind::Discrete
    } else {
        GpuKind::Unknown
    }
}

/// The families of Apple devices that are supported, the oldest first.
pub open spec fn apple_families(families: MetalFamilies) -> Seq<Seq<char>> {
    named(families.apple1, "apple1"@) + named(families.apple2, "apple2"@) + named(
        families.apple3,
        "apple3"@,
    ) + named(families.apple4, "apple4"@) + named(families.apple5, "apple5"@) + named(
        families.apple6,
        "apple6"@,
    ) + named(families.apple7, "apple7"@) + named(families.apple8, "apple8"@) + named(
        families.apple9,
        "apple9"@,
    )
}

/// The families that are supported.
pub open spec fn family_names(families: MetalFamilies) -> Seq<Seq<char>> {
    apple_families(families) + named(families.mac1, "mac1"@) + named(families.mac2, "mac2"@)
        + named(families.metal3, "metal3"@) + named(families.metal4, "metal4"@)
}

pub fn supported_families(families: &MetalFamilies) -> (names: Vec<&'static str>)
    ensures
        str_views(names@) == family_names(*families),
{
    let mut names: Vec<&'static str> = Vec::new();
    assert(str_views(names@) == Seq::<Seq<char>>::empty());
    push_named(&mut names, families.apple1, "apple1");
    push_named(&mut names, families.apple2, "apple2");
    push_named(&mut names, families.apple3, "apple3");
    push_named(&mut names, families.apple4, "apple4");
    push_named(&mut names, families.apple5, "apple5");
    push_named(&mut names, families.apple6, "apple6");
    push_named(&mut names, families.apple7, "apple7");
    push_named(&mut names, families.apple8, "apple8");
    push_named(&mut names, families.apple9, "apple9");
    assert(str_views(names@) == apple_families(*families));
    push_named(&mut names, families.mac1, "mac1");
    push_named(&mut names, families.mac2, "mac2");
    push_named(&mut names, families.metal3, "metal3");
    push_named(&mut names, families.metal4, "metal4");
    assert(str_views(names@) == family_names(*families));
    names
}

/// The last family of Apple devices among names.
pub open spec fn newest_apple_family(names: Seq<Seq<char>>) -> Option<Seq<char>>
    decreases names.len(),
{
    if names.len() == 0 {
        None
    } else if starts_with(names.last(), "apple"@) {
        Some(names.last())
    } else {
        newest_apple_family(names.drop_last())
    }
}

fn newest_apple(names: &Vec<&'static str>) -> (family: Option<&'static str>)
    ensures
        match family {
            Some(family) => newest_apple_family(str_views(names@)) == Some(family@),
            None => newest_apple_family(str_views(names@)) is None,
        },
{
    let ghost all = str_views(names@);
    let mut i: usize = names.len();
    assert(all.take(i as int) == all);
    while i > 0
        invariant
            i <= names.len(),
            all == str_views(names@),
            newest_apple_family(all) == newest_apple_family(all.take(i as int)),
        decreases i,
    {
        assert(all.take(i as int).last() == names@[i - 1]@);
        assert(all.take(i as int).drop_last() == all.take(i - 1));
        let chars = chars_of(names[i - 1]);
        if begins(&chars, "apple") {
            return Some(names[i - 1]);
        }
        i = i - 1;
    }
    None
}

/// The number of a device in the registry.
pub open spec fn registry_text(id: u64) -> Seq<char> {
    padded_digits(id as nat, 16, 16)
}

pub fn registry_string(id: u64) -> (text: String)
    ensures
        text@ == registry_text(id),
{
    let digits = padded_digits_of(id, 16, 16);
    string_of(&digits)
}

/// The memory that a device with unified memory shares with the host.
pub open spec fn shared_with_host(device: MetalDevice, host_memory: Option<u64>) -> Option<u64> {
    if device.unified_memory {
        host_memory
    } else {
        None
    }
}

/// The vendor data of a device.
pub open spec fn metal_info(device: MetalDevice, host_memory: Option<u64>) -> Map<
    Seq<char>,
    JsonModel,
> {
    let apple = named_vendor(device.name@) == GpuVendor::Apple;
    let info = Map::<Seq<char>, JsonModel>::empty().insert(
        "metalRegistryId"@,
        JsonModel::Text(registry_text(device.registry_id)),
    ).insert(
        "recommendedMaxWorkingSetBytes"@,
        unsigned_number(device.recommended_max_working_set_bytes as int),
    ).insert(
        "metalGpuFamilies"@,
        JsonModel::Array(
            family_names(device.families).map_values(|n: Seq<char>| JsonModel::Text(n)),
        ),
    );
    let info = with_entry(
        info,
        "gpuFamily"@,
        match newest_apple_family(family_names(device.families)) {
            Some(family) if apple => Some(JsonModel::Text(family)),
            _ => None,
        },
    );
    with_entry(
        info,
        "unifiedMemoryTotalBytes"@,
        match shared_with_host(device, host_memory) {
            Some(bytes) if apple => Some(unsigned_number(bytes as int)),
            _ => None,
        },
    )
}

/// What is observed of a device.
pub open spec fn is_metal_observation(
    o: DeviceObservation,
    device: MetalDevice,
    ordinal: int,
    host_memory: Option<u64>,
) -> bool {
    &&& o.provider@ == metal_name()
    &&& o.provider_device_id@ == registry_text(device.registry_id)
    &&& o.vendor == named_vendor(device.name@)
    &&& o.name@ == device.name@
    &&& text_view(o.architecture) == if named_vendor(device.name@) == GpuVendor::Apple {
        Some(device.name@)
    } else {
        None
    }
    &&& o.driver_version is None
    &&& o.firmware_version is None
    &&& o.kind == metal_kind(device)
    &&& o.uuid is None
    &&& o.pci is None
    &&& o.windows is None
    &&& o.macos matches Some(identity) && identity.registry_entry_id is None && text_view(
        identity.metal_registry_id,
    ) == Some(registry_text(device.registry_id))
    &&& o.parent_provider_device_id is None
    &&& o.partition is None
    &&& o.memory == StaticMemoryInfo {
        topology: if device.unified_memory {
            MemoryTopology::Unified
        } else {
            MemoryTopology::Dedicated
        },
        dedicated_total_bytes: None,
        shared_total_bytes: None,
        unified_total_bytes: shared_with_host(device, host_memory),
    }
    &&& o.capabilities.metric_set() == Set::<MetricKey>::empty()
    &&& o.capabilities.vendor_extensions@ == Set::<Seq<char>>::empty()
    &&& o.identity_priority == 80
    &&& o.enumeration_ordinal == if ordinal <= u32::MAX {
        Some(ordinal as u32)
    } else {
        None
    }
    &&& json_models(o.vendor_info@) == metal_info(device, host_memory)
}

fn observe_device(device: &MetalDevice, ordinal: usize, host_memory: Option<u64>) -> (o:
    DeviceObservation)
    ensures
        is_metal_observation(o, *device, ordinal as int, host_memory),
{
    let vendor = vendor_from_name(device.name.as_str());
    let registry_id = registry_string(device.registry_id);
    let unified_total_bytes: Option<u64> = if device.unified_memory {
        host_memory
    } else {
        None
    };
    let families = supported_families(&device.families);
    let mut o = DeviceObservation::new(
        "macos-metal",
        registry_id.as_str(),
        vendor,
        device.name.as_str(),
    );
    o.identity_priority = 80;
    o.enumeration_ordinal =
    if ordinal as u64 <= u32::MAX as u64 {
        Some(ordinal as u32)
    } else {
        None
    };
    o.kind = kind(device);
    if vendor == GpuVendor::Apple {
        o.architecture = Some(device.name.clone());
    }
    o.memory =
    StaticMemoryInfo {
        topology: if device.unified_memory {
            MemoryTopology::Unified
        } else {
            MemoryTopology::Dedicated
        },
        dedicated_total_bytes: None,
        shared_total_bytes: None,
        unified_total_bytes,
    };
    assert(json_models(o.vendor_info@) == Map::<Seq<char>, JsonModel>::empty());
    insert_entry(&mut o.vendor_info, "metalRegistryId", Some(Json::Text(registry_id.clone())));
    insert_entry(
        &mut o.vendor_info,
        "recommendedMaxWorkingSetBytes",
        Some(Json::Number(JsonNumber::Unsigned(device.recommended_max_working_set_bytes))),
    );
    insert_entry(&mut o.vendor_info, "metalGpuFamilies", Some(name_list(&families)));
    if vendor == GpuVendor::Apple {
        if let Some(family) = newest_apple(&families) {
            insert_entry(&mut o.vendor_info, "gpuFamily", Some(Json::Text(owned(family))));
        }
        if let Some(bytes) = unified_total_bytes {
            insert_entry(
                &mut o.vendor_info,
                "unifiedMemoryTotalBytes",
                Some(Json::Number(JsonNumber::Unsigned(bytes))),
            );
        }
    }
    o.macos =
    Some(MacosIdentity { registry_entry_id: None, metal_registry_id: Some(registry_id) });
    o
}

/// The provider of the devices that Metal lists.
pub struct MetalInventoryProvider;

impl MetalInventoryProvider {
    /// What is observed of the devices that Metal lists.
    pub fn observe(devices: &Vec<MetalDevice>, host_memory: Option<u64>) -> (observations: Vec<
        DeviceObservation,
    >)
        ensures
            observations@.len() == devices@.len(),
            forall|i: int|
                0 <= i < observations@.len() ==> is_metal_observation(
                    #[trigger] observations@[i],
                    devices@[i],
                    i,
                    host_memory,
                ),
    {
        let mut observations: Vec<DeviceObservation> = Vec::new();
        let mut i: usize = 0;
        while i < devices.len()
            invariant
                i <= devices.len(),
                observations@.len() == i,
                forall|k: int|
                    0 <= k < observations@.len() ==> is_metal_observation(
                        #[trigger] observations@[k],
                        devices@[k],
                        k,
                        host_memory,
                    ),
            decreases devices.len() - i,
        {
            observations.push(observe_device(&devices[i], i, host_memory));
            i = i + 1;
        }
        observations
    }

    /// What the provider says of its own state, with the number of devices that Metal lists.
    pub fn diagnostic(devices_matched: usize) -> (diagnostic: ProviderDiagnostic)
        ensures
            diagnostic.id@ == metal_name(),
            diagnostic.loaded,
            diagnostic.version is None,
            diagnostic.devices_matched == devices_matched,
            diagnostic.reason is None,
            diagnostic.message is None,
    {
        ProviderDiagnostic {
            id: owned("macos-metal"),
            loaded: true,
            version: None,
            devices_matched,
            reason: None,
            message: None,
        }
    }

    pub fn metadata() -> (metadata: ProviderMetadata)
        ensures
            metadata.id@ == metal_name(),
            metadata.specificity == 70,
            metadata.reliability == 100,
            forall|key: MetricKey| metadata.priority(key) == 0,
    {
        ProviderMetadata::new("macos-metal", 70, 100)
    }
}

} // verus!
