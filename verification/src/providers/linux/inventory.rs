//! What is known of a device that sysfs shows.
use crate::json::{field_models, json_models, object, push_field, Json, JsonModel, JsonNumber};
use crate::model::{
    metric_place, pci_vendor, pci_view, CapabilitySet, DeviceObservation, GpuKind, GpuVendor,
    MemoryTopology, MetricKey, MetricQuality, PartitionIdentity, PartitionType, PciIdentity,
    PciModel, StaticMemoryInfo,
};
use crate::ordered::{arranged, indices, models, stable_order, stable_order_of, Ordered, Relation};
use crate::providers::linux::hwmon::{
    discover as discover_sensors, hwmon_sources, join_path, path_below, HwmonDirectory,
};
use crate::providers::linux::listing::{child_directories, numbered_children, ChildEntry, PathKey};
use crate::providers::linux::metric::{
    outcome, path_views, source_views, MetricReader, MetricSource, ReaderModel, SourceModel,
    SourceReading,
};
use crate::providers::linux::parse::{
    attribute_number, is_numbered, parse_u64, uevent_field, uevent_value,
};
use crate::sorted_map::{lists_keys, SortedMap, SortedSet};
use crate::text::{
    begins, chars_of, digit_value, extend, extend_text, joined, lines, owned, padded_digits,
    padded_digits_of, relate_text, same, same_text, slice_of, starts_with, string_of, text_less,
    value_of_digit,
};
use vstd::prelude::*;

verus! {

pub const MAX_METRIC_SOURCES_PER_KEY: usize = 32;

/// The name of the provider.
pub open spec fn provider_name() -> Seq<char> {
    "linux-sysfs"@
}

/// The directories of the graphics tiles of a card.
pub struct CardFacts {
    pub card: String,
    pub gts: Vec<ChildEntry>,
}

/// A tile of a device, with what is below it.
pub struct TileFacts {
    pub tile: ChildEntry,
    pub gts: Vec<ChildEntry>,
}

/// What was read of a device.
pub struct DeviceFacts {
    pub device_path: String,
    /// The path below the root of sysfs.
    pub relative_path: String,
    pub pci_address: Option<String>,
    pub drm_nodes: SortedSet<String>,
    /// The names of what `driver/module` and `driver` stand for.
    pub driver_module: Option<String>,
    pub driver_link: Option<String>,
    pub module_version: Option<String>,
    /// The name of what `physfn` stands for.
    pub physical_function: Option<String>,
    /// The texts of the attributes that could be read, by their names.
    pub attributes: SortedMap<String, String>,
    pub hwmon: Vec<HwmonDirectory>,
    pub cards: Vec<CardFacts>,
    pub tiles: Vec<TileFacts>,
    /// Those of the clock attributes that are there, by their paths.
    pub clocks_present: SortedSet<String>,
}

/// The text of an attribute, where it could be read.
pub open spec fn attribute(facts: DeviceFacts, name: Seq<char>) -> Option<Seq<char>> {
    if facts.attributes@.contains_key(name) {
        Some(facts.attributes@[name]@)
    } else {
        None
    }
}

/// The number of an attribute, where it could be read.
pub open spec fn attribute_value(facts: DeviceFacts, name: Seq<char>) -> Option<u64> {
    match attribute(facts, name) {
        None => None,
        Some(text) => match attribute_number(text) {
            Ok(n) => Some(n as u64),
            Err(fault) => None,
        },
    }
}

/// A number of 32 bits.
pub open spec fn small(number: Option<u64>) -> Option<u32> {
    match number {
        Some(n) => if n <= u32::MAX {
            Some(n as u32)
        } else {
            None
        },
        None => None,
    }
}

fn read_attribute<'a>(facts: &'a DeviceFacts, name: &str) -> (text: Option<&'a String>)
    ensures
        match text {
            Some(text) => attribute(*facts, name@) == Some(text@),
            None => attribute(*facts, name@) is None,
        },
{
    facts.attributes.get(&owned(name))
}

fn read_optional_u64(facts: &DeviceFacts, name: &str) -> (value: Option<u64>)
    ensures
        value == attribute_value(*facts, name@),
{
    match read_attribute(facts, name) {
        None => None,
        Some(text) => match parse_u64(text.as_str()) {
            Ok(n) => Some(n),
            Err(words) => None,
        },
    }
}

fn shrink(number: Option<u64>) -> (result: Option<u32>)
    ensures
        result == small(number),
{
    match number {
        Some(n) => if n <= u32::MAX as u64 {
            Some(n as u32)
        } else {
            None
        },
        None => None,
    }
}

/// What stands after the last slash of a path.
pub open spec fn base_name(path: Seq<char>) -> Seq<char>
    decreases path.len(),
{
    if path.len() == 0 || path.last() == '/' {
        Seq::empty()
    } else {
        base_name(path.drop_last()).push(path.last())
    }
}

fn base_name_of(path: &str) -> (name: String)
    ensures
        name@ == base_name(path@),
{
    let chars = chars_of(path);
    let mut from: usize = chars.len();
    assert(chars@.take(from as int) == chars@);
    assert(chars@.subrange(from as int, chars@.len() as int) == Seq::<char>::empty());
    assert(base_name(chars@) == base_name(chars@.take(from as int)) + chars@.subrange(
        from as int,
        chars@.len() as int,
    ));
    while from > 0 && chars[from - 1] != '/'
        invariant
            from <= chars.len(),
            base_name(chars@) == base_name(chars@.take(from as int)) + chars@.subrange(
                from as int,
                chars@.len() as int,
            ),
        decreases from,
    {
        assert(chars@.take(from as int).drop_last() == chars@.take(from - 1));
        assert(chars@.subrange(from - 1, chars@.len() as int) == seq![chars@[from - 1]]
            + chars@.subrange(from as int, chars@.len() as int));
        from = from - 1;
        assert(base_name(chars@) == base_name(chars@.take(from as int)) + chars@.subrange(
            from as int,
            chars@.len() as int,
        ));
    }
    let name = slice_of(&chars, from, chars.len());
    assert(base_name(chars@.take(from as int)) == Seq::<char>::empty());
    assert(name@ == base_name(path@));
    string_of(&name)
}

/// A hexadecimal digit.
pub open spec fn is_hex(c: char) -> bool {
    digit_value(c, 16) is Some
}

/// The character at place `i` is one that a PCI address has there.
pub open spec fn fits_address(text: Seq<char>, i: int) -> bool {
    if i == 4 || i == 7 || i == 10 {
        text[i] == ':' || text[i] == '.'
    } else {
        is_hex(text[i])
    }
}

/// A PCI address: a domain of four digits, a bus and a device of two, a function of one, all
/// hexadecimal, with colons or points between them.
pub open spec fn is_pci_address(text: Seq<char>) -> bool {
    text.len() == 12 && forall|i: int| 0 <= i < 12 ==> #[trigger] fits_address(text, i)
}

pub fn looks_like_pci_address(value: &str) -> (result: bool)
    ensures
        result == is_pci_address(value@),
{
    let chars = chars_of(value);
    if chars.len() != 12 {
        return false;
    }
    let mut i: usize = 0;
    while i < 12
        invariant
            i <= 12,
            chars@ == value@,
            chars@.len() == 12,
            forall|k: int| 0 <= k < i ==> #[trigger] fits_address(chars@, k),
        decreases 12 - i,
    {
        let c: char = chars[i];
        let fits = if i == 4 || i == 7 || i == 10 {
            c == ':' || c == '.'
        } else {
            value_of_digit(c, 16).is_some()
        };
        if !fits {
            assert(!fits_address(chars@, i as int));
            return false;
        }
        i = i + 1;
    }
    true
}

/// The PCI identity of a device: its vendor and device numbers have to be there and to fit. The
/// address is the one of the bus, or else the name of the directory where that is one.
pub open spec fn pci_facts(facts: DeviceFacts) -> Option<PciModel> {
    match (
        small(attribute_value(facts, "vendor"@)),
        small(attribute_value(facts, "device"@)),
    ) {
        (Some(vendor_id), Some(device_id)) => Some(
            PciModel {
                address: match facts.pci_address {
                    Some(address) => Some(address@),
                    None => if is_pci_address(base_name(facts.device_path@)) {
                        Some(base_name(facts.device_path@))
                    } else {
                        None
                    },
                },
                vendor_id,
                device_id,
                subsystem_vendor_id: small(attribute_value(facts, "subsystem_vendor"@)),
                subsystem_device_id: small(attribute_value(facts, "subsystem_device"@)),
            },
        ),
        _ => None,
    }
}

fn pci_identity(facts: &DeviceFacts) -> (pci: Option<PciIdentity>)
    ensures
        match pci {
            Some(pci) => pci_facts(*facts) == Some(pci_view(pci)),
            None => pci_facts(*facts) is None,
        },
{
    let vendor_id: u32 = match shrink(read_optional_u64(facts, "vendor")) {
        Some(n) => n,
        None => {
            return None;
        },
    };
    let device_id: u32 = match shrink(read_optional_u64(facts, "device")) {
        Some(n) => n,
        None => {
            return None;
        },
    };
    let address = match &facts.pci_address {
        Some(address) => Some(address.clone()),
        None => {
            let name = base_name_of(facts.device_path.as_str());
            if looks_like_pci_address(name.as_str()) {
                Some(name)
            } else {
                None
            }
        },
    };
    Some(
        PciIdentity {
            address,
            vendor_id,
            device_id,
            subsystem_vendor_id: shrink(read_optional_u64(facts, "subsystem_vendor")),
            subsystem_device_id: shrink(read_optional_u64(facts, "subsystem_device")),
        },
    )
}

/// The memory of a device.
pub open spec fn memory_facts(facts: DeviceFacts) -> StaticMemoryInfo {
    let dedicated = attribute_value(facts, "mem_info_vram_total"@);
    let shared = attribute_value(facts, "mem_info_gtt_total"@);
    let has_dedicated = dedicated is Some && dedicated->0 > 0;
    let has_shared = shared is Some && shared->0 > 0;
    StaticMemoryInfo {
        topology: if has_dedicated && has_shared {
            MemoryTopology::Mixed
        } else if has_dedicated {
            MemoryTopology::Dedicated
        } else if has_shared {
            MemoryTopology::Shared
        } else {
            MemoryTopology::Unknown
        },
        dedicated_total_bytes: dedicated,
        shared_total_bytes: shared,
        unified_total_bytes: None,
    }
}

fn static_memory(facts: &DeviceFacts) -> (memory: StaticMemoryInfo)
    ensures
        memory == memory_facts(*facts),
{
    let dedicated = read_optional_u64(facts, "mem_info_vram_total");
    let shared = read_optional_u64(facts, "mem_info_gtt_total");
    let has_dedicated = match dedicated {
        Some(n) => n > 0,
        None => false,
    };
    let has_shared = match shared {
        Some(n) => n > 0,
        None => false,
    };
    StaticMemoryInfo {
        topology: if has_dedicated && has_shared {
            MemoryTopology::Mixed
        } else if has_dedicated {
            MemoryTopology::Dedicated
        } else if has_shared {
            MemoryTopology::Shared
        } else {
            MemoryTopology::Unknown
        },
        dedicated_total_bytes: dedicated,
        shared_total_bytes: shared,
        unified_total_bytes: None,
    }
}

/// The name of the driver of a device.
pub open spec fn driver_of(facts: DeviceFacts) -> Option<Seq<char>> {
    match (facts.driver_module, facts.driver_link) {
        (Some(name), _) => Some(name@),
        (None, Some(name)) => Some(name@),
        (None, None) => match attribute(facts, "uevent"@) {
            Some(text) => uevent_field(lines(text), "DRIVER"@),
            None => None,
        },
    }
}

fn driver_name(facts: &DeviceFacts) -> (driver: Option<String>)
    ensures
        match driver {
            Some(name) => driver_of(*facts) == Some(name@),
            None => driver_of(*facts) is None,
        },
{
    if let Some(name) = &facts.driver_module {
        return Some(name.clone());
    }
    if let Some(name) = &facts.driver_link {
        return Some(name.clone());
    }
    match read_attribute(facts, "uevent") {
        Some(text) => uevent_value(text.as_str(), "DRIVER"),
        None => None,
    }
}

/// The vendor that a driver stands for.
pub open spec fn driver_vendor(driver: Option<Seq<char>>) -> GpuVendor {
    if driver == Some("amdgpu"@) || driver == Some("radeon"@) {
        GpuVendor::Amd
    } else if driver == Some("i915"@) || driver == Some("xe"@) {
        GpuVendor::Intel
    } else if driver == Some("nvidia"@) || driver == Some("nouveau"@) {
        GpuVendor::Nvidia
    } else if driver == Some("asahi"@) {
        GpuVendor::Apple
    } else {
        GpuVendor::Unknown
    }
}

/// The kind of device that a driver stands for.
pub open spec fn driver_kind(driver: Option<Seq<char>>) -> GpuKind {
    if driver == Some("virtio_gpu"@) || driver == Some("qxl"@) || driver == Some("vmwgfx"@)
        || driver == Some("bochs"@) {
        GpuKind::Virtual
    } else if driver == Some("asahi"@) {
        GpuKind::Integrated
    } else {
        GpuKind::Unknown
    }
}

/// A driver of something that only looks like a display device.
pub open spec fn is_software(driver: Option<Seq<char>>) -> bool {
    driver == Some("simpledrm"@) || driver == Some("simple-framebuffer"@) || driver == Some(
        "efi-framebuffer"@,
    ) || driver == Some("vkms"@) || driver == Some("vgem"@)
}

/// A text that may be missing, by its contents.
pub open spec fn opt_view(text: Option<String>) -> Option<Seq<char>> {
    match text {
        Some(text) => Some(text@),
        None => None,
    }
}

fn is_driver(driver: &Option<String>, name: &str) -> (same: bool)
    ensures
        same == (opt_view(*driver) == Some(name@)),
{
    match driver {
        Some(text) => same_text(text.as_str(), name),
        None => false,
    }
}

pub fn vendor_from_driver(driver: &Option<String>) -> (vendor: GpuVendor)
    ensures
        vendor == driver_vendor(opt_view(*driver)),
{
    if is_driver(driver, "amdgpu") || is_driver(driver, "radeon") {
        GpuVendor::Amd
    } else if is_driver(driver, "i915") || is_driver(driver, "xe") {
        GpuVendor::Intel
    } else if is_driver(driver, "nvidia") || is_driver(driver, "nouveau") {
        GpuVendor::Nvidia
    } else if is_driver(driver, "asahi") {
        GpuVendor::Apple
    } else {
        GpuVendor::Unknown
    }
}

pub fn gpu_kind(driver: &Option<String>) -> (kind: GpuKind)
    ensures
        kind == driver_kind(opt_view(*driver)),
{
    if is_driver(driver, "virtio_gpu") || is_driver(driver, "qxl") || is_driver(driver, "vmwgfx")
        || is_driver(driver, "bochs") {
        GpuKind::Virtual
    } else if is_driver(driver, "asahi") {
        GpuKind::Integrated
    } else {
        GpuKind::Unknown
    }
}

pub fn is_software_driver(driver: &Option<String>) -> (software: bool)
    ensures
        software == is_software(opt_view(*driver)),
{
    is_driver(driver, "simpledrm") || is_driver(driver, "simple-framebuffer") || is_driver(
        driver,
        "efi-framebuffer",
    ) || is_driver(driver, "vkms") || is_driver(driver, "vgem")
}

/// The vendor of a device: by its PCI number, or else by its driver.
pub open spec fn device_vendor(facts: DeviceFacts) -> GpuVendor {
    match pci_facts(facts) {
        Some(pci) => pci_vendor(pci.vendor_id),
        None => driver_vendor(driver_of(facts)),
    }
}

/// The vendor as it stands in the name of a device.
pub open spec fn vendor_title(vendor: GpuVendor) -> Seq<char> {
    match vendor {
        GpuVendor::Nvidia => "NVIDIA"@,
        GpuVendor::Amd => "AMD"@,
        GpuVendor::Intel => "Intel"@,
        GpuVendor::Apple => "Apple"@,
        GpuVendor::Unknown => "Unknown"@,
    }
}

fn vendor_title_text(vendor: GpuVendor) -> (text: &'static str)
    ensures
        text@ == vendor_title(vendor),
{
    match vendor {
        GpuVendor::Nvidia => "NVIDIA",
        GpuVendor::Amd => "AMD",
        GpuVendor::Intel => "Intel",
        GpuVendor::Apple => "Apple",
        GpuVendor::Unknown => "Unknown",
    }
}

/// The name of a device: what it calls itself, or else its vendor and number.
pub open spec fn device_name(facts: DeviceFacts) -> Seq<char> {
    match attribute(facts, "product_name"@) {
        Some(name) if name.len() > 0 => name,
        _ => match pci_facts(facts) {
            None => vendor_title(device_vendor(facts)) + " GPU"@,
            Some(pci) => vendor_title(device_vendor(facts)) + " GPU 0x"@ + padded_digits(
                pci.device_id as nat,
                16,
                4,
            ),
        },
    }
}

fn gpu_name(facts: &DeviceFacts, vendor: GpuVendor, pci: &Option<PciIdentity>) -> (name: String)
    requires
        vendor == device_vendor(*facts),
        match *pci {
            Some(pci) => pci_facts(*facts) == Some(pci_view(pci)),
            None => pci_facts(*facts) is None,
        },
    ensures
        name@ == device_name(*facts),
{
    if let Some(name) = read_attribute(facts, "product_name") {
        if !name.as_str().is_empty() {
            return name.clone();
        }
    }
    let mut out = chars_of(vendor_title_text(vendor));
    match pci {
        None => {
            extend_text(&mut out, " GPU");
        },
        Some(pci) => {
            extend_text(&mut out, " GPU 0x");
            let digits = padded_digits_of(pci.device_id as u64, 16, 4);
            extend(&mut out, &digits);
        },
    }
    string_of(&out)
}

/// How the provider names a device: by its PCI address, or else by its path.
pub open spec fn device_id_of(facts: DeviceFacts) -> Seq<char> {
    match pci_facts(facts) {
        Some(pci) => match pci.address {
            Some(address) => address,
            None => "platform:"@ + facts.relative_path@,
        },
        None => "platform:"@ + facts.relative_path@,
    }
}

/// The device that a virtual function belongs to.
pub open spec fn parent_of(facts: DeviceFacts) -> Option<Seq<char>> {
    match facts.physical_function {
        Some(name) => if is_pci_address(name@) {
            Some(name@)
        } else {
            None
        },
        None => None,
    }
}

/// The attributes that AMD devices have.
#[derive(Clone, Copy, Debug, PartialEq, Eq, Structural)]
pub enum AmdAttribute {
    Busy,
    MemoryBusy,
    VramUsed,
    GttUsed,
    GraphicsClock,
    MemoryClock,
}

/// The attributes of AMD devices, in the order in which they are looked for.
pub open spec fn amd_attributes() -> Seq<AmdAttribute> {
    seq![
        AmdAttribute::Busy,
        AmdAttribute::MemoryBusy,
        AmdAttribute::VramUsed,
        AmdAttribute::GttUsed,
        AmdAttribute::GraphicsClock,
        AmdAttribute::MemoryClock,
    ]
}

pub open spec fn amd_name(attribute: AmdAttribute) -> Seq<char> {
    match attribute {
        AmdAttribute::Busy => "gpu_busy_percent"@,
        AmdAttribute::MemoryBusy => "mem_busy_percent"@,
        AmdAttribute::VramUsed => "mem_info_vram_used"@,
        AmdAttribute::GttUsed => "mem_info_gtt_used"@,
        AmdAttribute::GraphicsClock => "pp_dpm_sclk"@,
        AmdAttribute::MemoryClock => "pp_dpm_mclk"@,
    }
}

/// The source that an attribute of an AMD device gives.
pub open spec fn amd_source(device: Seq<char>, attribute: AmdAttribute) -> SourceModel {
    let path = path_below(device, amd_name(attribute));
    let (key, reader, definition) = match attribute {
        AmdAttribute::Busy => (
            MetricKey::UtilizationOverall,
            ReaderModel::Percent(path),
            "AMD SMU-reported GPU busy percentage"@,
        ),
        AmdAttribute::MemoryBusy => (
            MetricKey::MemoryBandwidthUtilizationPercent,
            ReaderModel::Percent(path),
            "AMD SMU-reported memory-controller busy percentage"@,
        ),
        AmdAttribute::VramUsed => (
            MetricKey::MemoryDedicatedUsedBytes,
            ReaderModel::Bytes(path),
            "AMD kernel-reported VRAM usage in bytes"@,
        ),
        AmdAttribute::GttUsed => (
            MetricKey::MemorySharedUsedBytes,
            ReaderModel::Bytes(path),
            "AMD kernel-reported GTT usage in bytes"@,
        ),
        AmdAttribute::GraphicsClock => (
            MetricKey::ClockGraphicsMhz,
            ReaderModel::ActiveDpmMhz(path),
            "active AMD graphics DPM state clock in MHz"@,
        ),
        AmdAttribute::MemoryClock => (
            MetricKey::ClockMemoryMhz,
            ReaderModel::ActiveDpmMhz(path),
            "active AMD memory DPM state clock in MHz"@,
        ),
    };
    SourceModel { key, reader, quality: MetricQuality::Direct, definition, priority: 200 }
}

/// The sources of those attributes that can be read.
pub open spec fn amd_sources(facts: DeviceFacts, attributes: Seq<AmdAttribute>) -> Seq<SourceModel>
    decreases attributes.len(),
{
    if attributes.len() == 0 {
        Seq::empty()
    } else {
        let before = amd_sources(facts, attributes.drop_last());
        if attribute(facts, amd_name(attributes.last())) is Some {
            before.push(amd_source(facts.device_path@, attributes.last()))
        } else {
            before
        }
    }
}

fn amd_name_text(attribute: AmdAttribute) -> (name: &'static str)
    ensures
        name@ == amd_name(attribute),
{
    match attribute {
        AmdAttribute::Busy => "gpu_busy_percent",
        AmdAttribute::MemoryBusy => "mem_busy_percent",
        AmdAttribute::VramUsed => "mem_info_vram_used",
        AmdAttribute::GttUsed => "mem_info_gtt_used",
        AmdAttribute::GraphicsClock => "pp_dpm_sclk",
        AmdAttribute::MemoryClock => "pp_dpm_mclk",
    }
}

fn make_amd_source(device: &str, attribute: AmdAttribute) -> (source: MetricSource)
    ensures
        source@ == amd_source(device@, attribute),
{
    let path = join_path(device, amd_name_text(attribute));
    match attribute {
        AmdAttribute::Busy => MetricSource::new(
            MetricKey::UtilizationOverall,
            MetricReader::Percent(path),
            MetricQuality::Direct,
            "AMD SMU-reported GPU busy percentage",
            200,
        ),
        AmdAttribute::MemoryBusy => MetricSource::new(
            MetricKey::MemoryBandwidthUtilizationPercent,
            MetricReader::Percent(path),
            MetricQuality::Direct,
            "AMD SMU-reported memory-controller busy percentage",
            200,
        ),
        AmdAttribute::VramUsed => MetricSource::new(
            MetricKey::MemoryDedicatedUsedBytes,
            MetricReader::Bytes(path),
            MetricQuality::Direct,
            "AMD kernel-reported VRAM usage in bytes",
            200,
        ),
        AmdAttribute::GttUsed => MetricSource::new(
            MetricKey::MemorySharedUsedBytes,
            MetricReader::Bytes(path),
            MetricQuality::Direct,
            "AMD kernel-reported GTT usage in bytes",
            200,
        ),
        AmdAttribute::GraphicsClock => MetricSource::new(
            MetricKey::ClockGraphicsMhz,
            MetricReader::ActiveDpmMhz(path),
            MetricQuality::Direct,
            "active AMD graphics DPM state clock in MHz",
            200,
        ),
        AmdAttribute::MemoryClock => MetricSource::new(
            MetricKey::ClockMemoryMhz,
            MetricReader::ActiveDpmMhz(path),
            MetricQuality::Direct,
            "active AMD memory DPM state clock in MHz",
            200,
        ),
    }
}

fn discover_amd(sources: &mut Vec<MetricSource>, facts: &DeviceFacts)
    ensures
        source_views(final(sources)@) == source_views(old(sources)@) + amd_sources(
            *facts,
            amd_attributes(),
        ),
{
    let ghost before = source_views(sources@);
    let attributes: Vec<AmdAttribute> = vec![
        AmdAttribute::Busy,
        AmdAttribute::MemoryBusy,
        AmdAttribute::VramUsed,
        AmdAttribute::GttUsed,
        AmdAttribute::GraphicsClock,
        AmdAttribute::MemoryClock,
    ];
    assert(attributes@ == amd_attributes());
    let mut i: usize = 0;
    while i < attributes.len()
        invariant
            i <= attributes.len(),
            source_views(sources@) == before + amd_sources(*facts, attributes@.take(i as int)),
        decreases attributes.len() - i,
    {
        assert(attributes@.take(i + 1).drop_last() == attributes@.take(i as int));
        let ghost held = source_views(sources@);
        if read_attribute(facts, amd_name_text(attributes[i])).is_some() {
            let source = make_amd_source(facts.device_path.as_str(), attributes[i]);
            sources.push(source);
            assert(source_views(sources@) == held.push(source@));
        }
        i = i + 1;
    }
    assert(attributes@.take(i as int) == attributes@);
}

/// The clock attributes of the graphics tiles below a directory.
pub open spec fn gt_clocks(gts: Seq<Seq<char>>, attribute: Seq<char>) -> Seq<Seq<char>> {
    gts.map_values(|gt: Seq<char>| path_below(gt, attribute))
}

/// The clock attributes that the i915 driver may have for a card.
pub open spec fn card_clocks(device: Seq<char>, card: CardFacts) -> Seq<Seq<char>> {
    seq![path_below(path_below(path_below(device, "drm"@), card.card@), "gt_cur_freq_mhz"@)]
        + gt_clocks(numbered_children(card.gts@, "gt"@), "rps_cur_freq_mhz"@)
}

/// The clock attributes that the i915 driver may have for the given cards.
pub open spec fn all_card_clocks(device: Seq<char>, cards: Seq<CardFacts>) -> Seq<Seq<char>>
    decreases cards.len(),
{
    if cards.len() == 0 {
        Seq::empty()
    } else {
        let before = all_card_clocks(device, cards.drop_last());
        if starts_with(cards.last().card@, "card"@) {
            before + card_clocks(device, cards.last())
        } else {
            before
        }
    }
}

/// The clock attributes that the i915 driver may have.
pub open spec fn i915_clocks(facts: DeviceFacts) -> Seq<Seq<char>> {
    seq![path_below(facts.device_path@, "gt_cur_freq_mhz"@)] + all_card_clocks(
        facts.device_path@,
        facts.cards@,
    )
}

/// The clock attributes that the xe driver may have below the given tiles.
pub open spec fn tile_clocks(tiles: Seq<TileFacts>) -> Seq<Seq<char>>
    decreases tiles.len(),
{
    if tiles.len() == 0 {
        Seq::empty()
    } else {
        let before = tile_clocks(tiles.drop_last());
        if is_numbered(tiles.last().tile.name@, "tile"@) && tiles.last().tile.directory is Some {
            before + gt_clocks(numbered_children(tiles.last().gts@, "gt"@), "freq0/act_freq"@)
        } else {
            before
        }
    }
}

fn push_gt_clocks(paths: &mut Vec<String>, gts: &Vec<ChildEntry>, attribute: &str)
    ensures
        path_views(final(paths)@) == path_views(old(paths)@) + gt_clocks(
            numbered_children(gts@, "gt"@),
            attribute@,
        ),
{
    let ghost before = path_views(paths@);
    let directories = child_directories(gts, "gt");
    let ghost all = directories@.map_values(|p: String| p@);
    let ghost clocks = gt_clocks(all, attribute@);
    let mut i: usize = 0;
    while i < directories.len()
        invariant
            i <= directories.len(),
            all == directories@.map_values(|p: String| p@),
            clocks == gt_clocks(all, attribute@),
            path_views(paths@) == before + clocks.take(i as int),
        decreases directories.len() - i,
    {
        let ghost held = path_views(paths@);
        let path = join_path(directories[i].as_str(), attribute);
        paths.push(path);
        i = i + 1;
        assert(path_views(paths@) == held.push(path@));
        assert(path@ == clocks[i - 1]);
        assert(clocks.take(i as int) == clocks.take(i - 1).push(clocks[i - 1]));
    }
    assert(clocks.take(i as int) == clocks);
}

/// The clock attributes that the i915 driver may have.
pub fn i915_candidates(facts: &DeviceFacts) -> (paths: Vec<String>)
    ensures
        path_views(paths@) == i915_clocks(*facts),
{
    let device = facts.device_path.as_str();
    let mut paths: Vec<String> = Vec::new();
    let first = join_path(device, "gt_cur_freq_mhz");
    paths.push(first);
    let ghost head = path_views(paths@);
    assert(head == seq![path_below(facts.device_path@, "gt_cur_freq_mhz"@)]);
    let mut i: usize = 0;
    while i < facts.cards.len()
        invariant
            i <= facts.cards.len(),
            device@ == facts.device_path@,
            path_views(paths@) == head + all_card_clocks(device@, facts.cards@.take(i as int)),
        decreases facts.cards.len() - i,
    {
        assert(facts.cards@.take(i + 1).drop_last() == facts.cards@.take(i as int));
        let card = &facts.cards[i];
        let name = chars_of(card.card.as_str());
        if begins(&name, "card") {
            let ghost held = path_views(paths@);
            let drm = join_path(device, "drm");
            let directory = join_path(drm.as_str(), card.card.as_str());
            let legacy = join_path(directory.as_str(), "gt_cur_freq_mhz");
            paths.push(legacy);
            assert(path_views(paths@) == held.push(legacy@));
            push_gt_clocks(&mut paths, &card.gts, "rps_cur_freq_mhz");
            assert(path_views(paths@) == held + card_clocks(device@, *card));
        }
        i = i + 1;
    }
    assert(facts.cards@.take(i as int) == facts.cards@);
    paths
}

/// The clock attributes that the xe driver may have.
pub fn xe_candidates(facts: &DeviceFacts) -> (paths: Vec<String>)
    ensures
        path_views(paths@) == tile_clocks(facts.tiles@),
{
    let mut paths: Vec<String> = Vec::new();
    let mut i: usize = 0;
    assert(path_views(paths@) == Seq::<Seq<char>>::empty());
    while i < facts.tiles.len()
        invariant
            i <= facts.tiles.len(),
            path_views(paths@) == tile_clocks(facts.tiles@.take(i as int)),
        decreases facts.tiles.len() - i,
    {
        assert(facts.tiles@.take(i + 1).drop_last() == facts.tiles@.take(i as int));
        let tile = &facts.tiles[i];
        let name = chars_of(tile.tile.name.as_str());
        if tile.tile.directory.is_some() && crate::providers::linux::parse::has_number(
            &name,
            "tile",
        ) {
            push_gt_clocks(&mut paths, &tile.gts, "freq0/act_freq");
        }
        i = i + 1;
    }
    assert(facts.tiles@.take(i as int) == facts.tiles@);
    paths
}

/// Those of the paths that are there.
pub open spec fn present_paths(paths: Seq<Seq<char>>, present: Set<Seq<char>>) -> Seq<Seq<char>>
    decreases paths.len(),
{
    if paths.len() == 0 {
        Seq::empty()
    } else if present.contains(paths.last()) {
        present_paths(paths.drop_last(), present).push(paths.last())
    } else {
        present_paths(paths.drop_last(), present)
    }
}

/// Paths in ascending order, by their components.
pub open spec fn sorted_paths(paths: Seq<Seq<char>>) -> Seq<Seq<char>> {
    arranged(paths, stable_order_of::<PathKey>(paths))
}

/// Those of the paths that are there, in ascending order.
fn keep_present(paths: &Vec<String>, present: &SortedSet<String>) -> (kept: Vec<String>)
    ensures
        path_views(kept@) == sorted_paths(present_paths(path_views(paths@), present@)),
{
    let ghost all = path_views(paths@);
    let mut kept: Vec<String> = Vec::new();
    let mut keys: Vec<PathKey> = Vec::new();
    let mut i: usize = 0;
    assert(all.take(0) == Seq::<Seq<char>>::empty());
    assert(path_views(kept@) == Seq::<Seq<char>>::empty());
    while i < paths.len()
        invariant
            i <= paths.len(),
            all == path_views(paths@),
            path_views(kept@) == present_paths(all.take(i as int), present@),
            keys.len() == kept.len(),
            forall|k: int| 0 <= k < keys.len() ==> (#[trigger] keys@[k]).path@ == kept@[k]@,
        decreases paths.len() - i,
    {
        assert(all.take(i + 1).drop_last() == all.take(i as int));
        assert(all.take(i + 1).last() == paths@[i as int]@);
        let ghost held = path_views(kept@);
        if present.contains(&paths[i]) {
            kept.push(paths[i].clone());
            keys.push(PathKey { path: paths[i].clone() });
            assert(path_views(kept@) == held.push(paths@[i as int]@));
        }
        i = i + 1;
    }
    assert(all.take(i as int) == all);
    let ghost found = path_views(kept@);
    let order = stable_order(&keys);
    assert(models(keys@) == found);
    let sorted = crate::ordered::arrange(kept, &order);
    proof {
        crate::ordered::lemma_stable_order_exists::<PathKey>(found);
        let expected = sorted_paths(found);
        assert forall|k: int| 0 <= k < sorted@.len() implies path_views(sorted@)[k]
            == expected[k] by {
            assert(0 <= indices(order@)[k] < found.len());
        }
        assert(path_views(sorted@) == expected);
    }
    sorted
}

/// A sorted list with equal neighbours once.
pub open spec fn without_repeats(paths: Seq<Seq<char>>) -> Seq<Seq<char>>
    decreases paths.len(),
{
    if paths.len() == 0 {
        Seq::empty()
    } else {
        let before = without_repeats(paths.drop_last());
        if before.len() > 0 && before.last() == paths.last() {
            before
        } else {
            before.push(paths.last())
        }
    }
}

fn drop_repeats(paths: Vec<String>) -> (kept: Vec<String>)
    ensures
        path_views(kept@) == without_repeats(path_views(paths@)),
{
    let ghost all = path_views(paths@);
    let mut kept: Vec<String> = Vec::new();
    let mut i: usize = 0;
    assert(all.take(0) == Seq::<Seq<char>>::empty());
    assert(path_views(kept@) == Seq::<Seq<char>>::empty());
    while i < paths.len()
        invariant
            i <= paths.len(),
            all == path_views(paths@),
            path_views(kept@) == without_repeats(all.take(i as int)),
        decreases paths.len() - i,
    {
        assert(all.take(i + 1).drop_last() == all.take(i as int));
        assert(all.take(i + 1).last() == paths@[i as int]@);
        let ghost held = path_views(kept@);
        let repeated = if kept.len() > 0 {
            assert(held.last() == kept@[kept@.len() - 1]@);
            kept[kept.len() - 1] == paths[i]
        } else {
            false
        };
        if !repeated {
            kept.push(paths[i].clone());
            assert(path_views(kept@) == held.push(paths@[i as int]@));
        }
        i = i + 1;
    }
    assert(all.take(i as int) == all);
    kept
}

/// The source of the clocks at the given paths, where there are any.
pub open spec fn clock_source(paths: Seq<Seq<char>>, definition: Seq<char>) -> Seq<SourceModel> {
    if paths.len() == 0 {
        Seq::empty()
    } else {
        seq![
            SourceModel {
                key: MetricKey::ClockGraphicsMhz,
                reader: ReaderModel::MaximumMhz(paths),
                quality: MetricQuality::Direct,
                definition,
                priority: 180,
            },
        ]
    }
}

fn push_clock_source(sources: &mut Vec<MetricSource>, paths: Vec<String>, definition: &str)
    ensures
        source_views(final(sources)@) == source_views(old(sources)@) + clock_source(
            path_views(paths@),
            definition@,
        ),
{
    let ghost before = source_views(sources@);
    let ghost views = path_views(paths@);
    if paths.len() > 0 {
        let source = MetricSource::new(
            MetricKey::ClockGraphicsMhz,
            MetricReader::MaximumMhz(paths),
            MetricQuality::Direct,
            definition,
            180,
        );
        sources.push(source);
        assert(source_views(sources@) == before.push(source@));
    }
    assert(source_views(sources@) == before + clock_source(views, definition@));
}

/// All sources of a device of the given vendor with the given driver, in the order in which they
/// are found.
pub open spec fn sources_with(
    facts: DeviceFacts,
    vendor: GpuVendor,
    driver: Option<Seq<char>>,
) -> Seq<SourceModel> {
    hwmon_sources(facts.hwmon@, vendor) + (if vendor == GpuVendor::Amd || driver == Some(
        "amdgpu"@,
    ) {
        amd_sources(facts, amd_attributes())
    } else {
        Seq::empty()
    }) + (if driver == Some("i915"@) {
        clock_source(
            without_repeats(
                sorted_paths(present_paths(i915_clocks(facts), facts.clocks_present@)),
            ),
            "maximum current Intel i915 GT frequency in MHz"@,
        )
    } else {
        Seq::empty()
    }) + (if driver == Some("xe"@) {
        clock_source(
            sorted_paths(present_paths(tile_clocks(facts.tiles@), facts.clocks_present@)),
            "maximum current Intel Xe GT frequency across tiles in MHz"@,
        )
    } else {
        Seq::empty()
    })
}

/// All sources of a device, in the order in which they are found.
pub open spec fn device_sources(facts: DeviceFacts) -> Seq<SourceModel> {
    sources_with(facts, device_vendor(facts), driver_of(facts))
}

/// What the sources of a metric are ordered by: the higher priority first, then the definition.
pub struct SourceKey {
    pub priority: i16,
    pub definition: String,
}

/// A source key by its contents.
pub struct SourcePlace {
    pub priority: i16,
    pub definition: Seq<char>,
}

impl Ordered for SourceKey {
    type Model = SourcePlace;

    open spec fn model(&self) -> SourcePlace {
        SourcePlace { priority: self.priority, definition: self.definition@ }
    }

    open spec fn less(a: SourcePlace, b: SourcePlace) -> bool {
        if a.priority != b.priority {
            a.priority > b.priority
        } else {
            text_less(a.definition, b.definition)
        }
    }

    proof fn less_irreflexive(a: SourcePlace) {
        String::less_irreflexive(a.definition);
    }

    proof fn less_transitive(a: SourcePlace, b: SourcePlace, c: SourcePlace) {
        if a.priority == b.priority && b.priority == c.priority {
            String::less_transitive(a.definition, b.definition, c.definition);
        }
    }

    proof fn less_total(a: SourcePlace, b: SourcePlace) {
        String::less_total(a.definition, b.definition);
    }

    fn relation(&self, other: &Self) -> (relation: Relation) {
        if self.priority > other.priority {
            Relation::Before
        } else if self.priority < other.priority {
            Relation::After
        } else {
            relate_text(self.definition.as_str(), other.definition.as_str())
        }
    }
}

/// The sources of one metric.
#[derive(Debug)]
pub struct SourceGroup {
    pub key: MetricKey,
    pub sources: Vec<MetricSource>,
}

/// The sources of one metric, in the order in which they were found.
pub open spec fn sources_for(sources: Seq<SourceModel>, key: MetricKey) -> Seq<SourceModel>
    decreases sources.len(),
{
    if sources.len() == 0 {
        Seq::empty()
    } else if sources.last().key == key {
        sources_for(sources.drop_last(), key).push(sources.last())
    } else {
        sources_for(sources.drop_last(), key)
    }
}

/// The sources of one metric, the best first, as many as are kept.
pub open spec fn best_sources(sources: Seq<SourceModel>, key: MetricKey) -> Seq<SourceModel> {
    let all = sources_for(sources, key);
    let sorted = arranged(
        all,
        stable_order_of::<SourceKey>(
            all.map_values(
                |s: SourceModel|
                    SourcePlace { priority: s.priority, definition: s.definition },
            ),
        ),
    );
    if sorted.len() > MAX_METRIC_SOURCES_PER_KEY {
        sorted.take(MAX_METRIC_SOURCES_PER_KEY as int)
    } else {
        sorted
    }
}

/// The metrics of groups of sources.
pub open spec fn group_keys(groups: Seq<SourceGroup>) -> Seq<MetricKey> {
    groups.map_values(|group: SourceGroup| group.key)
}

/// Sources by metric: every metric that has any, in the order of the metrics, with its best
/// sources.
pub open spec fn groups_sources(groups: Seq<SourceGroup>, sources: Seq<SourceModel>) -> bool {
    &&& lists_keys::<MetricKey>(
        group_keys(groups),
        Set::new(|key: MetricKey| sources_for(sources, key).len() > 0),
    )
    &&& forall|i: int|
        0 <= i < groups.len() ==> source_views((#[trigger] groups[i]).sources@) == best_sources(
            sources,
            groups[i].key,
        )
}

/// All sources of a device of the given vendor with the given driver, in the order in which they
/// are found. The directories of sensors are used up.
pub fn discover_device_sources(
    facts: &mut DeviceFacts,
    vendor: GpuVendor,
    driver: &Option<String>,
) -> (sources: Vec<MetricSource>)
    ensures
        source_views(sources@) == sources_with(*old(facts), vendor, opt_view(*driver)),
        final(facts).hwmon@.len() == 0,
        *final(facts) == (DeviceFacts { hwmon: final(facts).hwmon, ..*old(facts) }),
{
    let ghost given = *facts;
    let mut directories: Vec<HwmonDirectory> = Vec::new();
    std::mem::swap(&mut directories, &mut facts.hwmon);
    assert(*facts == DeviceFacts { hwmon: facts.hwmon, ..given });
    let mut sources = discover_sensors(directories, vendor);
    let ghost a = source_views(sources@);
    if vendor == GpuVendor::Amd || is_driver(driver, "amdgpu") {
        discover_amd(&mut sources, facts);
    }
    let ghost b = source_views(sources@);
    if is_driver(driver, "i915") {
        let candidates = i915_candidates(facts);
        let present = keep_present(&candidates, &facts.clocks_present);
        let paths = drop_repeats(present);
        push_clock_source(
            &mut sources,
            paths,
            "maximum current Intel i915 GT frequency in MHz",
        );
    }
    let ghost c = source_views(sources@);
    if is_driver(driver, "xe") {
        let candidates = xe_candidates(facts);
        let paths = keep_present(&candidates, &facts.clocks_present);
        push_clock_source(
            &mut sources,
            paths,
            "maximum current Intel Xe GT frequency across tiles in MHz",
        );
    }
    proof {
        lemma_amd_sources_same(*facts, given, amd_attributes());
        assert(i915_clocks(*facts) == i915_clocks(given));
        assert(source_views(sources@) == sources_with(given, vendor, opt_view(*driver)));
    }
    sources
}

proof fn lemma_amd_sources_same(a: DeviceFacts, b: DeviceFacts, attributes: Seq<AmdAttribute>)
    requires
        a.attributes == b.attributes,
        a.device_path == b.device_path,
    ensures
        amd_sources(a, attributes) == amd_sources(b, attributes),
    decreases attributes.len(),
{
    if attributes.len() > 0 {
        lemma_amd_sources_same(a, b, attributes.drop_last());
    }
}

impl MetricSource {
    /// A source with the same contents.
    pub fn duplicate(&self) -> (copy: MetricSource)
        ensures
            copy@ == self@,
    {
        let reader = match &self.reader {
            MetricReader::Percent(path) => MetricReader::Percent(path.clone()),
            MetricReader::Bytes(path) => MetricReader::Bytes(path.clone()),
            MetricReader::MilliCelsius(path) => MetricReader::MilliCelsius(path.clone()),
            MetricReader::MicroWatts(path) => MetricReader::MicroWatts(path.clone()),
            MetricReader::MicroJoules(path) => MetricReader::MicroJoules(path.clone()),
            MetricReader::Rpm(path) => MetricReader::Rpm(path.clone()),
            MetricReader::PwmPercent { input, maximum } => MetricReader::PwmPercent {
                input: input.clone(),
                maximum: maximum.clone(),
            },
            MetricReader::HertzToMhz(path) => MetricReader::HertzToMhz(path.clone()),
            MetricReader::ActiveDpmMhz(path) => MetricReader::ActiveDpmMhz(path.clone()),
            MetricReader::MaximumMhz(paths) => {
                let copy = self.reader.paths();
                assert(path_views(copy@) == path_views(paths@));
                MetricReader::MaximumMhz(copy)
            },
        };
        MetricSource {
            key: self.key,
            reader,
            quality: self.quality,
            definition: self.definition.clone(),
            priority: self.priority,
        }
    }
}

/// The best sources of one metric.
fn group_for(sources: &Vec<MetricSource>, key: MetricKey) -> (group: Vec<MetricSource>)
    ensures
        source_views(group@) == best_sources(source_views(sources@), key),
        (group@.len() == 0) == (sources_for(source_views(sources@), key).len() == 0),
{
    let ghost all = source_views(sources@);
    let mut found: Vec<usize> = Vec::new();
    let mut keys: Vec<SourceKey> = Vec::new();
    let mut i: usize = 0;
    assert(all.take(0) == Seq::<SourceModel>::empty());
    while i < sources.len()
        invariant
            i <= sources.len(),
            all == source_views(sources@),
            found.len() == keys.len(),
            sources_for(all.take(i as int), key).len() == found.len(),
            forall|k: int|
                0 <= k < found.len() ==> #[trigger] found@[k] < sources@.len() && sources_for(
                    all.take(i as int),
                    key,
                )[k] == sources@[found@[k] as int]@,
            forall|k: int|
                0 <= k < keys.len() ==> (#[trigger] keys@[k]).model() == (SourcePlace {
                    priority: sources@[found@[k] as int].priority,
                    definition: sources@[found@[k] as int].definition@,
                }),
        decreases sources.len() - i,
    {
        assert(all.take(i + 1).drop_last() == all.take(i as int));
        assert(all.take(i + 1).last() == sources@[i as int]@);
        if sources[i].key == key {
            keys.push(
                SourceKey {
                    priority: sources[i].priority,
                    definition: sources[i].definition.clone(),
                },
            );
            found.push(i);
        }
        i = i + 1;
    }
    assert(all.take(i as int) == all);
    let order = stable_order(&keys);
    let ghost mine = sources_for(all, key);
    let ghost keyed = mine.map_values(
        |s: SourceModel| SourcePlace { priority: s.priority, definition: s.definition },
    );
    assert(models(keys@) == keyed);
    let count: usize = if order.len() > MAX_METRIC_SOURCES_PER_KEY {
        MAX_METRIC_SOURCES_PER_KEY
    } else {
        order.len()
    };
    let mut group: Vec<MetricSource> = Vec::new();
    let mut p: usize = 0;
    while p < count
        invariant
            p <= count <= order.len(),
            order.len() == found.len(),
            found.len() == mine.len(),
            forall|k: int| 0 <= k < order@.len() ==> #[trigger] order@[k] < found@.len(),
            forall|k: int|
                0 <= k < found.len() ==> #[trigger] found@[k] < sources@.len() && mine[k]
                    == sources@[found@[k] as int]@,
            group.len() == p,
            forall|k: int| 0 <= k < p ==> (#[trigger] group@[k])@ == mine[order@[k] as int],
        decreases count - p,
    {
        let at: usize = order[p];
        assert(found@[at as int] < sources@.len());
        group.push(sources[found[at]].duplicate());
        p = p + 1;
    }
    proof {
        let expected = best_sources(all, key);
        assert forall|k: int| 0 <= k < group@.len() implies source_views(group@)[k]
            == expected[k] by {
            assert(indices(order@)[k] == order@[k]);
            assert(group@[k]@ == mine[order@[k] as int]);
        }
        assert(source_views(group@) == expected);
    }
    group
}

/// Sources by metric, the best first.
pub fn group_sources(sources: &Vec<MetricSource>) -> (groups: Vec<SourceGroup>)
    ensures
        groups_sources(groups@, source_views(sources@)),
{
    let ghost all = source_views(sources@);
    let ghost wanted = Set::new(|key: MetricKey| sources_for(all, key).len() > 0);
    let mut groups: Vec<SourceGroup> = Vec::new();
    let mut place: u8 = 0;
    assert(group_keys(groups@) == Seq::<MetricKey>::empty());
    while place < 26
        invariant
            place <= 26,
            all == source_views(sources@),
            wanted == Set::new(|key: MetricKey| sources_for(all, key).len() > 0),
            lists_keys::<MetricKey>(
                group_keys(groups@),
                wanted.filter(|key: MetricKey| metric_place(key) < place),
            ),
            forall|i: int|
                0 <= i < groups@.len() ==> source_views((#[trigger] groups@[i]).sources@)
                    == best_sources(all, groups@[i].key),
        decreases 26 - place,
    {
        let key = MetricKey::at(place);
        let group = group_for(sources, key);
        let ghost before = group_keys(groups@);
        let present = group.len() > 0;
        if present {
            groups.push(SourceGroup { key, sources: group });
            assert(group_keys(groups@) == before.push(key));
        }
        proof {
            crate::merge::lemma_note_added(
                before,
                wanted.filter(|key: MetricKey| metric_place(key) < place),
                wanted.filter(|key: MetricKey| metric_place(key) < place + 1),
                key,
                place as int,
                present,
                wanted,
            );
        }
        place = place + 1;
    }
    assert(wanted.filter(|key: MetricKey| metric_place(key) < place) == wanted);
    groups
}

/// The vendor of a device, with its driver and its PCI identity.
fn identify(facts: &DeviceFacts) -> (result: (Option<String>, Option<PciIdentity>, GpuVendor))
    ensures
        opt_view(result.0) == driver_of(*facts),
        match result.1 {
            Some(pci) => pci_facts(*facts) == Some(pci_view(pci)),
            None => pci_facts(*facts) is None,
        },
        result.2 == device_vendor(*facts),
{
    let driver = driver_name(facts);
    let pci = pci_identity(facts);
    let vendor = match &pci {
        Some(pci) => GpuVendor::from_pci_vendor_id(pci.vendor_id),
        None => vendor_from_driver(&driver),
    };
    (driver, pci, vendor)
}

/// What is to be read of a device: its sources by metric. Nothing where only software looks like
/// a device and that is not asked for. The directories of sensors are used up.
pub fn plan_device(facts: &mut DeviceFacts, include_software_adapters: bool) -> (plan: Option<
    Vec<SourceGroup>,
>)
    ensures
        match plan {
            None => !include_software_adapters && is_software(driver_of(*old(facts)))
                && *final(facts) == *old(facts),
            Some(groups) => (include_software_adapters || !is_software(driver_of(*old(facts))))
                && groups_sources(groups@, device_sources(*old(facts))) && *final(facts) == (
            DeviceFacts { hwmon: final(facts).hwmon, ..*old(facts) }),
        },
{
    let (driver, pci, vendor) = identify(facts);
    if !include_software_adapters && is_software_driver(&driver) {
        return None;
    }
    let sources = discover_device_sources(facts, vendor, &driver);
    Some(group_sources(&sources))
}

/// A source gives a value by the readings that were taken of a group.
pub open spec fn source_works(
    source: MetricSource,
    readings: Seq<SourceReading>,
    s: int,
    device: Seq<char>,
) -> bool {
    &&& s < readings.len()
    &&& source.reader.is_read_by(readings[s])
    &&& outcome(source.reader@, readings[s], device) is Ok
}

/// Some source of a group gives a value.
pub open spec fn group_works(
    group: SourceGroup,
    readings: Seq<SourceReading>,
    device: Seq<char>,
) -> bool {
    exists|s: int|
        0 <= s < group.sources@.len() && #[trigger] source_works(
            group.sources@[s],
            readings,
            s,
            device,
        )
}

/// The readings of a group, none where none were taken.
pub open spec fn readings_of(readings: Seq<Vec<SourceReading>>, g: int) -> Seq<SourceReading> {
    if g < readings.len() {
        readings[g]@
    } else {
        Seq::empty()
    }
}

/// The metrics of the groups that give a value.
pub open spec fn working_metrics(
    groups: Seq<SourceGroup>,
    readings: Seq<Vec<SourceReading>>,
    device: Seq<char>,
) -> Set<MetricKey>
    decreases groups.len(),
{
    if groups.len() == 0 {
        Set::empty()
    } else {
        let before = working_metrics(groups.drop_last(), readings, device);
        if group_works(groups.last(), readings_of(readings, groups.len() - 1), device) {
            before.insert(groups.last().key)
        } else {
            before
        }
    }
}

fn probe_group(group: &SourceGroup, readings: &Vec<SourceReading>, device: &str) -> (works: bool)
    ensures
        works == group_works(*group, readings@, device@),
{
    let mut s: usize = 0;
    while s < group.sources.len()
        invariant
            s <= group.sources.len(),
            forall|k: int|
                0 <= k < s ==> !#[trigger] source_works(
                    group.sources@[k],
                    readings@,
                    k,
                    device@,
                ),
        decreases group.sources.len() - s,
    {
        if s < readings.len() {
            if group.sources[s].reader.fits(&readings[s]) && group.sources[s].probe(
                &readings[s],
                device,
            ) {
                assert(source_works(group.sources@[s as int], readings@, s as int, device@));
                return true;
            }
        }
        s = s + 1;
    }
    false
}

fn probe_capabilities(
    groups: &Vec<SourceGroup>,
    readings: &Vec<Vec<SourceReading>>,
    device: &str,
) -> (capabilities: CapabilitySet)
    ensures
        capabilities.metric_set() == working_metrics(groups@, readings@, device@),
        capabilities.vendor_extensions@ == Set::<Seq<char>>::empty(),
{
    let mut capabilities = CapabilitySet::default();
    let none: Vec<SourceReading> = Vec::new();
    let mut g: usize = 0;
    while g < groups.len()
        invariant
            g <= groups.len(),
            none@ == Seq::<SourceReading>::empty(),
            capabilities.metric_set() == working_metrics(
                groups@.take(g as int),
                readings@,
                device@,
            ),
            capabilities.vendor_extensions@ == Set::<Seq<char>>::empty(),
        decreases groups.len() - g,
    {
        assert(groups@.take(g + 1).drop_last() == groups@.take(g as int));
        let taken = if g < readings.len() {
            &readings[g]
        } else {
            &none
        };
        if probe_group(&groups[g], taken, device) {
            capabilities.insert(groups[g].key);
        }
        g = g + 1;
    }
    assert(groups@.take(g as int) == groups@);
    capabilities
}

/// A device with what can be read of it.
pub struct LinuxDeviceRecord {
    pub provider_device_id: String,
    pub device_path: String,
    pub observation: DeviceObservation,
    pub metric_sources: Vec<SourceGroup>,
}

/// A text, where it is there and not empty.
pub open spec fn nonempty(text: Option<Seq<char>>) -> Option<Seq<char>> {
    match text {
        Some(text) => if text.len() > 0 {
            Some(text)
        } else {
            None
        },
        None => None,
    }
}

fn keep_nonempty(text: Option<String>) -> (kept: Option<String>)
    ensures
        opt_view(kept) == nonempty(opt_view(text)),
{
    match text {
        Some(text) => if text.as_str().is_empty() {
            None
        } else {
            Some(text)
        },
        None => None,
    }
}

/// An array of texts.
pub open spec fn text_array(texts: Seq<Seq<char>>) -> JsonModel {
    JsonModel::Array(texts.map_values(|text: Seq<char>| JsonModel::Text(text)))
}

/// The vendor data of a device: its driver, its nodes in ascending order, and its path.
pub open spec fn is_linux_info(value: JsonModel, facts: DeviceFacts) -> bool {
    exists|nodes: Seq<Seq<char>>| #[trigger]
        lists_keys::<String>(nodes, facts.drm_nodes@) && value == JsonModel::Object(
            seq![
                (
                    "driver"@,
                    match driver_of(facts) {
                        Some(driver) => JsonModel::Text(driver),
                        None => JsonModel::Null,
                    },
                ),
                ("drmNodes"@, text_array(nodes)),
                ("sysfsPath"@, JsonModel::Text(facts.relative_path@)),
            ],
        )
}

/// The vendor data that an observation of the device holds.
pub open spec fn is_device_info(info: Map<Seq<char>, JsonModel>, facts: DeviceFacts) -> bool {
    let memory = memory_facts(facts);
    &&& exists|linux: JsonModel| #[trigger]
        is_linux_info(linux, facts) && info == with_memory_info(
            Map::<Seq<char>, JsonModel>::empty().insert("linux"@, linux),
            device_vendor(facts),
            memory,
        )
}

/// Vendor data with the sizes of memory of an AMD device.
pub open spec fn with_memory_info(
    info: Map<Seq<char>, JsonModel>,
    vendor: GpuVendor,
    memory: StaticMemoryInfo,
) -> Map<Seq<char>, JsonModel> {
    if vendor != GpuVendor::Amd {
        info
    } else {
        let first = match memory.dedicated_total_bytes {
            Some(bytes) => info.insert(
                "vramTotalBytes"@,
                JsonModel::Number(JsonNumber::Unsigned(bytes)),
            ),
            None => info,
        };
        match memory.shared_total_bytes {
            Some(bytes) => first.insert(
                "gttTotalBytes"@,
                JsonModel::Number(JsonNumber::Unsigned(bytes)),
            ),
            None => first,
        }
    }
}

fn linux_info(facts: &DeviceFacts, driver: &Option<String>) -> (value: Json)
    requires
        opt_view(*driver) == driver_of(*facts),
    ensures
        is_linux_info(value@, *facts),
{
    let nodes = crate::model::sorted_texts(&facts.drm_nodes);
    let ghost names = crate::model::text_views(nodes@);
    let mut items: Vec<Json> = Vec::new();
    let mut i: usize = 0;
    while i < nodes.len()
        invariant
            i <= nodes.len(),
            names == crate::model::text_views(nodes@),
            items.len() == i,
            forall|k: int| 0 <= k < i ==> (#[trigger] items@[k])@ == JsonModel::Text(names[k]),
        decreases nodes.len() - i,
    {
        items.push(Json::Text(nodes[i].clone()));
        i = i + 1;
    }
    let array = Json::Array(items);
    assert(array@ == text_array(names)) by {
        assert(array@->Array_0 == text_array(names)->Array_0);
    }
    let driver_value = match driver {
        Some(name) => Json::Text(name.clone()),
        None => Json::Null,
    };
    let mut fields: Vec<(String, Json)> = Vec::new();
    assert(field_models(fields@) == Seq::<(Seq<char>, JsonModel)>::empty());
    push_field(&mut fields, "driver", driver_value);
    push_field(&mut fields, "drmNodes", array);
    push_field(&mut fields, "sysfsPath", Json::Text(facts.relative_path.clone()));
    proof {
        let expected = seq![
            (
                "driver"@,
                match driver_of(*facts) {
                    Some(driver) => JsonModel::Text(driver),
                    None => JsonModel::Null,
                },
            ),
            ("drmNodes"@, text_array(names)),
            ("sysfsPath"@, JsonModel::Text(facts.relative_path@)),
        ];
        assert(field_models(fields@) == expected);
    }
    object(fields)
}

/// What the record of a device says.
pub open spec fn is_record_of(
    record: LinuxDeviceRecord,
    facts: DeviceFacts,
    groups: Seq<SourceGroup>,
    readings: Seq<Vec<SourceReading>>,
) -> bool {
    let o = record.observation;
    &&& record.provider_device_id@ == device_id_of(facts)
    &&& record.device_path@ == facts.device_path@
    &&& record.metric_sources@ == groups
    &&& o.provider@ == provider_name()
    &&& o.provider_device_id@ == device_id_of(facts)
    &&& o.vendor == device_vendor(facts)
    &&& o.name@ == device_name(facts)
    &&& o.architecture is None
    &&& opt_view(o.driver_version) == nonempty(opt_view(facts.module_version))
    &&& opt_view(o.firmware_version) == nonempty(attribute(facts, "vbios_version"@))
    &&& o.kind == driver_kind(driver_of(facts))
    &&& o.uuid is None
    &&& match o.pci {
        Some(pci) => pci_facts(facts) == Some(pci_view(pci)),
        None => pci_facts(facts) is None,
    }
    &&& o.windows is None
    &&& o.macos is None
    &&& opt_view(o.parent_provider_device_id) == parent_of(facts)
    &&& match o.partition {
        Some(partition) => parent_of(facts) is Some && partition.partition_type
            == PartitionType::Sriov && partition.id@ == device_id_of(facts),
        None => parent_of(facts) is None,
    }
    &&& o.memory == memory_facts(facts)
    &&& o.capabilities.metric_set() == working_metrics(groups, readings, facts.device_path@)
    &&& o.capabilities.vendor_extensions@ == Set::<Seq<char>>::empty()
    &&& o.identity_priority == 60
    &&& o.enumeration_ordinal is None
    &&& is_device_info(json_models(o.vendor_info@), facts)
}

/// The record of a device, from what was read of it and of its sources.
pub fn build_record(
    facts: &DeviceFacts,
    groups: Vec<SourceGroup>,
    readings: &Vec<Vec<SourceReading>>,
) -> (record: LinuxDeviceRecord)
    ensures
        is_record_of(record, *facts, groups@, readings@),
{
    let (driver, pci, vendor) = identify(facts);
    let address: Option<String> = match &pci {
        Some(pci) => pci.address.clone(),
        None => None,
    };
    let provider_device_id = match address {
        Some(address) => address,
        None => joined("platform:", facts.relative_path.as_str()),
    };
    let name = gpu_name(facts, vendor, &pci);
    let memory = static_memory(facts);
    let parent = match &facts.physical_function {
        Some(name) => if looks_like_pci_address(name.as_str()) {
            Some(name.clone())
        } else {
            None
        },
        None => None,
    };
    let partition = if parent.is_some() {
        Some(
            PartitionIdentity {
                partition_type: PartitionType::Sriov,
                id: provider_device_id.clone(),
            },
        )
    } else {
        None
    };
    let firmware = match read_attribute(facts, "vbios_version") {
        Some(text) => Some(text.clone()),
        None => None,
    };
    let mut observation = DeviceObservation::new(
        "linux-sysfs",
        provider_device_id.as_str(),
        vendor,
        name.as_str(),
    );
    let linux = linux_info(facts, &driver);
    let ghost info = observation.vendor_info@;
    observation.vendor_info.insert(owned("linux"), linux);
    let ghost with_linux = json_models(observation.vendor_info@);
    assert(with_linux == Map::<Seq<char>, JsonModel>::empty().insert("linux"@, linux@));
    if vendor == GpuVendor::Amd {
        if let Some(bytes) = memory.dedicated_total_bytes {
            let ghost held = json_models(observation.vendor_info@);
            observation.vendor_info.insert(
                owned("vramTotalBytes"),
                Json::Number(JsonNumber::Unsigned(bytes)),
            );
            assert(json_models(observation.vendor_info@) == held.insert(
                "vramTotalBytes"@,
                JsonModel::Number(JsonNumber::Unsigned(bytes)),
            ));
        }
        if let Some(bytes) = memory.shared_total_bytes {
            let ghost held = json_models(observation.vendor_info@);
            observation.vendor_info.insert(
                owned("gttTotalBytes"),
                Json::Number(JsonNumber::Unsigned(bytes)),
            );
            assert(json_models(observation.vendor_info@) == held.insert(
                "gttTotalBytes"@,
                JsonModel::Number(JsonNumber::Unsigned(bytes)),
            ));
        }
    }
    assert(is_device_info(json_models(observation.vendor_info@), *facts));
    observation.kind = gpu_kind(&driver);
    observation.pci = pci;
    observation.driver_version = keep_nonempty(facts.module_version.clone());
    observation.firmware_version = keep_nonempty(firmware);
    observation.memory = memory;
    observation.capabilities = probe_capabilities(&groups, readings, facts.device_path.as_str());
    observation.identity_priority = 60;
    observation.parent_provider_device_id = parent;
    observation.partition = partition;
    LinuxDeviceRecord {
        provider_device_id,
        device_path: facts.device_path.clone(),
        observation,
        metric_sources: groups,
    }
}

/// The records in ascending order of the provider's names for the devices.
pub fn sort_records(records: Vec<LinuxDeviceRecord>) -> (sorted: Vec<LinuxDeviceRecord>)
    ensures
        sorted@ == arranged(
            records@,
            stable_order_of::<String>(
                records@.map_values(|r: LinuxDeviceRecord| r.provider_device_id@),
            ),
        ),
{
    let ghost given = records@;
    let mut ids: Vec<String> = Vec::new();
    let mut i: usize = 0;
    while i < records.len()
        invariant
            i <= records.len(),
            ids.len() == i,
            forall|k: int| 0 <= k < i ==> (#[trigger] ids@[k])@ == records@[k].provider_device_id@,
        decreases records.len() - i,
    {
        ids.push(records[i].provider_device_id.clone());
        i = i + 1;
    }
    let order = stable_order(&ids);
    assert(models(ids@) == given.map_values(|r: LinuxDeviceRecord| r.provider_device_id@));
    crate::ordered::arrange(records, &order)
}

/// The vendor data that the provider adds for a device.
pub fn vendor_info(record: &LinuxDeviceRecord) -> (value: Json)
    ensures
        value@ == JsonModel::Object(
            seq![
                (
                    "linux"@,
                    if record.observation.vendor_info@.contains_key("linux"@) {
                        record.observation.vendor_info@["linux"@]@
                    } else {
                        JsonModel::Null
                    },
                ),
            ],
        ),
{
    let linux = match record.observation.vendor_info.get(&owned("linux")) {
        Some(value) => crate::json::copy_json(value),
        None => Json::Null,
    };
    let mut fields: Vec<(String, Json)> = Vec::new();
    push_field(&mut fields, "linux", linux);
    assert(field_models(fields@) == seq![("linux"@, linux@)]);
    object(fields)
}

} // verus!
