//! Where each metric of a device is read from, by the names of the attributes.
use crate::binary64::{Binary64, HUNDRED};
use crate::float_arithmetic::{nearest_bits, rounded_bits};
use crate::float_laws::{double, law_named_doubles_are_their_numbers, law_quotients_are_nearest};
use crate::float_order::lemma_not_negative;
use crate::model::{
    GpuKind, GpuVendor, MemoryTopology, MetricKey, MetricQuality, MetricValue, PartitionType,
};
use crate::ordered::{arranged, lemma_stable_order_exists, stable_order_of};
use crate::providers::linux::hwmon::{
    directory_sources, file_sources, hwmon_sources, kind_sources, numbered_entries, sensor_files,
    sensor_kinds, sensor_source, temperature_meaning, HwmonDirectory, NumberedFile, NumberedModel,
    SensorKind,
};
use crate::providers::linux::inventory::{
    amd_attributes, amd_sources, clock_source, driver_of, i915_clocks, is_record_of, opt_view,
    present_paths, sorted_paths, sources_with, tile_clocks, without_repeats, AmdAttribute,
    DeviceFacts, LinuxDeviceRecord, SourceGroup,
};
use crate::providers::linux::metric::{
    outcome, source_views, MetricReader, MetricSource, ReaderModel, SourceModel, SourceReading,
};
use crate::providers::linux::parse::{attribute_index, attribute_number};
use crate::text::{contains, decimal, lines};
use vstd::prelude::*;

verus! {

proof fn lemma_amd_source(facts: DeviceFacts, attributes: Seq<AmdAttribute>, k: int)
    requires
        0 <= k < attributes.len(),
        facts.attributes@.contains_key(
            crate::providers::linux::inventory::amd_name(attributes[k]),
        ),
    ensures
        amd_sources(facts, attributes).contains(
            crate::providers::linux::inventory::amd_source(facts.device_path@, attributes[k]),
        ),
    decreases attributes.len(),
{
    let shorter = attributes.drop_last();
    let all = amd_sources(facts, attributes);
    let before = amd_sources(facts, shorter);
    let wanted = crate::providers::linux::inventory::amd_source(
        facts.device_path@,
        attributes[k],
    );
    if k < shorter.len() {
        assert(shorter[k] == attributes[k]);
        lemma_amd_source(facts, shorter, k);
        let i = choose|i: int| 0 <= i < before.len() && before[i] == wanted;
        assert(all[i] == wanted);
    } else {
        assert(all[all.len() - 1] == wanted);
    }
}

/// The sources of a device hold those of the AMD attributes.
proof fn lemma_amd_in(
    facts: DeviceFacts,
    vendor: GpuVendor,
    driver: Option<Seq<char>>,
    wanted: SourceModel,
)
    requires
        vendor == GpuVendor::Amd || driver == Some("amdgpu"@),
        amd_sources(facts, amd_attributes()).contains(wanted),
    ensures
        sources_with(facts, vendor, driver).contains(wanted),
{
    let first = hwmon_sources(facts.hwmon@, vendor);
    let amd = amd_sources(facts, amd_attributes());
    let i = choose|i: int| 0 <= i < amd.len() && amd[i] == wanted;
    assert(sources_with(facts, vendor, driver)[first.len() + i] == wanted);
}

/// A source of the metric reads the path with the given kind of reader.
pub open spec fn reads_from(source: MetricSource, key: MetricKey, reader: ReaderModel) -> bool {
    &&& source.key == key
    &&& match reader {
        ReaderModel::Percent(path) => source.reader matches MetricReader::Percent(own) && own@
            == path,
        ReaderModel::Bytes(path) => source.reader matches MetricReader::Bytes(own) && own@ == path,
        ReaderModel::MilliCelsius(path) => source.reader matches MetricReader::MilliCelsius(own)
            && own@ == path,
        ReaderModel::MicroWatts(path) => source.reader matches MetricReader::MicroWatts(own)
            && own@ == path,
        ReaderModel::MicroJoules(path) => source.reader matches MetricReader::MicroJoules(own)
            && own@ == path,
        ReaderModel::Rpm(path) => source.reader matches MetricReader::Rpm(own) && own@ == path,
        ReaderModel::HertzToMhz(path) => source.reader matches MetricReader::HertzToMhz(own)
            && own@ == path,
        ReaderModel::ActiveDpmMhz(path) => source.reader matches MetricReader::ActiveDpmMhz(own)
            && own@ == path,
        _ => false,
    }
}

/// An AMD device that has `gpu_busy_percent` tells there how busy the device is.
pub proof fn law_amd_busy_is_read_from_its_attribute(
    facts: DeviceFacts,
    vendor: GpuVendor,
    driver: Option<Seq<char>>,
    sources: Seq<MetricSource>,
)
    requires
        source_views(sources) == sources_with(facts, vendor, driver),
        vendor == GpuVendor::Amd || driver == Some("amdgpu"@),
        facts.attributes@.contains_key("gpu_busy_percent"@),
    ensures
        exists|i: int|
            0 <= i < sources.len() && reads_from(
                #[trigger] sources[i],
                MetricKey::UtilizationOverall,
                ReaderModel::Percent(facts.device_path@ + "/"@ + "gpu_busy_percent"@),
            ) && sources[i].quality == MetricQuality::Direct,
{
    let k = 0int;
    lemma_amd_source(facts, amd_attributes(), k);
    let wanted = crate::providers::linux::inventory::amd_source(
        facts.device_path@,
        AmdAttribute::Busy,
    );
    lemma_amd_in(facts, vendor, driver, wanted);
    let all = source_views(sources);
    let i = choose|i: int| 0 <= i < all.len() && all[i] == wanted;
    assert(sources[i]@ == wanted);
}

/// An AMD device that has `mem_busy_percent` tells there how busy its memory is.
pub proof fn law_amd_memory_busy_is_read_from_its_attribute(
    facts: DeviceFacts,
    vendor: GpuVendor,
    driver: Option<Seq<char>>,
    sources: Seq<MetricSource>,
)
    requires
        source_views(sources) == sources_with(facts, vendor, driver),
        vendor == GpuVendor::Amd || driver == Some("amdgpu"@),
        facts.attributes@.contains_key("mem_busy_percent"@),
    ensures
        exists|i: int|
            0 <= i < sources.len() && reads_from(
                #[trigger] sources[i],
                MetricKey::MemoryBandwidthUtilizationPercent,
                ReaderModel::Percent(facts.device_path@ + "/"@ + "mem_busy_percent"@),
            ) && sources[i].quality == MetricQuality::Direct,
{
    let k = 1int;
    lemma_amd_source(facts, amd_attributes(), k);
    let wanted = crate::providers::linux::inventory::amd_source(
        facts.device_path@,
        AmdAttribute::MemoryBusy,
    );
    lemma_amd_in(facts, vendor, driver, wanted);
    let all = source_views(sources);
    let i = choose|i: int| 0 <= i < all.len() && all[i] == wanted;
    assert(sources[i]@ == wanted);
}

/// An AMD device that has `mem_info_vram_used` tells there its dedicated memory in use.
pub proof fn law_amd_vram_is_read_from_its_attribute(
    facts: DeviceFacts,
    vendor: GpuVendor,
    driver: Option<Seq<char>>,
    sources: Seq<MetricSource>,
)
    requires
        source_views(sources) == sources_with(facts, vendor, driver),
        vendor == GpuVendor::Amd || driver == Some("amdgpu"@),
        facts.attributes@.contains_key("mem_info_vram_used"@),
    ensures
        exists|i: int|
            0 <= i < sources.len() && reads_from(
                #[trigger] sources[i],
                MetricKey::MemoryDedicatedUsedBytes,
                ReaderModel::Bytes(facts.device_path@ + "/"@ + "mem_info_vram_used"@),
            ) && sources[i].quality == MetricQuality::Direct,
{
    let k = 2int;
    lemma_amd_source(facts, amd_attributes(), k);
    let wanted = crate::providers::linux::inventory::amd_source(
        facts.device_path@,
        AmdAttribute::VramUsed,
    );
    lemma_amd_in(facts, vendor, driver, wanted);
    let all = source_views(sources);
    let i = choose|i: int| 0 <= i < all.len() && all[i] == wanted;
    assert(sources[i]@ == wanted);
}

/// An AMD device that has `mem_info_gtt_used` tells there its shared memory in use.
pub proof fn law_amd_gtt_is_read_from_its_attribute(
    facts: DeviceFacts,
    vendor: GpuVendor,
    driver: Option<Seq<char>>,
    sources: Seq<MetricSource>,
)
    requires
        source_views(sources) == sources_with(facts, vendor, driver),
        vendor == GpuVendor::Amd || driver == Some("amdgpu"@),
        facts.attributes@.contains_key("mem_info_gtt_used"@),
    ensures
        exists|i: int|
            0 <= i < sources.len() && reads_from(
                #[trigger] sources[i],
                MetricKey::MemorySharedUsedBytes,
                ReaderModel::Bytes(facts.device_path@ + "/"@ + "mem_info_gtt_used"@),
            ) && sources[i].quality == MetricQuality::Direct,
{
    let k = 3int;
    lemma_amd_source(facts, amd_attributes(), k);
    let wanted = crate::providers::linux::inventory::amd_source(
        facts.device_path@,
        AmdAttribute::GttUsed,
    );
    lemma_amd_in(facts, vendor, driver, wanted);
    let all = source_views(sources);
    let i = choose|i: int| 0 <= i < all.len() && all[i] == wanted;
    assert(sources[i]@ == wanted);
}

/// An AMD device that has `pp_dpm_sclk` tells there its graphics clock.
pub proof fn law_amd_graphics_clock_is_read_from_its_attribute(
    facts: DeviceFacts,
    vendor: GpuVendor,
    driver: Option<Seq<char>>,
    sources: Seq<MetricSource>,
)
    requires
        source_views(sources) == sources_with(facts, vendor, driver),
        vendor == GpuVendor::Amd || driver == Some("amdgpu"@),
        facts.attributes@.contains_key("pp_dpm_sclk"@),
    ensures
        exists|i: int|
            0 <= i < sources.len() && reads_from(
                #[trigger] sources[i],
                MetricKey::ClockGraphicsMhz,
                ReaderModel::ActiveDpmMhz(facts.device_path@ + "/"@ + "pp_dpm_sclk"@),
            ) && sources[i].quality == MetricQuality::Direct,
{
    let k = 4int;
    lemma_amd_source(facts, amd_attributes(), k);
    let wanted = crate::providers::linux::inventory::amd_source(
        facts.device_path@,
        AmdAttribute::GraphicsClock,
    );
    lemma_amd_in(facts, vendor, driver, wanted);
    let all = source_views(sources);
    let i = choose|i: int| 0 <= i < all.len() && all[i] == wanted;
    assert(sources[i]@ == wanted);
}

/// An AMD device that has `pp_dpm_mclk` tells there its memory clock.
pub proof fn law_amd_memory_clock_is_read_from_its_attribute(
    facts: DeviceFacts,
    vendor: GpuVendor,
    driver: Option<Seq<char>>,
    sources: Seq<MetricSource>,
)
    requires
        source_views(sources) == sources_with(facts, vendor, driver),
        vendor == GpuVendor::Amd || driver == Some("amdgpu"@),
        facts.attributes@.contains_key("pp_dpm_mclk"@),
    ensures
        exists|i: int|
            0 <= i < sources.len() && reads_from(
                #[trigger] sources[i],
                MetricKey::ClockMemoryMhz,
                ReaderModel::ActiveDpmMhz(facts.device_path@ + "/"@ + "pp_dpm_mclk"@),
            ) && sources[i].quality == MetricQuality::Direct,
{
    let k = 5int;
    lemma_amd_source(facts, amd_attributes(), k);
    let wanted = crate::providers::linux::inventory::amd_source(
        facts.device_path@,
        AmdAttribute::MemoryClock,
    );
    lemma_amd_in(facts, vendor, driver, wanted);
    let all = source_views(sources);
    let i = choose|i: int| 0 <= i < all.len() && all[i] == wanted;
    assert(sources[i]@ == wanted);
}

/// What a source found among sensors can be.
spec fn is_sensor_key(key: MetricKey) -> bool {
    ||| key == MetricKey::TemperatureCoreCelsius
    ||| key == MetricKey::TemperatureEdgeCelsius
    ||| key == MetricKey::TemperatureHotspotCelsius
    ||| key == MetricKey::TemperatureMemoryCelsius
    ||| key == MetricKey::PowerDrawWatts
    ||| key == MetricKey::PowerLimitWatts
    ||| key == MetricKey::PowerEnergyJoules
    ||| key == MetricKey::FanRpm
    ||| key == MetricKey::FanPercent
    ||| key == MetricKey::ClockGraphicsMhz
    ||| key == MetricKey::ClockMemoryMhz
    ||| key == MetricKey::ClockVideoMhz
}

spec fn all_sensor_keys(sources: Seq<SourceModel>) -> bool {
    forall|i: int| 0 <= i < sources.len() ==> is_sensor_key((#[trigger] sources[i]).key)
}

proof fn lemma_file_keys(
    directory: HwmonDirectory,
    vendor: GpuVendor,
    kind: SensorKind,
    files: Seq<NumberedModel>,
)
    ensures
        all_sensor_keys(file_sources(directory, vendor, kind, files)),
    decreases files.len(),
{
    if files.len() > 0 {
        lemma_file_keys(directory, vendor, kind, files.drop_last());
    }
}

proof fn lemma_kind_keys(directory: HwmonDirectory, vendor: GpuVendor, kinds: Seq<SensorKind>)
    ensures
        all_sensor_keys(kind_sources(directory, vendor, kinds)),
    decreases kinds.len(),
{
    if kinds.len() > 0 {
        lemma_kind_keys(directory, vendor, kinds.drop_last());
        lemma_file_keys(directory, vendor, kinds.last(), sensor_files(directory, kinds.last()));
    }
}

proof fn lemma_directory_keys(directories: Seq<HwmonDirectory>, vendor: GpuVendor)
    ensures
        all_sensor_keys(directory_sources(directories, vendor)),
    decreases directories.len(),
{
    if directories.len() > 0 {
        lemma_directory_keys(directories.drop_last(), vendor);
        lemma_kind_keys(directories.last(), vendor, sensor_kinds());
    }
}

proof fn lemma_amd_only(facts: DeviceFacts, attributes: Seq<AmdAttribute>)
    ensures
        forall|i: int|
            0 <= i < amd_sources(facts, attributes).len() ==> {
                let source = #[trigger] amd_sources(facts, attributes)[i];
                let path = facts.device_path@ + "/"@;
                &&& source.key == MetricKey::UtilizationOverall ==> source.reader == ReaderModel::Percent(
                    path + "gpu_busy_percent"@,
                )
                &&& source.key == MetricKey::MemoryBandwidthUtilizationPercent ==> source.reader == ReaderModel::Percent(
                    path + "mem_busy_percent"@,
                )
                &&& source.key == MetricKey::MemoryDedicatedUsedBytes ==> source.reader == ReaderModel::Bytes(
                    path + "mem_info_vram_used"@,
                )
                &&& source.key == MetricKey::MemorySharedUsedBytes ==> source.reader == ReaderModel::Bytes(
                    path + "mem_info_gtt_used"@,
                )
                &&& source.key == MetricKey::ClockGraphicsMhz ==> source.reader == ReaderModel::ActiveDpmMhz(
                    path + "pp_dpm_sclk"@,
                )
                &&& source.key == MetricKey::ClockMemoryMhz ==> source.reader == ReaderModel::ActiveDpmMhz(
                    path + "pp_dpm_mclk"@,
                )
                &&& source.key == MetricKey::UtilizationOverall || source.key
                    == MetricKey::MemoryBandwidthUtilizationPercent || source.key
                    == MetricKey::MemoryDedicatedUsedBytes || source.key
                    == MetricKey::MemorySharedUsedBytes || source.key
                    == MetricKey::ClockGraphicsMhz || source.key == MetricKey::ClockMemoryMhz
            },
    decreases attributes.len(),
{
    if attributes.len() > 0 {
        lemma_amd_only(facts, attributes.drop_last());
    }
}

/// Utilization and memory in use are read from nowhere else.
pub proof fn law_usage_is_read_from_amd_attributes_alone(
    facts: DeviceFacts,
    vendor: GpuVendor,
    driver: Option<Seq<char>>,
    sources: Seq<MetricSource>,
    i: int,
)
    requires
        source_views(sources) == sources_with(facts, vendor, driver),
        0 <= i < sources.len(),
    ensures
        sources[i].key == MetricKey::UtilizationOverall ==> reads_from(
            sources[i],
            MetricKey::UtilizationOverall,
            ReaderModel::Percent(facts.device_path@ + "/"@ + "gpu_busy_percent"@),
        ),
        sources[i].key == MetricKey::MemoryBandwidthUtilizationPercent ==> reads_from(
            sources[i],
            MetricKey::MemoryBandwidthUtilizationPercent,
            ReaderModel::Percent(facts.device_path@ + "/"@ + "mem_busy_percent"@),
        ),
        sources[i].key == MetricKey::MemoryDedicatedUsedBytes ==> reads_from(
            sources[i],
            MetricKey::MemoryDedicatedUsedBytes,
            ReaderModel::Bytes(facts.device_path@ + "/"@ + "mem_info_vram_used"@),
        ),
        sources[i].key == MetricKey::MemorySharedUsedBytes ==> reads_from(
            sources[i],
            MetricKey::MemorySharedUsedBytes,
            ReaderModel::Bytes(facts.device_path@ + "/"@ + "mem_info_gtt_used"@),
        ),
        sources[i].key != MetricKey::UtilizationGraphics,
        sources[i].key != MetricKey::UtilizationCompute,
        sources[i].key != MetricKey::MemoryUnifiedUsedBytes,
        sources[i].key != MetricKey::Processes,
{
    let all = sources_with(facts, vendor, driver);
    let sorted = arranged(
        facts.hwmon@,
        stable_order_of::<String>(
            facts.hwmon@.map_values(|directory: HwmonDirectory| directory.path@),
        ),
    );
    lemma_directory_keys(sorted, vendor);
    lemma_amd_only(facts, amd_attributes());
    assert(source_views(sources)[i] == sources[i]@);
    let first = hwmon_sources(facts.hwmon@, vendor);
    let amd = if vendor == GpuVendor::Amd || driver == Some("amdgpu"@) {
        amd_sources(facts, amd_attributes())
    } else {
        Seq::empty()
    };
    if i < first.len() {
        assert(all[i] == first[i]);
    } else if i < first.len() + amd.len() {
        assert(all[i] == amd[i - first.len()]);
    } else {
        let card = if driver == Some("i915"@) {
            clock_source(
                without_repeats(
                    sorted_paths(present_paths(i915_clocks(facts), facts.clocks_present@)),
                ),
                "maximum current Intel i915 GT frequency in MHz"@,
            )
        } else {
            Seq::empty()
        };
        let tile = if driver == Some("xe"@) {
            clock_source(
                sorted_paths(present_paths(tile_clocks(facts.tiles@), facts.clocks_present@)),
                "maximum current Intel Xe GT frequency across tiles in MHz"@,
            )
        } else {
            Seq::empty()
        };
        assert(all == first + amd + card + tile);
        let at = i - first.len() - amd.len();
        if at < card.len() {
            assert(all[i] == card[at]);
        } else {
            assert(all[i] == tile[at - card.len()]);
        }
        assert(all[i].key == MetricKey::ClockGraphicsMhz);
    }
}

proof fn lemma_numbered_entry(
    directory: HwmonDirectory,
    n: int,
    prefix: Seq<char>,
    suffix: Seq<char>,
    e: int,
)
    requires
        0 <= e < n <= directory.entries@.len(),
        directory.entries@[e].is_file,
        attribute_index(directory.entries@[e].name@, prefix, suffix) is Some,
    ensures
        numbered_entries(directory.entries@.take(n), prefix, suffix).contains(
            NumberedModel {
                index: attribute_index(directory.entries@[e].name@, prefix, suffix)->0 as u32,
                name: directory.entries@[e].name@,
            },
        ),
    decreases n,
{
    let entries = directory.entries@.take(n);
    let wanted = NumberedModel {
        index: attribute_index(directory.entries@[e].name@, prefix, suffix)->0 as u32,
        name: directory.entries@[e].name@,
    };
    let all = numbered_entries(entries, prefix, suffix);
    assert(entries.drop_last() =~= directory.entries@.take(n - 1));
    let before = numbered_entries(directory.entries@.take(n - 1), prefix, suffix);
    if e < n - 1 {
        lemma_numbered_entry(directory, n - 1, prefix, suffix, e);
        let i = choose|i: int| 0 <= i < before.len() && before[i] == wanted;
        assert(all[i] == wanted);
    } else {
        assert(all[all.len() - 1] == wanted);
    }
}

proof fn lemma_sensor_file(directory: HwmonDirectory, kind: SensorKind, e: int) -> (file:
    NumberedModel)
    requires
        0 <= e < directory.entries@.len(),
        directory.entries@[e].is_file,
        attribute_index(directory.entries@[e].name@, kind.prefix(), kind.suffix()) is Some,
    ensures
        sensor_files(directory, kind).contains(file),
        file.name == directory.entries@[e].name@,
        file.index == attribute_index(file.name, kind.prefix(), kind.suffix())->0 as u32,
{
    let n = directory.entries@.len() as int;
    assert(directory.entries@.take(n) =~= directory.entries@);
    lemma_numbered_entry(directory, n, kind.prefix(), kind.suffix(), e);
    let all = numbered_entries(directory.entries@, kind.prefix(), kind.suffix());
    let file = NumberedModel {
        index: attribute_index(directory.entries@[e].name@, kind.prefix(), kind.suffix())->0
            as u32,
        name: directory.entries@[e].name@,
    };
    let i = choose|i: int| 0 <= i < all.len() && all[i] == file;
    lemma_stable_order_exists::<NumberedFile>(all);
    let order = stable_order_of::<NumberedFile>(all);
    assert(order.contains(i));
    let p = choose|p: int| 0 <= p < order.len() && order[p] == i;
    assert(sensor_files(directory, kind)[p] == file);
    file
}

proof fn lemma_file_source(
    directory: HwmonDirectory,
    vendor: GpuVendor,
    kind: SensorKind,
    files: Seq<NumberedModel>,
    file: NumberedModel,
)
    requires
        files.contains(file),
        sensor_source(directory, vendor, kind, file) is Some,
    ensures
        file_sources(directory, vendor, kind, files).contains(
            sensor_source(directory, vendor, kind, file)->0,
        ),
    decreases files.len(),
{
    let wanted = sensor_source(directory, vendor, kind, file)->0;
    let shorter = files.drop_last();
    let all = file_sources(directory, vendor, kind, files);
    let before = file_sources(directory, vendor, kind, shorter);
    let k = choose|k: int| 0 <= k < files.len() && files[k] == file;
    if files.last() == file {
        assert(all[all.len() - 1] == wanted);
    } else {
        assert(shorter[k] == file);
        lemma_file_source(directory, vendor, kind, shorter, file);
        let i = choose|i: int| 0 <= i < before.len() && before[i] == wanted;
        assert(all[i] == wanted);
    }
}

proof fn lemma_kind_source(
    directory: HwmonDirectory,
    vendor: GpuVendor,
    kinds: Seq<SensorKind>,
    k: int,
    wanted: SourceModel,
)
    requires
        0 <= k < kinds.len(),
        file_sources(
            directory,
            vendor,
            kinds[k],
            sensor_files(directory, kinds[k]),
        ).contains(wanted),
    ensures
        kind_sources(directory, vendor, kinds).contains(wanted),
    decreases kinds.len(),
{
    let shorter = kinds.drop_last();
    let all = kind_sources(directory, vendor, kinds);
    let before = kind_sources(directory, vendor, shorter);
    if k < shorter.len() {
        lemma_kind_source(directory, vendor, shorter, k, wanted);
        let i = choose|i: int| 0 <= i < before.len() && before[i] == wanted;
        assert(all[i] == wanted);
    } else {
        let last = file_sources(
            directory,
            vendor,
            kinds.last(),
            sensor_files(directory, kinds.last()),
        );
        let i = choose|i: int| 0 <= i < last.len() && last[i] == wanted;
        assert(all[before.len() + i] == wanted);
    }
}

proof fn lemma_directory_source(
    directories: Seq<HwmonDirectory>,
    vendor: GpuVendor,
    d: int,
    wanted: SourceModel,
)
    requires
        0 <= d < directories.len(),
        kind_sources(directories[d], vendor, sensor_kinds()).contains(wanted),
    ensures
        directory_sources(directories, vendor).contains(wanted),
    decreases directories.len(),
{
    let shorter = directories.drop_last();
    let all = directory_sources(directories, vendor);
    let before = directory_sources(shorter, vendor);
    if d < shorter.len() {
        lemma_directory_source(shorter, vendor, d, wanted);
        let i = choose|i: int| 0 <= i < before.len() && before[i] == wanted;
        assert(all[i] == wanted);
    } else {
        let last = kind_sources(directories.last(), vendor, sensor_kinds());
        let i = choose|i: int| 0 <= i < last.len() && last[i] == wanted;
        assert(all[before.len() + i] == wanted);
    }
}

/// The source of a sensor is among those of all directories.
pub proof fn lemma_sensor_found(
    directories: Seq<HwmonDirectory>,
    vendor: GpuVendor,
    d: int,
    k: int,
    e: int,
) -> (file: NumberedModel)
    requires
        0 <= d < directories.len(),
        0 <= k < sensor_kinds().len(),
        0 <= e < directories[d].entries@.len(),
        directories[d].entries@[e].is_file,
        attribute_index(
            directories[d].entries@[e].name@,
            sensor_kinds()[k].prefix(),
            sensor_kinds()[k].suffix(),
        ) is Some,
    ensures
        file.name == directories[d].entries@[e].name@,
        file.index == attribute_index(
            file.name,
            sensor_kinds()[k].prefix(),
            sensor_kinds()[k].suffix(),
        )->0 as u32,
        sensor_source(directories[d], vendor, sensor_kinds()[k], file) is Some
            ==> hwmon_sources(directories, vendor).contains(
            sensor_source(directories[d], vendor, sensor_kinds()[k], file)->0,
        ),
{
    let kind = sensor_kinds()[k];
    let directory = directories[d];
    let file = lemma_sensor_file(directory, kind, e);
    if sensor_source(directory, vendor, kind, file) is Some {
        let wanted = sensor_source(directory, vendor, kind, file)->0;
        lemma_file_source(directory, vendor, kind, sensor_files(directory, kind), file);
        lemma_kind_source(directory, vendor, sensor_kinds(), k, wanted);
        let keys = directories.map_values(|directory: HwmonDirectory| directory.path@);
        lemma_stable_order_exists::<String>(keys);
        let order = stable_order_of::<String>(keys);
        assert(order.contains(d));
        let p = choose|p: int| 0 <= p < order.len() && order[p] == d;
        let sorted = arranged(directories, order);
        assert(sorted[p] == directory);
        lemma_directory_source(sorted, vendor, p, wanted);
    }
    file
}

/// A source that was found among those of the sensors.
pub proof fn lemma_among(sources: Seq<MetricSource>, all: Seq<SourceModel>, wanted: SourceModel) -> (i:
    int)
    requires
        source_views(sources) == all,
        all.contains(wanted),
    ensures
        0 <= i < sources.len(),
        sources[i]@ == wanted,
{
    let i = choose|i: int| 0 <= i < all.len() && all[i] == wanted;
    assert(source_views(sources)[i] == sources[i]@);
    i
}

/// The average power of a device is read in microwatts from the files `powerN_average`.
pub proof fn law_average_power_is_read_from_its_files(
    directories: Seq<HwmonDirectory>,
    vendor: GpuVendor,
    sources: Seq<MetricSource>,
    d: int,
    e: int,
)
    requires
        source_views(sources) == hwmon_sources(directories, vendor),
        0 <= d < directories.len(),
        0 <= e < directories[d].entries@.len(),
        directories[d].entries@[e].is_file,
        attribute_index(directories[d].entries@[e].name@, "power"@, "_average"@) is Some,
    ensures
        exists|i: int|
            0 <= i < sources.len() && reads_from(
                #[trigger] sources[i],
                MetricKey::PowerDrawWatts,
                ReaderModel::MicroWatts(
                    directories[d].path@ + "/"@ + directories[d].entries@[e].name@,
                ),
            ),
{
    let file = lemma_sensor_found(directories, vendor, d, 1, e);
    let wanted = sensor_source(directories[d], vendor, sensor_kinds()[1], file)->0;
    let i = lemma_among(sources, hwmon_sources(directories, vendor), wanted);
    assert(reads_from(
        sources[i],
        MetricKey::PowerDrawWatts,
        ReaderModel::MicroWatts(directories[d].path@ + "/"@ + directories[d].entries@[e].name@),
    ));
}

/// The momentary power of a device is read in microwatts from the files `powerN_input`.
pub proof fn law_momentary_power_is_read_from_its_files(
    directories: Seq<HwmonDirectory>,
    vendor: GpuVendor,
    sources: Seq<MetricSource>,
    d: int,
    e: int,
)
    requires
        source_views(sources) == hwmon_sources(directories, vendor),
        0 <= d < directories.len(),
        0 <= e < directories[d].entries@.len(),
        directories[d].entries@[e].is_file,
        attribute_index(directories[d].entries@[e].name@, "power"@, "_input"@) is Some,
    ensures
        exists|i: int|
            0 <= i < sources.len() && reads_from(
                #[trigger] sources[i],
                MetricKey::PowerDrawWatts,
                ReaderModel::MicroWatts(
                    directories[d].path@ + "/"@ + directories[d].entries@[e].name@,
                ),
            ),
{
    let file = lemma_sensor_found(directories, vendor, d, 2, e);
    let wanted = sensor_source(directories[d], vendor, sensor_kinds()[2], file)->0;
    let i = lemma_among(sources, hwmon_sources(directories, vendor), wanted);
    assert(reads_from(
        sources[i],
        MetricKey::PowerDrawWatts,
        ReaderModel::MicroWatts(directories[d].path@ + "/"@ + directories[d].entries@[e].name@),
    ));
}

/// The limit of the power of a device is read in microwatts from the files `powerN_cap`.
pub proof fn law_power_limit_is_read_from_its_files(
    directories: Seq<HwmonDirectory>,
    vendor: GpuVendor,
    sources: Seq<MetricSource>,
    d: int,
    e: int,
)
    requires
        source_views(sources) == hwmon_sources(directories, vendor),
        0 <= d < directories.len(),
        0 <= e < directories[d].entries@.len(),
        directories[d].entries@[e].is_file,
        attribute_index(directories[d].entries@[e].name@, "power"@, "_cap"@) is Some,
    ensures
        exists|i: int|
            0 <= i < sources.len() && reads_from(
                #[trigger] sources[i],
                MetricKey::PowerLimitWatts,
                ReaderModel::MicroWatts(
                    directories[d].path@ + "/"@ + directories[d].entries@[e].name@,
                ),
            ),
{
    let file = lemma_sensor_found(directories, vendor, d, 3, e);
    let wanted = sensor_source(directories[d], vendor, sensor_kinds()[3], file)->0;
    let i = lemma_among(sources, hwmon_sources(directories, vendor), wanted);
    assert(reads_from(
        sources[i],
        MetricKey::PowerLimitWatts,
        ReaderModel::MicroWatts(directories[d].path@ + "/"@ + directories[d].entries@[e].name@),
    ));
}

/// The energy of a device is read in microjoules from the files `energyN_input`.
pub proof fn law_energy_is_read_from_its_files(
    directories: Seq<HwmonDirectory>,
    vendor: GpuVendor,
    sources: Seq<MetricSource>,
    d: int,
    e: int,
)
    requires
        source_views(sources) == hwmon_sources(directories, vendor),
        0 <= d < directories.len(),
        0 <= e < directories[d].entries@.len(),
        directories[d].entries@[e].is_file,
        attribute_index(directories[d].entries@[e].name@, "energy"@, "_input"@) is Some,
    ensures
        exists|i: int|
            0 <= i < sources.len() && reads_from(
                #[trigger] sources[i],
                MetricKey::PowerEnergyJoules,
                ReaderModel::MicroJoules(
                    directories[d].path@ + "/"@ + directories[d].entries@[e].name@,
                ),
            ),
{
    let file = lemma_sensor_found(directories, vendor, d, 4, e);
    let wanted = sensor_source(directories[d], vendor, sensor_kinds()[4], file)->0;
    let i = lemma_among(sources, hwmon_sources(directories, vendor), wanted);
    assert(reads_from(
        sources[i],
        MetricKey::PowerEnergyJoules,
        ReaderModel::MicroJoules(directories[d].path@ + "/"@ + directories[d].entries@[e].name@),
    ));
}

/// The speed of a fan is read from the files `fanN_input`.
pub proof fn law_fan_speed_is_read_from_its_files(
    directories: Seq<HwmonDirectory>,
    vendor: GpuVendor,
    sources: Seq<MetricSource>,
    d: int,
    e: int,
)
    requires
        source_views(sources) == hwmon_sources(directories, vendor),
        0 <= d < directories.len(),
        0 <= e < directories[d].entries@.len(),
        directories[d].entries@[e].is_file,
        attribute_index(directories[d].entries@[e].name@, "fan"@, "_input"@) is Some,
    ensures
        exists|i: int|
            0 <= i < sources.len() && reads_from(
                #[trigger] sources[i],
                MetricKey::FanRpm,
                ReaderModel::Rpm(
                    directories[d].path@ + "/"@ + directories[d].entries@[e].name@,
                ),
            ),
{
    let file = lemma_sensor_found(directories, vendor, d, 5, e);
    let wanted = sensor_source(directories[d], vendor, sensor_kinds()[5], file)->0;
    let i = lemma_among(sources, hwmon_sources(directories, vendor), wanted);
    assert(reads_from(
        sources[i],
        MetricKey::FanRpm,
        ReaderModel::Rpm(directories[d].path@ + "/"@ + directories[d].entries@[e].name@),
    ));
}

/// What a label says that a temperature sensor measures: a word for the hot spot counts before one
/// for memory, that before the edge, and that before the core.
pub open spec fn label_means(plain: Seq<char>) -> Option<MetricKey> {
    let hot = contains(plain, "junction"@) || contains(plain, "hotspot"@) || contains(
        plain,
        "hot spot"@,
    );
    let memory = contains(plain, "memory"@) || contains(plain, "mem"@) || contains(plain, "vram"@)
        || contains(plain, "hbm"@);
    let core = contains(plain, "gpu"@) || contains(plain, "core"@) || contains(plain, "package"@)
        || contains(plain, "soc"@) || contains(plain, "graphics"@);
    if hot {
        Some(MetricKey::TemperatureHotspotCelsius)
    } else if memory {
        Some(MetricKey::TemperatureMemoryCelsius)
    } else if contains(plain, "edge"@) {
        Some(MetricKey::TemperatureEdgeCelsius)
    } else if core {
        Some(MetricKey::TemperatureCoreCelsius)
    } else {
        None
    }
}

/// The label without blanks around it, in lower case, with blanks for dashes.
pub open spec fn is_plain_label(label: Seq<char>, plain: Seq<char>) -> bool {
    let inner = crate::text::trim(crate::text::CharClass::White, label);
    &&& plain.len() == inner.len()
    &&& forall|i: int|
        0 <= i < plain.len() ==> #[trigger] plain[i] == if inner[i] == '_' || inner[i] == '-' {
            ' '
        } else {
            crate::text::lower_char(inner[i])
        }
}

/// A labelled temperature is what its label says, whatever the vendor and the number. Without a
/// label the first three sensors of AMD are the edge, the hot spot and the memory, and the first
/// one of another vendor is taken for the core.
pub proof fn law_temperatures_are_told_by_label_then_number(
    vendor: GpuVendor,
    index: nat,
    label: Option<Seq<char>>,
    plain: Seq<char>,
)
    requires
        label is Some ==> is_plain_label(label->0, plain),
    ensures
        ({
            let key = match temperature_meaning(vendor, index, label) {
                Some(meaning) => Some(meaning.key),
                None => None,
            };
            &&& label is Some ==> key == label_means(plain)
            &&& label is None && vendor == GpuVendor::Amd ==> key == if index == 1 {
                Some(MetricKey::TemperatureEdgeCelsius)
            } else if index == 2 {
                Some(MetricKey::TemperatureHotspotCelsius)
            } else if index == 3 {
                Some(MetricKey::TemperatureMemoryCelsius)
            } else {
                None
            }
            &&& label is None && vendor != GpuVendor::Amd ==> key == if index == 1 {
                Some(MetricKey::TemperatureCoreCelsius)
            } else {
                None
            }
        }),
{
    if label is Some {
        assert(crate::providers::linux::hwmon::plain_label(label->0) =~= plain);
    }
}

/// A temperature is read in thousandths of a degree from the files `tempN_input`, as the metric
/// that its label in `tempN_label` or its number names.
pub proof fn law_temperatures_are_read_from_their_files(
    directories: Seq<HwmonDirectory>,
    vendor: GpuVendor,
    sources: Seq<MetricSource>,
    d: int,
    e: int,
)
    requires
        source_views(sources) == hwmon_sources(directories, vendor),
        0 <= d < directories.len(),
        0 <= e < directories[d].entries@.len(),
        directories[d].entries@[e].is_file,
        attribute_index(directories[d].entries@[e].name@, "temp"@, "_input"@) is Some,
    ensures
        ({
            let index = attribute_index(
                directories[d].entries@[e].name@,
                "temp"@,
                "_input"@,
            )->0 as u32;
            let labels = directories[d].labels@;
            let name = "temp"@ + decimal(index as nat) + "_label"@;
            let label = if labels.contains_key(name) {
                Some(labels[name]@)
            } else {
                None
            };
            temperature_meaning(vendor, index as nat, label) matches Some(meaning) ==> exists|i: int|
                0 <= i < sources.len() && reads_from(
                    #[trigger] sources[i],
                    meaning.key,
                    ReaderModel::MilliCelsius(
                        directories[d].path@ + "/"@ + directories[d].entries@[e].name@,
                    ),
                )
        }),
{
    let file = lemma_sensor_found(directories, vendor, d, 0, e);
    let source = sensor_source(directories[d], vendor, sensor_kinds()[0], file);
    if source is Some {
        let i = lemma_among(sources, hwmon_sources(directories, vendor), source->0);
        assert(reads_from(
            sources[i],
            source->0.key,
            ReaderModel::MilliCelsius(
                directories[d].path@ + "/"@ + directories[d].entries@[e].name@,
            ),
        ));
    }
}

/// The first part of the reading holds a text and the double of a whole number.
pub open spec fn reads_number(reading: SourceReading, n: nat) -> bool {
    &&& reading.parts@.len() > 0
    &&& reading.parts@[0].text is Ok
    &&& reading.parts@[0].number is Ok
    &&& reading.parts@[0].number->Ok_0.value == double(n)
}

/// The double that is nearest to a quotient.
pub open spec fn nearest(n: nat, d: nat) -> MetricValue {
    MetricValue::Number(Binary64 { bits: rounded_bits(n, d, 1074) as u64 })
}

/// Thousandths of a degree become degrees, microwatts watts, microjoules joules and hertz
/// megahertz; a fan speed and a percentage stay as they are.
pub proof fn law_readings_are_scaled_to_their_units(
    path: Seq<char>,
    reading: SourceReading,
    device: Seq<char>,
    n: nat,
)
    requires
        reads_number(reading, n),
        0 < n < 0x20_0000_0000_0000,
    ensures
        outcome(ReaderModel::MicroWatts(path), reading, device) == Ok::<
            MetricValue,
            crate::providers::linux::metric::ReadErrorModel,
        >(nearest(n, 1_000_000)),
        outcome(ReaderModel::MicroJoules(path), reading, device) == Ok::<
            MetricValue,
            crate::providers::linux::metric::ReadErrorModel,
        >(nearest(n, 1_000_000)),
        outcome(ReaderModel::HertzToMhz(path), reading, device) == Ok::<
            MetricValue,
            crate::providers::linux::metric::ReadErrorModel,
        >(nearest(n, 1_000_000)),
        outcome(ReaderModel::Rpm(path), reading, device) == Ok::<
            MetricValue,
            crate::providers::linux::metric::ReadErrorModel,
        >(MetricValue::Number(double(n))),
        n <= 100 ==> outcome(ReaderModel::Percent(path), reading, device) == Ok::<
            MetricValue,
            crate::providers::linux::metric::ReadErrorModel,
        >(MetricValue::Number(double(n))),
        n > 100 ==> outcome(ReaderModel::Percent(path), reading, device) is Err,
        n <= 250_000 ==> outcome(ReaderModel::MilliCelsius(path), reading, device) == Ok::<
            MetricValue,
            crate::providers::linux::metric::ReadErrorModel,
        >(nearest(n, 1_000)),
        outcome(ReaderModel::MilliCelsius(path), reading, device) is Ok ==> outcome(
            ReaderModel::MilliCelsius(path),
            reading,
            device,
        )->Ok_0 == nearest(n, 1_000),
{
    law_named_doubles_are_their_numbers();
    law_quotients_are_nearest(n, 1_000_000);
    law_quotients_are_nearest(n, 1_000);
    lemma_not_negative(n, 1_000_000, 1074);
    lemma_not_negative(n, 1_000, 1074);
    let s = crate::float_laws::lemma_parts(n);
    vstd::arithmetic::power2::lemma2_to64();
    vstd::arithmetic::power2::lemma2_to64_rest();
    lemma_not_negative(n, 1, 1074);
    assert(double(n).bits == nearest_bits(n));
    if n <= 100 {
        crate::float_order::lemma_monotone(n, 100, 1, 1074);
        assert(double(n).bits <= HUNDRED);
        assert(double(n).percent());
    } else {
        crate::float_order::lemma_monotone(101, n, 1, 1074);
        crate::float_laws::lemma_bits_by(101, 46);
        assert(double(n).bits > HUNDRED);
        assert(!double(n).percent());
    }
    let reader = ReaderModel::Percent(path);
    assert(crate::providers::linux::metric::unit_of(reader)
        == crate::providers::linux::metric::Unit::One);
    if n <= 250_000 {
        crate::float_order::lemma_monotone(n, 250_000, 1_000, 1074);
        lemma_quarter_million();
    }
}

proof fn lemma_quarter_million()
    ensures
        rounded_bits(250_000, 1_000, 1074) == 0x406f_4000_0000_0000,
{
    vstd::arithmetic::power2::lemma2_to64();
    vstd::arithmetic::power2::lemma2_to64_rest();
    crate::float_laws::lemma_quotient_by(250_000, 1_000, 45, 250);
}

/// Bytes are read as they stand, in decimal or with a mark in hexadecimal.
pub proof fn law_bytes_are_read_as_they_stand(
    path: Seq<char>,
    reading: SourceReading,
    device: Seq<char>,
    text: String,
)
    requires
        reading.parts@.len() > 0,
        reading.parts@[0].text == Ok::<String, crate::providers::linux::metric::ReadFault>(text),
    ensures
        match attribute_number(text@) {
            Ok(n) => outcome(ReaderModel::Bytes(path), reading, device) == Ok::<
                MetricValue,
                crate::providers::linux::metric::ReadErrorModel,
            >(MetricValue::Integer(n as u64)),
            Err(_) => outcome(ReaderModel::Bytes(path), reading, device) is Err,
        },
{
}

/// The number that an attribute holds, where it holds one.
pub open spec fn holds_number(facts: DeviceFacts, name: Seq<char>, n: nat) -> bool {
    &&& facts.attributes@.contains_key(name)
    &&& attribute_number(facts.attributes@[name]@) == Ok::<nat, crate::text::NumberFault>(n)
}

/// The record of a PCI device has the numbers of its attributes, and the vendor that its number
/// stands for.
pub proof fn law_records_tell_the_pci_numbers(
    record: LinuxDeviceRecord,
    facts: DeviceFacts,
    groups: Seq<SourceGroup>,
    readings: Seq<Vec<SourceReading>>,
    vendor_id: u32,
    device_id: u32,
)
    requires
        is_record_of(record, facts, groups, readings),
        holds_number(facts, "vendor"@, vendor_id as nat),
        holds_number(facts, "device"@, device_id as nat),
    ensures
        record.observation.pci is Some,
        record.observation.pci->0.vendor_id == vendor_id,
        record.observation.pci->0.device_id == device_id,
        forall|n: u32|
            #[trigger] holds_number(facts, "subsystem_vendor"@, n as nat)
                ==> record.observation.pci->0.subsystem_vendor_id == Some(n),
        forall|n: u32|
            #[trigger] holds_number(facts, "subsystem_device"@, n as nat)
                ==> record.observation.pci->0.subsystem_device_id == Some(n),
        facts.pci_address is Some ==> record.observation.pci->0.address is Some
            && record.observation.pci->0.address->0@ == facts.pci_address->0@
            && record.provider_device_id@ == facts.pci_address->0@
            && record.observation.provider_device_id@ == facts.pci_address->0@,
        vendor_id == 0x10de ==> record.observation.vendor == GpuVendor::Nvidia,
        vendor_id == 0x1002 || vendor_id == 0x1022 ==> record.observation.vendor == GpuVendor::Amd,
        vendor_id == 0x8086 ==> record.observation.vendor == GpuVendor::Intel,
        vendor_id == 0x106b ==> record.observation.vendor == GpuVendor::Apple,
{
}

/// The record of a device has the memory that its attributes tell: VRAM is dedicated, GTT is
/// shared.
pub proof fn law_records_tell_the_memory(
    record: LinuxDeviceRecord,
    facts: DeviceFacts,
    groups: Seq<SourceGroup>,
    readings: Seq<Vec<SourceReading>>,
)
    requires
        is_record_of(record, facts, groups, readings),
    ensures
        forall|n: u64|
            #[trigger] holds_number(facts, "mem_info_vram_total"@, n as nat)
                ==> record.observation.memory.dedicated_total_bytes == Some(n),
        forall|n: u64|
            #[trigger] holds_number(facts, "mem_info_gtt_total"@, n as nat)
                ==> record.observation.memory.shared_total_bytes == Some(n),
        !facts.attributes@.contains_key("mem_info_vram_total"@)
            ==> record.observation.memory.dedicated_total_bytes is None,
        !facts.attributes@.contains_key("mem_info_gtt_total"@)
            ==> record.observation.memory.shared_total_bytes is None,
        record.observation.memory.unified_total_bytes is None,
        record.observation.memory.topology == MemoryTopology::Dedicated <==> (
        record.observation.memory.dedicated_total_bytes matches Some(n) && n > 0) && !(
        record.observation.memory.shared_total_bytes matches Some(m) && m > 0),
        record.observation.memory.topology == MemoryTopology::Mixed <==> (
        record.observation.memory.dedicated_total_bytes matches Some(n) && n > 0) && (
        record.observation.memory.shared_total_bytes matches Some(m) && m > 0),
        record.observation.memory.topology == MemoryTopology::Shared <==> !(
        record.observation.memory.dedicated_total_bytes matches Some(n) && n > 0) && (
        record.observation.memory.shared_total_bytes matches Some(m) && m > 0),
{
}

/// The record of a device has the names, versions and kinds that were found.
pub proof fn law_records_tell_names_and_drivers(
    record: LinuxDeviceRecord,
    facts: DeviceFacts,
    groups: Seq<SourceGroup>,
    readings: Seq<Vec<SourceReading>>,
)
    requires
        is_record_of(record, facts, groups, readings),
    ensures
        record.observation.provider@ == "linux-sysfs"@,
        record.device_path@ == facts.device_path@,
        facts.attributes@.contains_key("product_name"@)
            && facts.attributes@["product_name"@]@.len() > 0 ==> record.observation.name@
            == facts.attributes@["product_name"@]@,
        facts.attributes@.contains_key("vbios_version"@)
            && facts.attributes@["vbios_version"@]@.len() > 0
            ==> record.observation.firmware_version is Some
            && record.observation.firmware_version->0@ == facts.attributes@["vbios_version"@]@,
        facts.module_version matches Some(version) && version@.len() > 0
            ==> record.observation.driver_version is Some
            && record.observation.driver_version->0@ == facts.module_version->0@,
        facts.driver_module matches Some(driver) && (driver@ == "virtio_gpu"@ || driver@ == "qxl"@
            || driver@ == "vmwgfx"@ || driver@ == "bochs"@) ==> record.observation.kind
            == GpuKind::Virtual,
        facts.driver_module matches Some(driver) && driver@ == "asahi"@
            ==> record.observation.kind == GpuKind::Integrated,
        record.observation.partition is Some ==> record.observation.partition->0.partition_type
            == PartitionType::Sriov && facts.physical_function is Some
            && record.observation.parent_provider_device_id is Some
            && record.observation.parent_provider_device_id->0@ == facts.physical_function->0@,
{
    reveal_strlit("virtio_gpu");
    reveal_strlit("qxl");
    reveal_strlit("vmwgfx");
    reveal_strlit("bochs");
    reveal_strlit("asahi");
    assert("asahi"@[0] == 'a');
}

/// Without a PCI number the driver tells the vendor.
pub proof fn law_drivers_tell_the_vendor(driver: Option<Seq<char>>)
    ensures
        ({
            let vendor = crate::providers::linux::inventory::driver_vendor(driver);
            &&& driver == Some("amdgpu"@) || driver == Some("radeon"@) <==> vendor == GpuVendor::Amd
            &&& driver == Some("i915"@) || driver == Some("xe"@) <==> vendor == GpuVendor::Intel
            &&& driver == Some("nvidia"@) || driver == Some("nouveau"@) <==> vendor
                == GpuVendor::Nvidia
            &&& driver == Some("asahi"@) <==> vendor == GpuVendor::Apple
        }),
{
    reveal_strlit("amdgpu");
    reveal_strlit("radeon");
    reveal_strlit("i915");
    reveal_strlit("xe");
    reveal_strlit("nvidia");
    reveal_strlit("nouveau");
    reveal_strlit("asahi");
    assert("amdgpu"@[1] == 'm' && "radeon"@[1] == 'a' && "asahi"@[1] == 's');
    assert("i915"@[0] == 'i' && "xe"@[0] == 'x' && "nvidia"@[0] == 'n' && "nouveau"@[0] == 'n');
    assert("amdgpu"@[0] == 'a' && "radeon"@[0] == 'r' && "asahi"@[0] == 'a');
}

/// The driver is the module behind the link, else the link, else what the device says.
pub proof fn law_driver_names_are_found(facts: DeviceFacts)
    ensures
        facts.driver_module is Some ==> driver_of(facts) == opt_view(facts.driver_module),
        facts.driver_module is None && facts.driver_link is Some ==> driver_of(facts) == opt_view(
            facts.driver_link,
        ),
        facts.driver_module is None && facts.driver_link is None && facts.attributes@.contains_key(
            "uevent"@,
        ) ==> driver_of(facts) == crate::providers::linux::parse::uevent_field(
            lines(facts.attributes@["uevent"@]@),
            "DRIVER"@,
        ),
{
}

} // verus!
