//! What the readings of sensors mean, and what is said where there is none.
use crate::binary64::{HUNDRED, INFINITY, SIGN};
use crate::float_order::lemma_not_negative;
use crate::float_laws::{double, law_named_doubles_are_their_numbers, lemma_bits_by};
use crate::merge::ValueModel;
use crate::model::{
    GpuVendor, MetricKey, MetricQuality, MetricValue, TimestampMs, UnavailableReason,
};
use crate::provider::ProviderMetadata;
use crate::providers::linux::hwmon::{
    clock_meaning, entry_present, hwmon_sources, plain_label, sensor_kinds, sensor_source,
    HwmonDirectory,
};
use crate::providers::linux::inventory::{LinuxDeviceRecord, SourceGroup};
use crate::providers::linux::metric::{
    clock_values, outcome, source_views, worst_error, FaultKind, MetricReader, MetricSource,
    ReadErrorModel, ReaderModel, SourceReading,
};
use crate::providers::linux::parse::attribute_index;
use crate::providers::linux::provider::{
    first_working, group_outcome, sysfs_priorities, was_read, GroupOutcome, GroupReading,
    LinuxSysfsProvider,
};
use crate::providers::linux::source_laws::{
    lemma_among, lemma_sensor_found, reads_from, reads_number,
};
use crate::text::{contains, decimal};
use vstd::prelude::*;

verus! {

/// The metric is read from this one path.
pub open spec fn reads_only(reader: ReaderModel, path: Seq<char>) -> bool {
    match reader {
        ReaderModel::Percent(own) => own == path,
        ReaderModel::Bytes(own) => own == path,
        ReaderModel::MilliCelsius(own) => own == path,
        ReaderModel::MicroWatts(own) => own == path,
        ReaderModel::MicroJoules(own) => own == path,
        ReaderModel::Rpm(own) => own == path,
        ReaderModel::HertzToMhz(own) => own == path,
        ReaderModel::ActiveDpmMhz(own) => own == path,
        ReaderModel::PwmPercent { input, maximum } => input == path,
        ReaderModel::MaximumMhz(paths) => paths.len() == 1 && paths[0] == path,
    }
}

/// A read that failed gives no value. A refusal is told as such; a file that is gone is a lost
/// device or one to come back, by whether the device is still there; a file that is busy will come
/// back; anything else is an error. The message names the path and what went wrong.
pub proof fn law_failed_reads_have_their_reasons(
    reader: ReaderModel,
    path: Seq<char>,
    reading: SourceReading,
    device: Seq<char>,
)
    requires
        reads_only(reader, path),
        reading.parts@.len() > 0,
        reading.parts@[0].text is Err,
    ensures
        ({
            let fault = reading.parts@[0].text->Err_0;
            let result = outcome(reader, reading, device);
            &&& result is Err
            &&& result->Err_0.message == "could not read "@ + path + ": "@ + fault.words@
            &&& fault.kind == FaultKind::PermissionDenied <==> result->Err_0.reason
                == UnavailableReason::PermissionDenied
            &&& fault.kind == FaultKind::NotFound && !fault.device_exists <==> result->Err_0.reason
                == UnavailableReason::DeviceLost
            &&& fault.kind == FaultKind::InvalidData || fault.kind == FaultKind::Other
                <==> result->Err_0.reason == UnavailableReason::ProviderError
            &&& fault.kind == FaultKind::WouldBlock || fault.kind == FaultKind::Interrupted || (
            fault.kind == FaultKind::NotFound && fault.device_exists) <==> result->Err_0.reason
                == UnavailableReason::TemporarilyUnavailable
        }),
{
    if let ReaderModel::MaximumMhz(paths) = reader {
        reveal_with_fuel(clock_values, 2);
        reveal_with_fuel(crate::providers::linux::metric::clock_errors, 2);
        let errors = crate::providers::linux::metric::clock_errors(paths, reading.parts@, 1);
        assert(errors.len() == 1);
        assert(errors.drop_last().len() == 0);
        assert(worst_error(errors.drop_last()) is None);
        assert(worst_error(errors) == Some(errors[0]));
    }
}

/// A value below zero is no power, energy, speed or clock, and no percentage either.
pub proof fn law_values_below_zero_are_refused(
    path: Seq<char>,
    reading: SourceReading,
    device: Seq<char>,
)
    requires
        reading.parts@.len() > 0,
        reading.parts@[0].text is Ok,
        reading.parts@[0].number is Ok,
        reading.parts@[0].number->Ok_0.value.bits > SIGN,
        reading.parts@[0].number->Ok_0.value.bits < SIGN + INFINITY,
    ensures
        outcome(ReaderModel::Percent(path), reading, device) is Err,
        outcome(ReaderModel::Rpm(path), reading, device) is Err,
{
}

/// The duty of a fan is its share of the limit times a hundred; the limit is 255 where the fan
/// names none.
pub proof fn law_fan_duty_is_a_share_of_the_limit(
    input: Seq<char>,
    maximum: Option<Seq<char>>,
    reading: SourceReading,
    device: Seq<char>,
    p: nat,
    q: nat,
)
    requires
        reads_number(reading, p),
        0 < p < 0x20_0000_0000_0000,
        0 < q < 0x20_0000_0000_0000,
        maximum is None ==> q == 255,
        maximum is Some ==> {
            &&& reading.parts@.len() > 1
            &&& reading.parts@[1].present
            &&& reading.parts@[1].text is Ok
            &&& reading.parts@[1].number is Ok
            &&& reading.parts@[1].number->Ok_0.value == double(q)
        },
    ensures
        ({
            let result = outcome(ReaderModel::PwmPercent { input, maximum }, reading, device);
            let share = double(p).over(double(q));
            share.bits < INFINITY ==> {
                let percent = share.times(double(100));
                &&& percent.bits <= double(100).bits ==> result == Ok::<
                    MetricValue,
                    ReadErrorModel,
                >(MetricValue::Number(percent))
                &&& double(100).bits < percent.bits <= INFINITY ==> result is Err
            }
        }),
{
    law_named_doubles_are_their_numbers();
    vstd::arithmetic::power2::lemma2_to64();
    vstd::arithmetic::power2::lemma2_to64_rest();
    lemma_bits_by(255, 45);
    let s = crate::float_laws::lemma_parts(p);
    let t = crate::float_laws::lemma_parts(q);
    lemma_not_negative(p, 1, 1074);
    lemma_not_negative(q, 1, 1074);
    lemma_not_negative(100, 1, 1074);
    lemma_not_negative(255, 1, 1074);
    assert(double(100).bits == HUNDRED);
    assert(double(255).bits == crate::providers::linux::metric::FULL_PWM);
    assert(double(p).bits < INFINITY);
    assert(0 < double(q).bits < INFINITY);
}

/// The duty of a fan is read from the files `pwmN`, with the limit in `pwmN_max` where that is
/// there.
pub proof fn law_fan_duty_is_read_from_its_files(
    directories: Seq<HwmonDirectory>,
    vendor: GpuVendor,
    sources: Seq<MetricSource>,
    d: int,
    e: int,
)
    requires
        source_views(sources) == hwmon_sources(directories, vendor),
        0 <= d < directories.len(),
        0 <= e < directories[d].entries@.len(),
        directories[d].entries@[e].is_file,
        attribute_index(directories[d].entries@[e].name@, "pwm"@, ""@) is Some,
    ensures
        ({
            let entries = directories[d].entries@;
            let index = attribute_index(entries[e].name@, "pwm"@, ""@)->0 as u32;
            let limit = "pwm"@ + decimal(index as nat) + "_max"@;
            exists|i: int|
                0 <= i < sources.len() && (#[trigger] sources[i]).key == MetricKey::FanPercent
                    && sources[i].quality == MetricQuality::Derived && (sources[i].reader matches
                    MetricReader::PwmPercent { input, maximum } && input@
                    == directories[d].path@ + "/"@ + entries[e].name@ && (if entry_present(
                    entries,
                    limit,
                ) {
                    maximum is Some && maximum->0@ == directories[d].path@ + "/"@ + limit
                } else {
                    maximum is None
                }))
        }),
{
    let file = lemma_sensor_found(directories, vendor, d, 6, e);
    let wanted = sensor_source(directories[d], vendor, sensor_kinds()[6], file)->0;
    let i = lemma_among(sources, hwmon_sources(directories, vendor), wanted);
    assert(sources[i].key == MetricKey::FanPercent);
}

/// What the label of a clock says: a word for the memory counts before one for the graphics unit,
/// and that before one for video.
pub proof fn law_clocks_are_told_by_label(label: Seq<char>)
    ensures
        ({
            let plain = plain_label(label);
            let memory = contains(plain, "memory"@) || contains(plain, "mem"@) || contains(
                plain,
                "mclk"@,
            );
            let graphics = contains(plain, "graphics"@) || contains(plain, "gfx"@) || contains(
                plain,
                "sclk"@,
            ) || contains(plain, "core"@) || contains(plain, "gpu"@);
            let video = contains(plain, "video"@) || contains(plain, "media"@) || contains(
                plain,
                "vclk"@,
            );
            &&& memory <==> clock_meaning(label) == Some(MetricKey::ClockMemoryMhz)
            &&& !memory && graphics <==> clock_meaning(label) == Some(MetricKey::ClockGraphicsMhz)
            &&& !memory && !graphics && video <==> clock_meaning(label) == Some(
                MetricKey::ClockVideoMhz,
            )
            &&& !memory && !graphics && !video <==> clock_meaning(label) is None
        }),
{
}

/// A labelled clock is read in hertz from its file `freqN_input`.
pub proof fn law_clocks_are_read_from_their_files(
    directories: Seq<HwmonDirectory>,
    vendor: GpuVendor,
    sources: Seq<MetricSource>,
    d: int,
    e: int,
)
    requires
        source_views(sources) == hwmon_sources(directories, vendor),
        0 <= d < directories.len(),
        0 <= e < directories[d].entries@.len(),
        directories[d].entries@[e].is_file,
        attribute_index(directories[d].entries@[e].name@, "freq"@, "_input"@) is Some,
    ensures
        ({
            let index = attribute_index(
                directories[d].entries@[e].name@,
                "freq"@,
                "_input"@,
            )->0 as u32;
            let labels = directories[d].labels@;
            let name = "freq"@ + decimal(index as nat) + "_label"@;
            labels.contains_key(name) && clock_meaning(labels[name]@) is Some ==> exists|i: int|
                0 <= i < sources.len() && reads_from(
                    #[trigger] sources[i],
                    clock_meaning(labels[name]@)->0,
                    ReaderModel::HertzToMhz(
                        directories[d].path@ + "/"@ + directories[d].entries@[e].name@,
                    ),
                )
        }),
{
    let file = lemma_sensor_found(directories, vendor, d, 7, e);
    let source = sensor_source(directories[d], vendor, sensor_kinds()[7], file);
    if source is Some {
        let i = lemma_among(sources, hwmon_sources(directories, vendor), source->0);
        assert(reads_from(
            sources[i],
            source->0.key,
            ReaderModel::HertzToMhz(
                directories[d].path@ + "/"@ + directories[d].entries@[e].name@,
            ),
        ));
    }
}

/// Of several failures the gravest is told: a refusal before a loss, that before an error, and
/// that before one that will pass.
pub proof fn law_the_gravest_failure_is_told(errors: Seq<ReadErrorModel>, k: int)
    requires
        0 <= k < errors.len(),
    ensures
        worst_error(errors) is Some,
        errors.contains(worst_error(errors)->0),
        errors[k].reason == UnavailableReason::PermissionDenied ==> worst_error(errors)->0.reason
            == UnavailableReason::PermissionDenied,
        errors[k].reason == UnavailableReason::DeviceLost ==> worst_error(errors)->0.reason
            == UnavailableReason::PermissionDenied || worst_error(errors)->0.reason
            == UnavailableReason::DeviceLost,
        errors[k].reason == UnavailableReason::ProviderError ==> worst_error(errors)->0.reason
            != UnavailableReason::TemporarilyUnavailable && worst_error(errors)->0.reason
            != UnavailableReason::Unsupported,
    decreases errors.len(),
{
    let n = errors.len();
    let rest = errors.drop_last();
    assert(errors[n - 1] == errors.last());
    if n > 1 {
        if k < n - 1 {
            assert(rest[k] == errors[k]);
            law_the_gravest_failure_is_told(rest, k);
        } else {
            law_the_gravest_failure_is_told(rest, 0);
        }
        let worst = worst_error(rest)->0;
        let i = choose|i: int| 0 <= i < rest.len() && rest[i] == worst;
        assert(errors[i] == worst);
        assert(errors.contains(worst));
    } else {
        assert(worst_error(rest) is None);
    }
    assert(errors.contains(errors[n - 1]));
}

proof fn lemma_first_working(
    sources: Seq<MetricSource>,
    readings: Seq<SourceReading>,
    device: Seq<char>,
    from: int,
    s: int,
)
    requires
        0 <= from <= s < sources.len(),
        was_read(sources[s], readings, s),
        outcome(sources[s].reader@, readings[s], device) is Ok,
        forall|j: int|
            from <= j < s ==> !(was_read(#[trigger] sources[j], readings, j) && outcome(
                sources[j].reader@,
                readings[j],
                device,
            ) is Ok),
    ensures
        first_working(sources, readings, device, from) == s,
    decreases s - from,
{
    if from < s {
        lemma_first_working(sources, readings, device, from + 1, s);
    }
}

/// The first source that gives a value is the one that counts. The value carries the name of the
/// device, the metric, the quality and the words of the source, and the time.
pub proof fn law_the_first_working_source_counts(
    record: LinuxDeviceRecord,
    group: SourceGroup,
    reading: GroupReading,
    device_id: Seq<char>,
    sampled_at: TimestampMs,
    s: int,
)
    requires
        reading.device_exists,
        0 <= s < group.sources@.len(),
        was_read(group.sources@[s], reading.readings@, s),
        outcome(group.sources@[s].reader@, reading.readings@[s], record.device_path@) is Ok,
        forall|j: int|
            0 <= j < s ==> !(was_read(#[trigger] group.sources@[j], reading.readings@, j)
                && outcome(
                group.sources@[j].reader@,
                reading.readings@[j],
                record.device_path@,
            ) is Ok),
    ensures
        group_outcome(record, group, reading, device_id, sampled_at) == GroupOutcome::Value(
            ValueModel {
                device_id,
                metric: group.key,
                value: outcome(
                    group.sources@[s].reader@,
                    reading.readings@[s],
                    record.device_path@,
                )->Ok_0,
                source: "linux-sysfs"@,
                quality: group.sources@[s].quality,
                sampled_at,
                interval_ms: None,
                definition: Some(group.sources@[s].definition@),
            },
        ),
{
    reveal(group_outcome);
    lemma_first_working(group.sources@, reading.readings@, record.device_path@, 0, s);
}

/// Where the device is gone, no value is told, and the metric is missing for that reason.
pub proof fn law_lost_devices_are_told(
    record: LinuxDeviceRecord,
    group: SourceGroup,
    reading: GroupReading,
    device_id: Seq<char>,
    sampled_at: TimestampMs,
)
    requires
        !reading.device_exists,
    ensures
        ({
            let result = group_outcome(record, group, reading, device_id, sampled_at);
            &&& result is Absent
            &&& result->Absent_0.reason == UnavailableReason::DeviceLost
            &&& result->Absent_0.metric == group.key
            &&& result->Absent_0.device_id == device_id
            &&& result->Absent_0.source == Some("linux-sysfs"@)
            &&& result->Absent_0.message == Some(
                "Linux GPU sysfs device "@ + record.device_path@ + " disappeared"@,
            )
        }),
{
    reveal(group_outcome);
}

/// A device is found under the provider's own name for it; the last record of a name counts.
pub proof fn law_records_are_kept_by_name(records: Seq<LinuxDeviceRecord>, i: int)
    requires
        0 <= i < records.len(),
        forall|j: int|
            i < j < records.len() ==> (#[trigger] records[j]).provider_device_id@
                != records[i].provider_device_id@,
    ensures
        LinuxSysfsProvider::by_name(records).contains_key(records[i].provider_device_id@),
        LinuxSysfsProvider::by_name(records)[records[i].provider_device_id@] == records[i],
    decreases records.len(),
{
    let n = records.len();
    if i < n - 1 {
        let rest = records.drop_last();
        assert(rest[i] == records[i]);
        assert forall|j: int| i < j < rest.len() implies (#[trigger] rest[j]).provider_device_id@
            != rest[i].provider_device_id@ by {
            assert(rest[j] == records[j]);
        }
        law_records_are_kept_by_name(rest, i);
        assert(records[n - 1].provider_device_id@ != records[i].provider_device_id@);
    }
}

/// Sysfs is preferred with ten for what the driver itself measures, with eight for what sensors
/// give, and not at all for what it does not give.
pub proof fn law_sysfs_is_preferred_for_what_it_gives(metadata: ProviderMetadata, key: MetricKey)
    requires
        metadata.metric_priorities@ == sysfs_priorities(),
    ensures
        metadata.priority(key) == 10 <==> key == MetricKey::UtilizationOverall || key
            == MetricKey::MemoryBandwidthUtilizationPercent || key
            == MetricKey::MemoryDedicatedUsedBytes || key == MetricKey::MemorySharedUsedBytes
            || key == MetricKey::TemperatureEdgeCelsius || key
            == MetricKey::TemperatureHotspotCelsius || key == MetricKey::TemperatureMemoryCelsius,
        metadata.priority(key) == 8 <==> key == MetricKey::TemperatureCoreCelsius || key
            == MetricKey::PowerDrawWatts || key == MetricKey::PowerLimitWatts || key
            == MetricKey::PowerEnergyJoules || key == MetricKey::ClockGraphicsMhz || key
            == MetricKey::ClockMemoryMhz || key == MetricKey::FanPercent || key
            == MetricKey::FanRpm,
        metadata.priority(key) == 10 || metadata.priority(key) == 8 || metadata.priority(key) == 0,
{
}

} // verus!
