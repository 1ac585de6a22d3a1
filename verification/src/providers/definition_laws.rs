//! In which words the values of the providers are described.
use crate::model::{GpuVendor, MetricKey, MetricQuality, TimestampMs};
use crate::providers::linux::hwmon::{
    chip_remark, in_brackets, label_of, sensor_source, HwmonDirectory, NumberedModel, SensorKind,
};
use crate::providers::linux::inventory::{amd_source, AmdAttribute};
use crate::providers::macos::ioreport::{busy_values, energy_values, ChannelModel, DeltaSums};
use crate::providers::nvml::{
    codec_field, field_of, CodecReading, NvmlFailure, NvmlReadings,
};
use crate::providers::windows::pdh::{first_absences, group_definition, group_metric, EngineGroup};
use vstd::prelude::*;

verus! {

/// What NVML gives for a metric is described in the words of that metric.
pub proof fn law_nvml_values_are_described(key: MetricKey, readings: NvmlReadings)
    requires
        field_of(key, readings) is Some,
    ensures
        ({
            let field = field_of(key, readings)->0;
            match key {
                MetricKey::UtilizationOverall => field.operation == "utilization"@
                    && field.definition == Some(
                    "percentage of NVML's internal sample period during which one or more kernels executed on the GPU"@,
                ),
                MetricKey::UtilizationMemoryController => field.operation == "utilization"@
                    && field.definition == Some(
                    "percentage of NVML's internal sample period during which device memory was read or written"@,
                ),
                MetricKey::UtilizationEncoder => field.operation == "encoder utilization"@
                    && field.definition == Some(
                    "NVENC busy percentage over NVML's reported sampling period"@,
                ),
                MetricKey::UtilizationDecoder => field.operation == "decoder utilization"@
                    && field.definition == Some(
                    "NVDEC busy percentage over NVML's reported sampling period"@,
                ),
                MetricKey::MemoryDedicatedUsedBytes => field.operation == "framebuffer memory"@
                    && field.definition is None,
                MetricKey::TemperatureCoreCelsius => field.operation == "GPU temperature"@
                    && field.definition is None,
                MetricKey::PowerDrawWatts => field.operation == "power draw"@
                    && field.definition is None,
                MetricKey::PowerLimitWatts => field.operation == "enforced power limit"@
                    && field.definition == Some(
                    "effective power limit currently enforced by the NVIDIA driver"@,
                ),
                MetricKey::PowerEnergyJoules => field.operation == "total energy"@
                    && field.definition == Some(
                    "cumulative energy since the last NVIDIA driver reload"@,
                ),
                MetricKey::ClockGraphicsMhz => field.operation == "graphics clock"@
                    && field.definition is None,
                MetricKey::ClockComputeMhz => field.operation == "SM clock"@
                    && field.definition is None,
                MetricKey::ClockMemoryMhz => field.operation == "memory clock"@
                    && field.definition is None,
                MetricKey::ClockVideoMhz => field.operation == "video clock"@
                    && field.definition is None,
                MetricKey::FanPercent => field.operation == "fan speed percentage"@
                    && field.definition == Some(
                    "arithmetic mean of all NVML-reported GPU fan percentages"@,
                ),
                MetricKey::FanRpm => field.operation == "fan speed RPM"@ && field.definition == Some(
                    "arithmetic mean of all NVML-reported GPU fan RPM values"@,
                ),
                _ => false,
            }
        }),
{
}

/// The interval of an encoder or a decoder is its sampling period in milliseconds, rounded up; the
/// other values of NVML have none.
pub proof fn law_codec_intervals_are_rounded_up(
    operation: Seq<char>,
    reading: CodecReading,
    definition: Seq<char>,
)
    ensures
        ({
            let field = codec_field(operation, Ok::<CodecReading, NvmlFailure>(reading), definition);
            let interval = field.interval_ms->0;
            &&& field.interval_ms is Some
            &&& interval * 1_000 >= reading.sampling_period_us
            &&& interval * 1_000 < reading.sampling_period_us + 1_000
        }),
{
}

/// Values without a sampling period of their own have no interval.
pub proof fn law_other_values_have_no_interval(key: MetricKey, readings: NvmlReadings)
    requires
        field_of(key, readings) is Some,
        key != MetricKey::UtilizationEncoder,
        key != MetricKey::UtilizationDecoder,
    ensures
        field_of(key, readings)->0.interval_ms is None,
{
}

/// The load of a group of engines is told for its own metric and in its own words.
pub proof fn law_engine_loads_are_described(group: EngineGroup)
    ensures
        group == EngineGroup::Graphics ==> group_metric(group) == MetricKey::UtilizationGraphics
            && group_definition(group) == "maximum WDDM graphics engine percentage"@,
        group == EngineGroup::Compute ==> group_metric(group) == MetricKey::UtilizationCompute
            && group_definition(group) == "maximum WDDM compute engine percentage"@,
        group == EngineGroup::Copy ==> group_metric(group) == MetricKey::UtilizationCopy
            && group_definition(group) == "maximum WDDM copy engine percentage"@,
        group == EngineGroup::Encode ==> group_metric(group) == MetricKey::UtilizationEncoder
            && group_definition(group) == "maximum WDDM video encode engine percentage"@,
        group == EngineGroup::Decode ==> group_metric(group) == MetricKey::UtilizationDecoder
            && group_definition(group) == "maximum WDDM video decode engine percentage"@,
{
}

/// What an attribute of AMD gives is described in its own words, measured directly, and preferred
/// to what sensors give.
pub proof fn law_amd_values_are_described(device: Seq<char>, attribute: AmdAttribute)
    ensures
        ({
            let source = amd_source(device, attribute);
            &&& source.quality == MetricQuality::Direct
            &&& source.priority == 200
            &&& source.definition == match attribute {
                AmdAttribute::Busy => "AMD SMU-reported GPU busy percentage"@,
                AmdAttribute::MemoryBusy => "AMD SMU-reported memory-controller busy percentage"@,
                AmdAttribute::VramUsed => "AMD kernel-reported VRAM usage in bytes"@,
                AmdAttribute::GttUsed => "AMD kernel-reported GTT usage in bytes"@,
                AmdAttribute::GraphicsClock => "active AMD graphics DPM state clock in MHz"@,
                AmdAttribute::MemoryClock => "active AMD memory DPM state clock in MHz"@,
            }
        }),
{
}

/// What a sensor gives is described by what it measures, with its label and its chip. An average
/// is preferred to a momentary value, a labelled temperature to one without a label.
pub proof fn law_sensor_values_are_described(
    directory: HwmonDirectory,
    vendor: GpuVendor,
    kind: SensorKind,
    file: NumberedModel,
)
    requires
        sensor_source(directory, vendor, kind, file) is Some,
    ensures
        ({
            let source = sensor_source(directory, vendor, kind, file)->0;
            let label = label_of(directory, kind, file.index);
            let chip = chip_remark(directory.chip@);
            match kind {
                SensorKind::Temperature => source.priority == (if label is Some {
                    120i16
                } else {
                    90i16
                }) && (label is Some ==> source.definition == "Linux hwmon "@ + label->0
                    + " temperature in Celsius"@ + chip),
                SensorKind::PowerAverage => source.priority == 130 && source.definition
                    == "Linux hwmon average GPU power in watts"@ + in_brackets(label) + chip,
                SensorKind::PowerInput => source.priority == 120 && source.definition
                    == "Linux hwmon instantaneous GPU power in watts"@ + in_brackets(label) + chip,
                SensorKind::PowerCap => source.priority == 120 && source.definition
                    == "Linux hwmon GPU power cap in watts"@ + in_brackets(label) + chip,
                SensorKind::Energy => source.priority == 120 && source.definition
                    == "Linux hwmon cumulative GPU energy in joules"@ + in_brackets(label) + chip,
                SensorKind::FanSpeed => source.priority == 120 && source.definition
                    == "Linux hwmon GPU fan speed in RPM"@ + in_brackets(label) + chip,
                SensorKind::Pwm => source.priority == 110 && source.definition
                    == "Linux hwmon GPU PWM duty cycle as a percentage"@ + chip,
                SensorKind::Frequency => source.priority == 100 && label is Some
                    && source.definition == "Linux hwmon "@ + label->0 + " clock in MHz"@ + chip,
            }
        }),
{
}

/// The label and the chip are remarks in brackets, where there are any.
pub proof fn law_remarks_stand_in_brackets(text: Seq<char>)
    ensures
        in_brackets(Some(text)) == " ("@ + text + ")"@,
        in_brackets(None).len() == 0,
        text.len() > 0 ==> chip_remark(text) == " ("@ + text + ")"@,
        text.len() == 0 ==> chip_remark(text).len() == 0,
{
}

/// What the counters of Apple give is described in its own words.
pub proof fn law_counter_values_are_described(
    channels: Seq<ChannelModel>,
    sums: DeltaSums,
    device_id: Seq<char>,
    elapsed: u64,
    sampled_at: TimestampMs,
)
    ensures
        sums.total > 0 ==> busy_values(sums, device_id, elapsed, sampled_at)[0].definition == Some(
            "Apple IOReport non-idle GPU state residency over the sampling interval"@,
        ),
        energy_values(channels, sums, device_id, elapsed, sampled_at).len() == 2 ==> {
            let told = energy_values(channels, sums, device_id, elapsed, sampled_at);
            &&& told[0].metric == MetricKey::PowerEnergyJoules
            &&& told[0].definition == Some("GPU energy delta reported by Apple IOReport"@)
            &&& told[1].metric == MetricKey::PowerDrawWatts
            &&& told[1].definition == Some(
                "GPU energy delta divided by the monotonic sampling interval"@,
            )
        },
{
}

/// After the first collection of counters each of the six metrics awaits the second one.
pub proof fn law_first_collections_await_the_second(device_id: Seq<char>, k: int)
    requires
        0 <= k < 6,
    ensures
        first_absences(device_id, 6).len() == 6,
        first_absences(device_id, 6)[k].device_id == device_id,
        first_absences(device_id, 6)[k].reason == crate::model::UnavailableReason::FirstSample,
        first_absences(device_id, 6)[k].source == Some("windows-pdh"@),
        k == 0 ==> first_absences(device_id, 6)[k].metric == MetricKey::UtilizationOverall,
        k == 1 ==> first_absences(device_id, 6)[k].metric == MetricKey::UtilizationGraphics,
        k == 2 ==> first_absences(device_id, 6)[k].metric == MetricKey::UtilizationCompute,
        k == 3 ==> first_absences(device_id, 6)[k].metric == MetricKey::UtilizationCopy,
        k == 4 ==> first_absences(device_id, 6)[k].metric == MetricKey::UtilizationEncoder,
        k == 5 ==> first_absences(device_id, 6)[k].metric == MetricKey::UtilizationDecoder,
{
    reveal_with_fuel(first_absences, 7);
}

} // verus!
