//! Which reading of NVML becomes which metric, and in which unit.
use crate::binary64::Binary64;
use crate::float_arithmetic::rounded_bits;
use crate::float_laws::{double, law_named_doubles_are_their_numbers, law_quotients_are_nearest};
use crate::merge::ValueModel;
use crate::model::{
    metric_place, DeviceObservation, GpuKind, GpuVendor, MemoryTopology, MetricKey, MetricQuality,
    MetricValue, SampleRequest, TimestampMs, UnavailableReason,
};
use crate::monitor::metric_at;
use crate::providers::macos::device_laws::{count, lemma_first_named, lemma_listed, lemma_named};
use crate::providers::nvml::{
    failed, failure_reason, field_absence, field_of, field_value, fits_nvml, is_wanted, mean_percentage,
    mean_speed, nvml_values, percentage_result, process_count_words, reported_function, speed_count, speed_sum, with_process, FanReadings,
    FieldErrorModel, NvmlErrorKind, NvmlFailure, NvmlReadings, ProcessReading,
};
use crate::providers::nvml_info::{throttle_names, ThrottleFlags};
use crate::providers::nvml_inventory::{
    generation_name, is_nvml_metric, is_nvml_observation, probed_metrics, DeviceArchitecture, NvmlDeviceFacts,
    NvmlProbes,
};
use crate::providers::nvml_laws::lemma_metric_at;
use crate::text::{decimal, named, padded_digits};
use vstd::prelude::*;

verus! {

/// The double that is nearest to a quotient.
pub open spec fn nearest(n: nat, d: nat) -> Binary64 {
    Binary64 { bits: rounded_bits(n, d, 1074) as u64 }
}

/// The values hold one of the metric for the device, as NVML gave it at that time.
pub open spec fn reports(
    values: Seq<ValueModel>,
    device_id: Seq<char>,
    key: MetricKey,
    value: Binary64,
    sampled_at: TimestampMs,
) -> bool {
    exists|i: int|
        0 <= i < values.len() && (#[trigger] values[i]).metric == key && values[i].value
            == MetricValue::Number(value) && values[i].device_id == device_id
            && values[i].sampled_at == sampled_at && values[i].source == "nvml"@
            && values[i].quality == MetricQuality::Direct
}

proof fn lemma_value_in(
    readings: NvmlReadings,
    capabilities: Set<MetricKey>,
    request: SampleRequest,
    device_id: Seq<char>,
    sampled_at: TimestampMs,
    key: MetricKey,
    n: int,
)
    requires
        metric_place(key) < n <= 26,
        is_wanted(capabilities, request, key),
        field_of(key, readings) is Some,
        field_of(key, readings)->0.result is Ok,
    ensures
        nvml_values(readings, capabilities, request, device_id, sampled_at, n).contains(
            field_value(
                device_id,
                key,
                field_of(key, readings)->0,
                field_of(key, readings)->0.result->Ok_0,
                sampled_at,
            ),
        ),
    decreases n,
{
    let all = nvml_values(readings, capabilities, request, device_id, sampled_at, n);
    let before = nvml_values(readings, capabilities, request, device_id, sampled_at, n - 1);
    let field = field_of(key, readings)->0;
    let wanted = field_value(device_id, key, field, field.result->Ok_0, sampled_at);
    lemma_metric_at(n - 1);
    if metric_place(key) == n - 1 {
        assert(metric_at(n - 1) == key);
        assert(all[all.len() - 1] == wanted);
    } else {
        lemma_value_in(readings, capabilities, request, device_id, sampled_at, key, n - 1);
        let i = choose|i: int| 0 <= i < before.len() && before[i] == wanted;
        assert(all[i] == wanted);
    }
}

proof fn lemma_reported(
    readings: NvmlReadings,
    capabilities: Set<MetricKey>,
    request: SampleRequest,
    device_id: Seq<char>,
    sampled_at: TimestampMs,
    key: MetricKey,
    value: Binary64,
)
    requires
        is_wanted(capabilities, request, key),
        field_of(key, readings) is Some,
        field_of(key, readings)->0.result == Ok::<Binary64, FieldErrorModel>(value),
        metric_place(key) < 26,
    ensures
        reports(
            nvml_values(readings, capabilities, request, device_id, sampled_at, 26),
            device_id,
            key,
            value,
            sampled_at,
        ),
{
    lemma_value_in(readings, capabilities, request, device_id, sampled_at, key, 26);
    let all = nvml_values(readings, capabilities, request, device_id, sampled_at, 26);
    let wanted = field_value(device_id, key, field_of(key, readings)->0, value, sampled_at);
    let i = choose|i: int| 0 <= i < all.len() && all[i] == wanted;
    assert(all[i].metric == key);
}

/// The memory in use is the number of bytes that NVML gives.
pub proof fn law_memory_is_what_nvml_gives(
    readings: NvmlReadings,
    capabilities: Set<MetricKey>,
    request: SampleRequest,
    device_id: Seq<char>,
    sampled_at: TimestampMs,
    n: u64,
)
    requires
        readings.memory_used == Some(Ok::<u64, NvmlFailure>(n)),
        capabilities.contains(MetricKey::MemoryDedicatedUsedBytes),
        request.asks_for(MetricKey::MemoryDedicatedUsedBytes),
    ensures
        reports(
            nvml_values(readings, capabilities, request, device_id, sampled_at, 26),
            device_id,
            MetricKey::MemoryDedicatedUsedBytes,
            double(n as nat),
            sampled_at,
        ),
{
    lemma_reported(
        readings,
        capabilities,
        request,
        device_id,
        sampled_at,
        MetricKey::MemoryDedicatedUsedBytes,
        double(n as nat),
    );
}

/// The temperature of the core is the number of degrees that NVML gives.
pub proof fn law_temperature_is_what_nvml_gives(
    readings: NvmlReadings,
    capabilities: Set<MetricKey>,
    request: SampleRequest,
    device_id: Seq<char>,
    sampled_at: TimestampMs,
    n: u32,
)
    requires
        readings.temperature == Some(Ok::<u32, NvmlFailure>(n)),
        capabilities.contains(MetricKey::TemperatureCoreCelsius),
        request.asks_for(MetricKey::TemperatureCoreCelsius),
    ensures
        reports(
            nvml_values(readings, capabilities, request, device_id, sampled_at, 26),
            device_id,
            MetricKey::TemperatureCoreCelsius,
            double(n as nat),
            sampled_at,
        ),
{
    lemma_reported(
        readings,
        capabilities,
        request,
        device_id,
        sampled_at,
        MetricKey::TemperatureCoreCelsius,
        double(n as nat),
    );
}

/// The power is the thousandth part of the milliwatts that NVML gives.
pub proof fn law_power_draw_is_what_nvml_gives(
    readings: NvmlReadings,
    capabilities: Set<MetricKey>,
    request: SampleRequest,
    device_id: Seq<char>,
    sampled_at: TimestampMs,
    n: u32,
)
    requires
        readings.power_milliwatts == Some(Ok::<u32, NvmlFailure>(n)),
        capabilities.contains(MetricKey::PowerDrawWatts),
        request.asks_for(MetricKey::PowerDrawWatts),
    ensures
        reports(
            nvml_values(readings, capabilities, request, device_id, sampled_at, 26),
            device_id,
            MetricKey::PowerDrawWatts,
            nearest(n as nat, 1_000),
            sampled_at,
        ),
{
    lemma_reported(
        readings,
        capabilities,
        request,
        device_id,
        sampled_at,
        MetricKey::PowerDrawWatts,
        nearest(n as nat, 1_000),
    );
}

/// The limit of the power is the thousandth part of the milliwatts that NVML enforces.
pub proof fn law_power_limit_is_what_nvml_gives(
    readings: NvmlReadings,
    capabilities: Set<MetricKey>,
    request: SampleRequest,
    device_id: Seq<char>,
    sampled_at: TimestampMs,
    n: u32,
)
    requires
        readings.limit_milliwatts == Some(Ok::<u32, NvmlFailure>(n)),
        capabilities.contains(MetricKey::PowerLimitWatts),
        request.asks_for(MetricKey::PowerLimitWatts),
    ensures
        reports(
            nvml_values(readings, capabilities, request, device_id, sampled_at, 26),
            device_id,
            MetricKey::PowerLimitWatts,
            nearest(n as nat, 1_000),
            sampled_at,
        ),
{
    lemma_reported(
        readings,
        capabilities,
        request,
        device_id,
        sampled_at,
        MetricKey::PowerLimitWatts,
        nearest(n as nat, 1_000),
    );
}

/// The graphics clock is the number of megahertz that NVML gives for graphics.
pub proof fn law_graphics_clock_is_what_nvml_gives(
    readings: NvmlReadings,
    capabilities: Set<MetricKey>,
    request: SampleRequest,
    device_id: Seq<char>,
    sampled_at: TimestampMs,
    n: u32,
)
    requires
        readings.graphics_clock == Some(Ok::<u32, NvmlFailure>(n)),
        capabilities.contains(MetricKey::ClockGraphicsMhz),
        request.asks_for(MetricKey::ClockGraphicsMhz),
    ensures
        reports(
            nvml_values(readings, capabilities, request, device_id, sampled_at, 26),
            device_id,
            MetricKey::ClockGraphicsMhz,
            double(n as nat),
            sampled_at,
        ),
{
    lemma_reported(
        readings,
        capabilities,
        request,
        device_id,
        sampled_at,
        MetricKey::ClockGraphicsMhz,
        double(n as nat),
    );
}

/// The compute clock is the number of megahertz that NVML gives for the multiprocessors.
pub proof fn law_compute_clock_is_what_nvml_gives(
    readings: NvmlReadings,
    capabilities: Set<MetricKey>,
    request: SampleRequest,
    device_id: Seq<char>,
    sampled_at: TimestampMs,
    n: u32,
)
    requires
        readings.sm_clock == Some(Ok::<u32, NvmlFailure>(n)),
        capabilities.contains(MetricKey::ClockComputeMhz),
        request.asks_for(MetricKey::ClockComputeMhz),
    ensures
        reports(
            nvml_values(readings, capabilities, request, device_id, sampled_at, 26),
            device_id,
            MetricKey::ClockComputeMhz,
            double(n as nat),
            sampled_at,
        ),
{
    lemma_reported(
        readings,
        capabilities,
        request,
        device_id,
        sampled_at,
        MetricKey::ClockComputeMhz,
        double(n as nat),
    );
}

/// The memory clock is the number of megahertz that NVML gives for the memory.
pub proof fn law_memory_clock_is_what_nvml_gives(
    readings: NvmlReadings,
    capabilities: Set<MetricKey>,
    request: SampleRequest,
    device_id: Seq<char>,
    sampled_at: TimestampMs,
    n: u32,
)
    requires
        readings.memory_clock == Some(Ok::<u32, NvmlFailure>(n)),
        capabilities.contains(MetricKey::ClockMemoryMhz),
        request.asks_for(MetricKey::ClockMemoryMhz),
    ensures
        reports(
            nvml_values(readings, capabilities, request, device_id, sampled_at, 26),
            device_id,
            MetricKey::ClockMemoryMhz,
            double(n as nat),
            sampled_at,
        ),
{
    lemma_reported(
        readings,
        capabilities,
        request,
        device_id,
        sampled_at,
        MetricKey::ClockMemoryMhz,
        double(n as nat),
    );
}

/// The video clock is the number of megahertz that NVML gives for video.
pub proof fn law_video_clock_is_what_nvml_gives(
    readings: NvmlReadings,
    capabilities: Set<MetricKey>,
    request: SampleRequest,
    device_id: Seq<char>,
    sampled_at: TimestampMs,
    n: u32,
)
    requires
        readings.video_clock == Some(Ok::<u32, NvmlFailure>(n)),
        capabilities.contains(MetricKey::ClockVideoMhz),
        request.asks_for(MetricKey::ClockVideoMhz),
    ensures
        reports(
            nvml_values(readings, capabilities, request, device_id, sampled_at, 26),
            device_id,
            MetricKey::ClockVideoMhz,
            double(n as nat),
            sampled_at,
        ),
{
    lemma_reported(
        readings,
        capabilities,
        request,
        device_id,
        sampled_at,
        MetricKey::ClockVideoMhz,
        double(n as nat),
    );
}

/// The energy is the thousandth part of the millijoules that NVML gives.
pub proof fn law_energy_is_what_nvml_gives(
    readings: NvmlReadings,
    capabilities: Set<MetricKey>,
    request: SampleRequest,
    device_id: Seq<char>,
    sampled_at: TimestampMs,
    n: u64,
)
    requires
        readings.energy_millijoules == Some(Ok::<u64, NvmlFailure>(n)),
        n < 0x20_0000_0000_0000,
        capabilities.contains(MetricKey::PowerEnergyJoules),
        request.asks_for(MetricKey::PowerEnergyJoules),
    ensures
        reports(
            nvml_values(readings, capabilities, request, device_id, sampled_at, 26),
            device_id,
            MetricKey::PowerEnergyJoules,
            nearest(n as nat, 1_000),
            sampled_at,
        ),
{
    law_named_doubles_are_their_numbers();
    law_quotients_are_nearest(n as nat, 1_000);
    lemma_reported(
        readings,
        capabilities,
        request,
        device_id,
        sampled_at,
        MetricKey::PowerEnergyJoules,
        nearest(n as nat, 1_000),
    );
}

/// The utilization of a device is the percentage that NVML gives for it.
pub proof fn law_utilization_is_what_nvml_gives(
    readings: NvmlReadings,
    capabilities: Set<MetricKey>,
    request: SampleRequest,
    device_id: Seq<char>,
    sampled_at: TimestampMs,
)
    requires
        readings.utilization is Some,
        readings.utilization->0 is Ok,
        readings.utilization->0->Ok_0.gpu <= 100,
        capabilities.contains(MetricKey::UtilizationOverall),
        request.asks_for(MetricKey::UtilizationOverall),
    ensures
        reports(
            nvml_values(readings, capabilities, request, device_id, sampled_at, 26),
            device_id,
            MetricKey::UtilizationOverall,
            double(readings.utilization->0->Ok_0.gpu as nat),
            sampled_at,
        ),
{
    lemma_reported(
        readings,
        capabilities,
        request,
        device_id,
        sampled_at,
        MetricKey::UtilizationOverall,
        double(readings.utilization->0->Ok_0.gpu as nat),
    );
}

/// The utilization of the memory controller is the percentage that NVML gives for the memory.
pub proof fn law_memory_utilization_is_what_nvml_gives(
    readings: NvmlReadings,
    capabilities: Set<MetricKey>,
    request: SampleRequest,
    device_id: Seq<char>,
    sampled_at: TimestampMs,
)
    requires
        readings.utilization is Some,
        readings.utilization->0 is Ok,
        readings.utilization->0->Ok_0.memory <= 100,
        capabilities.contains(MetricKey::UtilizationMemoryController),
        request.asks_for(MetricKey::UtilizationMemoryController),
    ensures
        reports(
            nvml_values(readings, capabilities, request, device_id, sampled_at, 26),
            device_id,
            MetricKey::UtilizationMemoryController,
            double(readings.utilization->0->Ok_0.memory as nat),
            sampled_at,
        ),
{
    lemma_reported(
        readings,
        capabilities,
        request,
        device_id,
        sampled_at,
        MetricKey::UtilizationMemoryController,
        double(readings.utilization->0->Ok_0.memory as nat),
    );
}

/// The utilization of the encoder is the percentage that NVML gives for it.
pub proof fn law_encoder_utilization_is_what_nvml_gives(
    readings: NvmlReadings,
    capabilities: Set<MetricKey>,
    request: SampleRequest,
    device_id: Seq<char>,
    sampled_at: TimestampMs,
)
    requires
        readings.encoder is Some,
        readings.encoder->0 is Ok,
        readings.encoder->0->Ok_0.utilization <= 100,
        capabilities.contains(MetricKey::UtilizationEncoder),
        request.asks_for(MetricKey::UtilizationEncoder),
    ensures
        reports(
            nvml_values(readings, capabilities, request, device_id, sampled_at, 26),
            device_id,
            MetricKey::UtilizationEncoder,
            double(readings.encoder->0->Ok_0.utilization as nat),
            sampled_at,
        ),
{
    lemma_reported(
        readings,
        capabilities,
        request,
        device_id,
        sampled_at,
        MetricKey::UtilizationEncoder,
        double(readings.encoder->0->Ok_0.utilization as nat),
    );
}

/// The utilization of the decoder is the percentage that NVML gives for it.
pub proof fn law_decoder_utilization_is_what_nvml_gives(
    readings: NvmlReadings,
    capabilities: Set<MetricKey>,
    request: SampleRequest,
    device_id: Seq<char>,
    sampled_at: TimestampMs,
)
    requires
        readings.decoder is Some,
        readings.decoder->0 is Ok,
        readings.decoder->0->Ok_0.utilization <= 100,
        capabilities.contains(MetricKey::UtilizationDecoder),
        request.asks_for(MetricKey::UtilizationDecoder),
    ensures
        reports(
            nvml_values(readings, capabilities, request, device_id, sampled_at, 26),
            device_id,
            MetricKey::UtilizationDecoder,
            double(readings.decoder->0->Ok_0.utilization as nat),
            sampled_at,
        ),
{
    lemma_reported(
        readings,
        capabilities,
        request,
        device_id,
        sampled_at,
        MetricKey::UtilizationDecoder,
        double(readings.decoder->0->Ok_0.utilization as nat),
    );
}

/// The mean of what the fans gave that could be read.
pub open spec fn is_mean_of(mean: Binary64, fans: FanReadings) -> bool {
    let n = match fans.count {
        Ok(count) => count as int,
        Err(_) => 1,
    };
    let read = if fans.speeds@.len() < n {
        fans.speeds@.len() as int
    } else {
        n
    };
    speed_count(fans.speeds@, read) > 0 && mean == nearest(
        speed_sum(fans.speeds@, read),
        speed_count(fans.speeds@, read),
    )
}

/// The speed of the fans is the mean of those that could be read, in turns or in percent.
pub proof fn law_fans_are_averaged(
    fans: FanReadings,
    unsupported: NvmlFailure,
)
    ensures
        mean_speed(fans, unsupported) matches Ok(mean) ==> is_mean_of(mean, fans),
        mean_percentage(fans, unsupported) matches Ok(mean) ==> is_mean_of(mean, fans) && (
        mean.bits <= 0x4059_0000_0000_0000 || mean.bits == 0x8000_0000_0000_0000),
        fans.count matches Ok(count) && (count == 0 || count > 64) ==> mean_speed(
            fans,
            unsupported,
        ) is Err,
{
}

/// What is said of numbers that NVML cannot mean: of more than one hundred percent, of more than
/// 64 fans and of too many processes. The number is told as it came.
pub proof fn law_impossible_numbers_are_told(value: u32, fans: FanReadings, unsupported: NvmlFailure)
    ensures
        value <= 100 ==> percentage_result(value) == Ok::<Binary64, FieldErrorModel>(
            nearest(value as nat, 1),
        ),
        value > 100 ==> percentage_result(value) == Err::<Binary64, FieldErrorModel>(
            FieldErrorModel::InvalidValue(
                "NVML returned an out-of-range percentage ("@ + decimal(value as nat) + ")"@,
            ),
        ),
        fans.count == Ok::<u32, NvmlFailure>(value) && value > 64 ==> mean_speed(fans, unsupported)
            == Err::<Binary64, FieldErrorModel>(
            FieldErrorModel::InvalidValue(
                "NVML reported an unreasonable fan count ("@ + decimal(value as nat)
                    + "); the safety limit is 64"@,
            ),
        ),
        process_count_words(value) == "NVML reported an unreasonable process count ("@ + decimal(
            value as nat,
        ) + "); the safety limit is 16384"@,
{
    if value <= 100 {
        law_quotients_are_nearest(value as nat, 1);
    }
}

/// Where no fan could be read, the failure of the last one is told; where there is no fan, that
/// the query is not supported.
pub proof fn law_the_last_fan_failure_is_told(fans: FanReadings, unsupported: NvmlFailure)
    ensures
        fans.count == Ok::<u32, NvmlFailure>(0) ==> mean_speed(fans, unsupported) == Err::<
            Binary64,
            FieldErrorModel,
        >(FieldErrorModel::Nvml { kind: unsupported.kind, words: unsupported.words@ }),
        fans.count matches Ok(count) && 0 < count <= 64 && fans.speeds@.len() == count && (forall|
            j: int,
        |
            0 <= j < count ==> (#[trigger] fans.speeds@[j]) is Err) ==> mean_speed(
            fans,
            unsupported,
        ) == Err::<Binary64, FieldErrorModel>(
            FieldErrorModel::Nvml {
                kind: fans.speeds@.last()->Err_0.kind,
                words: fans.speeds@.last()->Err_0.words@,
            },
        ),
{
    if fans.count is Ok && forall|j: int|
        0 <= j < fans.speeds@.len() ==> (#[trigger] fans.speeds@[j]) is Err {
        lemma_no_speed(fans.speeds@, fans.speeds@.len() as int);
    }
}

proof fn lemma_no_speed(speeds: Seq<Result<u32, NvmlFailure>>, n: int)
    requires
        0 <= n <= speeds.len(),
        forall|j: int| 0 <= j < speeds.len() ==> (#[trigger] speeds[j]) is Err,
    ensures
        speed_count(speeds, n) == 0,
    decreases n,
{
    if n > 0 {
        lemma_no_speed(speeds, n - 1);
    }
}

/// One more fan that was read adds its speed and counts once; one that failed adds nothing.
pub proof fn law_each_fan_counts_once(speeds: Seq<Result<u32, NvmlFailure>>, n: int)
    requires
        0 <= n < speeds.len(),
    ensures
        speed_sum(speeds, 0) == 0,
        speed_count(speeds, 0) == 0,
        speeds[n] matches Ok(speed) ==> speed_sum(speeds, n + 1) == speed_sum(speeds, n) + speed
            && speed_count(speeds, n + 1) == speed_count(speeds, n) + 1,
        speeds[n] is Err ==> speed_sum(speeds, n + 1) == speed_sum(speeds, n) && speed_count(
            speeds,
            n + 1,
        ) == speed_count(speeds, n),
{
}

/// The percentage of the fans is read from their percentages, and their speed from their turns.
pub proof fn law_fan_metrics_have_their_readings(readings: NvmlReadings, fans: FanReadings)
    ensures
        readings.fan_percent == Some(fans) ==> (field_of(
            MetricKey::FanPercent,
            readings,
        ) matches Some(field) && field.result == mean_percentage(fans, readings.unsupported)),
        readings.fan_rpm == Some(fans) ==> (field_of(MetricKey::FanRpm, readings) matches Some(
            field,
        ) && field.result == mean_speed(fans, readings.unsupported)),
        readings.fan_percent is None ==> field_of(MetricKey::FanPercent, readings) is None,
        readings.fan_rpm is None ==> field_of(MetricKey::FanRpm, readings) is None,
{
}

/// What a failed query means for its metric.
pub proof fn law_failures_have_their_reasons(kind: NvmlErrorKind)
    ensures
        failure_reason(kind) == UnavailableReason::Unsupported <==> kind
            == NvmlErrorKind::NotSupported || kind == NvmlErrorKind::FunctionNotFound || kind
            == NvmlErrorKind::FailedToLoadSymbol,
        failure_reason(kind) == UnavailableReason::PermissionDenied <==> kind
            == NvmlErrorKind::NoPermission || kind == NvmlErrorKind::OperatingSystem,
        failure_reason(kind) == UnavailableReason::DeviceLost <==> kind == NvmlErrorKind::GpuLost
            || kind == NvmlErrorKind::ResetRequired || kind == NvmlErrorKind::NotFound,
        failure_reason(kind) == UnavailableReason::DriverLibraryMissing <==> kind
            == NvmlErrorKind::DriverNotLoaded || kind == NvmlErrorKind::LibraryNotFound || kind
            == NvmlErrorKind::Libloading || kind == NvmlErrorKind::LibRmVersionMismatch,
        failure_reason(kind) == UnavailableReason::TemporarilyUnavailable <==> kind
            == NvmlErrorKind::Timeout || kind == NvmlErrorKind::NoData || kind
            == NvmlErrorKind::InUse || kind == NvmlErrorKind::InsufficientPower || kind
            == NvmlErrorKind::IrqIssue,
        failure_reason(kind) == UnavailableReason::ProviderError <==> kind == NvmlErrorKind::Other,
{
}

/// A failed query is told with the reason of its failure, by NVML, for its own metric and device.
pub proof fn law_failures_are_told_for_their_metric(
    device_id: Seq<char>,
    metric: MetricKey,
    operation: Seq<char>,
    failure: NvmlFailure,
)
    ensures
        ({
            let account = field_absence(device_id, metric, operation, failed(failure));
            &&& account.device_id == device_id
            &&& account.metric == metric
            &&& account.source == Some("nvml"@)
            &&& account.reason == failure_reason(failure.kind)
            &&& account.message == Some(
                "NVML "@ + operation + " query failed: "@ + failure.words@,
            )
        }),
{
}

/// A process is listed with the largest memory that either list gives for it.
pub proof fn law_processes_keep_their_largest_memory(
    processes: Map<u32, Option<u64>>,
    reading: ProcessReading,
    pid: u32,
)
    ensures
        ({
            let after = with_process(processes, reading);
            &&& processes.contains_key(pid) ==> after.contains_key(pid)
            &&& processes.contains_key(pid) && pid != reading.pid ==> after[pid] == processes[pid]
            &&& processes.contains_key(reading.pid) ==> {
                let (old, new) = (processes[reading.pid], reading.used_bytes);
                &&& old is None ==> after[reading.pid] == new
                &&& new is None ==> after[reading.pid] == old
                &&& old is Some && new is Some ==> after[reading.pid] is Some
                    && after[reading.pid]->0 >= old->0 && after[reading.pid]->0 >= new->0 && (
                after[reading.pid] == old || after[reading.pid] == new)
            }
            &&& !processes.contains_key(reading.pid) && processes.dom().len() < 16_384
                ==> after.contains_key(reading.pid) && after[reading.pid] == reading.used_bytes
            &&& !processes.contains_key(reading.pid) && processes.dom().len() >= 16_384 ==> after
                == processes
            &&& !processes.contains_key(pid) && pid != reading.pid ==> !after.contains_key(pid)
        }),
{
}

/// What a device was found to answer is what it offers.
pub proof fn law_offers_are_what_was_probed(probes: NvmlProbes, memory: bool)
    ensures
        ({
            let offered = probed_metrics(probes, memory);
            &&& offered.contains(MetricKey::UtilizationOverall) <==> probes.utilization
            &&& offered.contains(MetricKey::UtilizationMemoryController) <==> probes.utilization
            &&& offered.contains(MetricKey::UtilizationEncoder) <==> probes.encoder
            &&& offered.contains(MetricKey::UtilizationDecoder) <==> probes.decoder
            &&& offered.contains(MetricKey::MemoryDedicatedUsedBytes) <==> memory
            &&& offered.contains(MetricKey::TemperatureCoreCelsius) <==> probes.temperature
            &&& offered.contains(MetricKey::PowerDrawWatts) <==> probes.power
            &&& offered.contains(MetricKey::PowerLimitWatts) <==> probes.limit
            &&& offered.contains(MetricKey::PowerEnergyJoules) <==> probes.energy
            &&& offered.contains(MetricKey::ClockGraphicsMhz) <==> probes.graphics_clock
            &&& offered.contains(MetricKey::ClockComputeMhz) <==> probes.sm_clock
            &&& offered.contains(MetricKey::ClockMemoryMhz) <==> probes.memory_clock
            &&& offered.contains(MetricKey::ClockVideoMhz) <==> probes.video_clock
            &&& offered.contains(MetricKey::FanPercent) <==> mean_percentage(
                probes.fan_percent,
                probes.unsupported,
            ) is Ok
            &&& offered.contains(MetricKey::FanRpm) <==> mean_speed(
                probes.fan_rpm,
                probes.unsupported,
            ) is Ok
            &&& offered.contains(MetricKey::Processes) <==> probes.compute_processes
                || probes.graphics_processes
            &&& !offered.contains(MetricKey::UtilizationGraphics)
            &&& !offered.contains(MetricKey::TemperatureHotspotCelsius)
        }),
{
}

/// NVML puts itself forward for the metrics that a device can be found to answer, and for no
/// other.
pub proof fn law_claims_are_what_can_be_offered(probes: NvmlProbes, memory: bool, key: MetricKey)
    ensures
        probed_metrics(probes, memory).contains(key) ==> is_nvml_metric(key),
        is_nvml_metric(key) && probes.utilization && probes.encoder && probes.decoder && memory
            && probes.temperature && probes.power && probes.limit && probes.energy
            && probes.graphics_clock && probes.sm_clock && probes.memory_clock
            && probes.video_clock && mean_percentage(probes.fan_percent, probes.unsupported) is Ok
            && mean_speed(probes.fan_rpm, probes.unsupported) is Ok && probes.compute_processes
            ==> probed_metrics(probes, memory).contains(key),
{
}

/// An observation of NVML tells what the device gave: its identifiers, its memory, its versions
/// and its place.
pub proof fn law_observations_tell_the_facts(
    o: DeviceObservation,
    facts: NvmlDeviceFacts,
    index: u32,
    driver_version: Option<String>,
    on_windows: bool,
)
    requires
        is_nvml_observation(o, facts, index, driver_version, on_windows),
    ensures
        o.provider@ == "nvml"@,
        o.vendor == GpuVendor::Nvidia,
        o.uuid is Some ==> facts.uuid is Some && o.uuid->0@ == facts.uuid->0@
            && o.provider_device_id@ == facts.uuid->0@,
        o.driver_version == driver_version,
        o.firmware_version is Some ==> facts.vbios is Some && o.firmware_version->0@
            == facts.vbios->0@,
        o.memory.dedicated_total_bytes == facts.memory_total,
        o.memory.shared_total_bytes is None,
        o.memory.unified_total_bytes is None,
        o.memory.topology == MemoryTopology::Dedicated <==> facts.memory_total is Some,
        o.enumeration_ordinal == Some(index),
        o.kind == GpuKind::Discrete <==> on_windows && facts.pci is Some,
        facts.pci matches Some(pci) ==> {
            &&& o.pci is Some
            &&& o.pci->0.vendor_id == pci.combined % 0x1_0000
            &&& o.pci->0.device_id == pci.combined / 0x1_0000
            &&& pci.subsystem matches Some(id) ==> o.pci->0.subsystem_vendor_id == Some(
                (id % 0x1_0000) as u32,
            ) && o.pci->0.subsystem_device_id == Some((id / 0x1_0000) as u32)
            &&& o.pci->0.address is Some
            &&& o.pci->0.address->0@ == padded_digits(pci.domain as nat, 16, 4) + ":"@
                + padded_digits(pci.bus as nat, 16, 2) + ":"@ + padded_digits(
                pci.device as nat,
                16,
                2,
            ) + "."@ + padded_digits(reported_function(pci.bus_id@), 16, 0)
        },
        facts.pci is None ==> o.pci is None,
{
}

/// The names of the generations of NVIDIA devices.
pub proof fn law_generations_have_their_names()
    ensures
        generation_name(DeviceArchitecture::Kepler) == Some("Kepler"@),
        generation_name(DeviceArchitecture::Maxwell) == Some("Maxwell"@),
        generation_name(DeviceArchitecture::Pascal) == Some("Pascal"@),
        generation_name(DeviceArchitecture::Volta) == Some("Volta"@),
        generation_name(DeviceArchitecture::Turing) == Some("Turing"@),
        generation_name(DeviceArchitecture::Ampere) == Some("Ampere"@),
        generation_name(DeviceArchitecture::Ada) == Some("Ada Lovelace"@),
        generation_name(DeviceArchitecture::Hopper) == Some("Hopper"@),
        generation_name(DeviceArchitecture::Blackwell) == Some("Blackwell"@),
        generation_name(DeviceArchitecture::Unknown) is None,
{
}

/// How many reasons for a slow device are given.
pub open spec fn count_reasons(flags: ThrottleFlags) -> int {
    count(flags.gpu_idle) + count(flags.applications_clocks_setting) + count(flags.software_power_cap) + count(flags.hardware_slowdown) + count(flags.sync_boost) + count(flags.software_thermal_slowdown) + count(flags.hardware_thermal_slowdown) + count(flags.hardware_power_brake_slowdown) + count(flags.display_clock_setting)
}

/// A device that is slowed down is told by the names of its reasons, and by no other.
pub proof fn law_throttling_is_told_by_name(flags: ThrottleFlags)
    ensures
        ({
            let names = throttle_names(flags);
            &&& flags.gpu_idle ==> names.contains("gpu-idle"@)
            &&& flags.applications_clocks_setting ==> names.contains("applications-clocks-setting"@)
            &&& flags.software_power_cap ==> names.contains("software-power-cap"@)
            &&& flags.hardware_slowdown ==> names.contains("hardware-slowdown"@)
            &&& flags.sync_boost ==> names.contains("sync-boost"@)
            &&& flags.software_thermal_slowdown ==> names.contains("software-thermal-slowdown"@)
            &&& flags.hardware_thermal_slowdown ==> names.contains("hardware-thermal-slowdown"@)
            &&& flags.hardware_power_brake_slowdown ==> names.contains("hardware-power-brake-slowdown"@)
            &&& flags.display_clock_setting ==> names.contains("display-clock-setting"@)
            &&& names.len() == count_reasons(flags)
        }),
{
    let p0 = named(flags.gpu_idle, "gpu-idle"@);
    lemma_first_named(flags.gpu_idle, "gpu-idle"@);
    let p1 = p0 + named(flags.applications_clocks_setting, "applications-clocks-setting"@);
    lemma_named(p0, flags.applications_clocks_setting, "applications-clocks-setting"@);
    let p2 = p1 + named(flags.software_power_cap, "software-power-cap"@);
    lemma_named(p1, flags.software_power_cap, "software-power-cap"@);
    let p3 = p2 + named(flags.hardware_slowdown, "hardware-slowdown"@);
    lemma_named(p2, flags.hardware_slowdown, "hardware-slowdown"@);
    let p4 = p3 + named(flags.sync_boost, "sync-boost"@);
    lemma_named(p3, flags.sync_boost, "sync-boost"@);
    let p5 = p4 + named(flags.software_thermal_slowdown, "software-thermal-slowdown"@);
    lemma_named(p4, flags.software_thermal_slowdown, "software-thermal-slowdown"@);
    let p6 = p5 + named(flags.hardware_thermal_slowdown, "hardware-thermal-slowdown"@);
    lemma_named(p5, flags.hardware_thermal_slowdown, "hardware-thermal-slowdown"@);
    let p7 = p6 + named(flags.hardware_power_brake_slowdown, "hardware-power-brake-slowdown"@);
    lemma_named(p6, flags.hardware_power_brake_slowdown, "hardware-power-brake-slowdown"@);
    let p8 = p7 + named(flags.display_clock_setting, "display-clock-setting"@);
    lemma_named(p7, flags.display_clock_setting, "display-clock-setting"@);
    assert(throttle_names(flags) == p8);
    assert(flags.gpu_idle ==> p8.contains("gpu-idle"@)) by {
        lemma_listed(p8, "gpu-idle"@);
    }
    assert(flags.applications_clocks_setting ==> p8.contains("applications-clocks-setting"@)) by {
        lemma_listed(p8, "applications-clocks-setting"@);
    }
    assert(flags.software_power_cap ==> p8.contains("software-power-cap"@)) by {
        lemma_listed(p8, "software-power-cap"@);
    }
    assert(flags.hardware_slowdown ==> p8.contains("hardware-slowdown"@)) by {
        lemma_listed(p8, "hardware-slowdown"@);
    }
    assert(flags.sync_boost ==> p8.contains("sync-boost"@)) by {
        lemma_listed(p8, "sync-boost"@);
    }
    assert(flags.software_thermal_slowdown ==> p8.contains("software-thermal-slowdown"@)) by {
        lemma_listed(p8, "software-thermal-slowdown"@);
    }
    assert(flags.hardware_thermal_slowdown ==> p8.contains("hardware-thermal-slowdown"@)) by {
        lemma_listed(p8, "hardware-thermal-slowdown"@);
    }
    assert(flags.hardware_power_brake_slowdown ==> p8.contains("hardware-power-brake-slowdown"@)) by {
        lemma_listed(p8, "hardware-power-brake-slowdown"@);
    }
    assert(flags.display_clock_setting ==> p8.contains("display-clock-setting"@)) by {
        lemma_listed(p8, "display-clock-setting"@);
    }
}

/// Texts of up to 4096 bytes are taken from NVML, and longer ones are not.
pub proof fn law_long_texts_are_refused(text: Seq<char>)
    requires
        vstd::utf8::is_ascii_chars(text),
        text.len() <= usize::MAX,
    ensures
        fits_nvml(text) <==> text.len() <= 4_096,
{
    vstd::utf8::is_ascii_chars_encode_utf8(text);
}

} // verus!
