//! What holds of the metrics and of the processes that NVML reports.
use crate::merge::{absence_entries, value_entries};
use crate::model::{metric_place, GpuProcessSnapshot, MetricKey, SampleRequest, TimestampMs};
use crate::monitor::metric_at;
use crate::providers::nvml::{
    field_of, is_wanted, nvml_absences, nvml_values, pids, process_error, reports_processes,
    NvmlReadings, ProcessQuery, MAX_NVML_PROCESSES,
};
use vstd::prelude::*;

verus! {

/// The query was answered with no processes.
pub open spec fn finds_none(query: ProcessQuery) -> bool {
    &&& query.count matches Ok(count) && count <= MAX_NVML_PROCESSES
    &&& query.list matches Ok(list) && list@.len() == 0
}

/// The query was not answered.
pub open spec fn fails(query: ProcessQuery) -> bool {
    query.count is Err || (query.list is Err && query.count->Ok_0 <= MAX_NVML_PROCESSES)
}

/// A device without processes is reported to have none: the list is there, and is empty.
pub proof fn law_no_processes_is_an_answer(
    processes: Option<Vec<GpuProcessSnapshot>>,
    readings: NvmlReadings,
    capabilities: Set<MetricKey>,
    request: SampleRequest,
    sampled_at: TimestampMs,
)
    requires
        readings.compute_processes matches Some(query) && finds_none(query),
        readings.graphics_processes matches Some(query) && finds_none(query),
        is_wanted(capabilities, request, MetricKey::Processes),
        reports_processes(processes, readings, capabilities, request, sampled_at),
    ensures
        processes matches Some(list) && list@.len() == 0,
{
    let list = processes->0@;
    if list.len() > 0 {
        let all = pids(list);
        assert(all.contains(all[0]));
        assert(!Map::<u32, Option<u64>>::empty().dom().contains(all[0]));
    }
}

/// A device whose processes could not be queried is not reported to have none: there is no list.
pub proof fn law_failed_queries_are_no_answer(
    processes: Option<Vec<GpuProcessSnapshot>>,
    readings: NvmlReadings,
    capabilities: Set<MetricKey>,
    request: SampleRequest,
    sampled_at: TimestampMs,
)
    requires
        readings.compute_processes matches Some(query) && fails(query),
        readings.graphics_processes matches Some(query) && fails(query),
        reports_processes(processes, readings, capabilities, request, sampled_at),
    ensures
        processes is None,
{
}

/// The queries for a metric were made.
pub open spec fn is_queried(readings: NvmlReadings, key: MetricKey) -> bool {
    if key == MetricKey::Processes {
        readings.compute_processes is Some && readings.graphics_processes is Some
    } else {
        field_of(key, readings) is Some
    }
}

/// The queries for every wanted metric were made.
pub open spec fn answers_all(
    readings: NvmlReadings,
    capabilities: Set<MetricKey>,
    request: SampleRequest,
) -> bool {
    forall|key: MetricKey| #[trigger]
        is_wanted(capabilities, request, key) ==> is_queried(readings, key)
}

/// Each of the places of metrics has one metric.
pub proof fn lemma_metric_at(place: int)
    requires
        0 <= place < 26,
    ensures
        metric_place(metric_at(place)) == place,
{
    assert(metric_place(MetricKey::UtilizationOverall) == 0);
    assert(metric_place(MetricKey::UtilizationGraphics) == 1);
    assert(metric_place(MetricKey::UtilizationCompute) == 2);
    assert(metric_place(MetricKey::UtilizationCopy) == 3);
    assert(metric_place(MetricKey::UtilizationMemoryController) == 4);
    assert(metric_place(MetricKey::UtilizationEncoder) == 5);
    assert(metric_place(MetricKey::UtilizationDecoder) == 6);
    assert(metric_place(MetricKey::MemoryDedicatedUsedBytes) == 7);
    assert(metric_place(MetricKey::MemorySharedUsedBytes) == 8);
    assert(metric_place(MetricKey::MemoryUnifiedUsedBytes) == 9);
    assert(metric_place(MetricKey::MemoryBudgetBytes) == 10);
    assert(metric_place(MetricKey::MemoryBandwidthUtilizationPercent) == 11);
    assert(metric_place(MetricKey::TemperatureCoreCelsius) == 12);
    assert(metric_place(MetricKey::TemperatureEdgeCelsius) == 13);
    assert(metric_place(MetricKey::TemperatureHotspotCelsius) == 14);
    assert(metric_place(MetricKey::TemperatureMemoryCelsius) == 15);
    assert(metric_place(MetricKey::PowerDrawWatts) == 16);
    assert(metric_place(MetricKey::PowerLimitWatts) == 17);
    assert(metric_place(MetricKey::PowerEnergyJoules) == 18);
    assert(metric_place(MetricKey::ClockGraphicsMhz) == 19);
    assert(metric_place(MetricKey::ClockComputeMhz) == 20);
    assert(metric_place(MetricKey::ClockMemoryMhz) == 21);
    assert(metric_place(MetricKey::ClockVideoMhz) == 22);
    assert(metric_place(MetricKey::FanPercent) == 23);
    assert(metric_place(MetricKey::FanRpm) == 24);
    assert(metric_place(MetricKey::Processes) == 25);
}

/// The metric has a value by the readings.
spec fn has_value(
    readings: NvmlReadings,
    capabilities: Set<MetricKey>,
    request: SampleRequest,
    key: MetricKey,
) -> bool {
    is_wanted(capabilities, request, key) && match field_of(key, readings) {
        Some(field) => field.result is Ok,
        None => false,
    }
}

/// The metric has an account by the readings.
spec fn has_account(
    readings: NvmlReadings,
    capabilities: Set<MetricKey>,
    request: SampleRequest,
    key: MetricKey,
) -> bool {
    is_wanted(capabilities, request, key) && if key == MetricKey::Processes {
        process_error(readings) is Some
    } else {
        match field_of(key, readings) {
            Some(field) => field.result is Err,
            None => false,
        }
    }
}

proof fn lemma_entries(
    readings: NvmlReadings,
    capabilities: Set<MetricKey>,
    request: SampleRequest,
    device_id: Seq<char>,
    sampled_at: TimestampMs,
    key: MetricKey,
    n: int,
)
    requires
        0 <= n <= 26,
    ensures
        value_entries(
            nvml_values(readings, capabilities, request, device_id, sampled_at, n),
            key,
        ) == if metric_place(key) < n && has_value(readings, capabilities, request, key) {
            1nat
        } else {
            0nat
        },
        absence_entries(nvml_absences(readings, capabilities, request, device_id, n), key) == if
        metric_place(key) < n && has_account(readings, capabilities, request, key) {
            1nat
        } else {
            0nat
        },
    decreases n,
{
    if n > 0 {
        lemma_entries(readings, capabilities, request, device_id, sampled_at, key, n - 1);
        lemma_metric_at(n - 1);
        let values = nvml_values(readings, capabilities, request, device_id, sampled_at, n);
        let values_before = nvml_values(
            readings,
            capabilities,
            request,
            device_id,
            sampled_at,
            n - 1,
        );
        if values != values_before {
            assert(values.drop_last() == values_before);
        }
        let accounts = nvml_absences(readings, capabilities, request, device_id, n);
        let accounts_before = nvml_absences(readings, capabilities, request, device_id, n - 1);
        if accounts != accounts_before {
            assert(accounts.drop_last() == accounts_before);
        }
    }
}

/// A wanted metric is reported exactly once, as a value or with the reason why there is none, and
/// the processes as a list or with that reason. No other metric is reported.
pub proof fn law_wanted_metrics_are_reported_once(
    processes: Option<Vec<GpuProcessSnapshot>>,
    readings: NvmlReadings,
    capabilities: Set<MetricKey>,
    request: SampleRequest,
    device_id: Seq<char>,
    sampled_at: TimestampMs,
    key: MetricKey,
)
    requires
        answers_all(readings, capabilities, request),
        reports_processes(processes, readings, capabilities, request, sampled_at),
    ensures
        ({
            let values = nvml_values(readings, capabilities, request, device_id, sampled_at, 26);
            let accounts = nvml_absences(readings, capabilities, request, device_id, 26);
            let lists = if key == MetricKey::Processes && processes is Some {
                1nat
            } else {
                0nat
            };
            value_entries(values, key) + absence_entries(accounts, key) + lists == if is_wanted(
                capabilities,
                request,
                key,
            ) {
                1nat
            } else {
                0nat
            }
        }),
{
    lemma_entries(readings, capabilities, request, device_id, sampled_at, key, 26);
}

} // verus!
