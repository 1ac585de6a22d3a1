//! Which queries are made of a device for a sample.
use crate::model::{CapabilitySet, MetricKey, SampleRequest};
use crate::providers::nvml::{
    is_wanted, wants_metric, NvmlFailure, NvmlReadings, MAX_NVML_FANS, MAX_NVML_PROCESSES,
};
use crate::providers::nvml_inventory::{probed_metrics, NvmlProbes};
use crate::providers::nvml_laws::answers_all;
use vstd::prelude::*;

verus! {

/// The queries that are made.
#[derive(Clone, Copy, Debug, PartialEq, Eq, Structural)]
pub struct NvmlQueries {
    /// One query answers for the device and for its memory controller.
    pub utilization: bool,
    pub encoder: bool,
    pub decoder: bool,
    pub memory_used: bool,
    pub temperature: bool,
    pub power: bool,
    pub limit: bool,
    pub energy: bool,
    pub graphics_clock: bool,
    pub sm_clock: bool,
    pub memory_clock: bool,
    pub video_clock: bool,
    pub fan_percent: bool,
    pub fan_rpm: bool,
    /// The lists of compute and of graphics processes.
    pub processes: bool,
}

/// The queries for the wanted metrics.
pub open spec fn planned(capabilities: Set<MetricKey>, request: SampleRequest) -> NvmlQueries {
    NvmlQueries {
        utilization: is_wanted(capabilities, request, MetricKey::UtilizationOverall) || is_wanted(
            capabilities,
            request,
            MetricKey::UtilizationMemoryController,
        ),
        encoder: is_wanted(capabilities, request, MetricKey::UtilizationEncoder),
        decoder: is_wanted(capabilities, request, MetricKey::UtilizationDecoder),
        memory_used: is_wanted(capabilities, request, MetricKey::MemoryDedicatedUsedBytes),
        temperature: is_wanted(capabilities, request, MetricKey::TemperatureCoreCelsius),
        power: is_wanted(capabilities, request, MetricKey::PowerDrawWatts),
        limit: is_wanted(capabilities, request, MetricKey::PowerLimitWatts),
        energy: is_wanted(capabilities, request, MetricKey::PowerEnergyJoules),
        graphics_clock: is_wanted(capabilities, request, MetricKey::ClockGraphicsMhz),
        sm_clock: is_wanted(capabilities, request, MetricKey::ClockComputeMhz),
        memory_clock: is_wanted(capabilities, request, MetricKey::ClockMemoryMhz),
        video_clock: is_wanted(capabilities, request, MetricKey::ClockVideoMhz),
        fan_percent: is_wanted(capabilities, request, MetricKey::FanPercent),
        fan_rpm: is_wanted(capabilities, request, MetricKey::FanRpm),
        processes: is_wanted(capabilities, request, MetricKey::Processes),
    }
}

/// The queries that a sample takes.
pub fn plan_queries(capabilities: &CapabilitySet, request: &SampleRequest) -> (queries: NvmlQueries)
    ensures
        queries == planned(capabilities.metric_set(), *request),
{
    let overall = wants_metric(capabilities, request, MetricKey::UtilizationOverall);
    let memory = wants_metric(capabilities, request, MetricKey::UtilizationMemoryController);
    NvmlQueries {
        utilization: overall || memory,
        encoder: wants_metric(capabilities, request, MetricKey::UtilizationEncoder),
        decoder: wants_metric(capabilities, request, MetricKey::UtilizationDecoder),
        memory_used: wants_metric(capabilities, request, MetricKey::MemoryDedicatedUsedBytes),
        temperature: wants_metric(capabilities, request, MetricKey::TemperatureCoreCelsius),
        power: wants_metric(capabilities, request, MetricKey::PowerDrawWatts),
        limit: wants_metric(capabilities, request, MetricKey::PowerLimitWatts),
        energy: wants_metric(capabilities, request, MetricKey::PowerEnergyJoules),
        graphics_clock: wants_metric(capabilities, request, MetricKey::ClockGraphicsMhz),
        sm_clock: wants_metric(capabilities, request, MetricKey::ClockComputeMhz),
        memory_clock: wants_metric(capabilities, request, MetricKey::ClockMemoryMhz),
        video_clock: wants_metric(capabilities, request, MetricKey::ClockVideoMhz),
        fan_percent: wants_metric(capabilities, request, MetricKey::FanPercent),
        fan_rpm: wants_metric(capabilities, request, MetricKey::FanRpm),
        processes: wants_metric(capabilities, request, MetricKey::Processes),
    }
}

/// How many fans are read: none where there are too many, and the first one alone where their
/// number is not known.
pub fn fan_reads(count: &Result<u32, NvmlFailure>) -> (reads: u32)
    ensures
        reads == match *count {
            Ok(count) => if count <= MAX_NVML_FANS {
                count
            } else {
                0
            },
            Err(failure) => 1,
        },
{
    match count {
        Ok(count) => if *count <= MAX_NVML_FANS {
            *count
        } else {
            0
        },
        Err(failure) => 1,
    }
}

/// Whether a list of processes is read: not where there are too many, or their number is not
/// known.
pub fn reads_list(count: &Result<u32, NvmlFailure>) -> (reads: bool)
    ensures
        reads == (*count matches Ok(count) && count <= MAX_NVML_PROCESSES),
{
    match count {
        Ok(count) => *count as usize <= MAX_NVML_PROCESSES,
        Err(failure) => false,
    }
}

/// The readings are those of the queries.
pub open spec fn are_made(readings: NvmlReadings, queries: NvmlQueries) -> bool {
    &&& queries.utilization == readings.utilization is Some
    &&& queries.encoder == readings.encoder is Some
    &&& queries.decoder == readings.decoder is Some
    &&& queries.memory_used == readings.memory_used is Some
    &&& queries.temperature == readings.temperature is Some
    &&& queries.power == readings.power_milliwatts is Some
    &&& queries.limit == readings.limit_milliwatts is Some
    &&& queries.energy == readings.energy_millijoules is Some
    &&& queries.graphics_clock == readings.graphics_clock is Some
    &&& queries.sm_clock == readings.sm_clock is Some
    &&& queries.memory_clock == readings.memory_clock is Some
    &&& queries.video_clock == readings.video_clock is Some
    &&& queries.fan_percent == readings.fan_percent is Some
    &&& queries.fan_rpm == readings.fan_rpm is Some
    &&& queries.processes == readings.compute_processes is Some
    &&& queries.processes == readings.graphics_processes is Some
}

/// The planned queries answer every wanted metric that a device was found to have.
pub proof fn law_planned_queries_answer_all(
    probes: NvmlProbes,
    memory: bool,
    request: SampleRequest,
    readings: NvmlReadings,
)
    requires
        are_made(readings, planned(probed_metrics(probes, memory), request)),
    ensures
        answers_all(readings, probed_metrics(probes, memory), request),
{
}

} // verus!
