//! Each field of a snapshot tells of its own metric.
use crate::binary64::Binary64;
use crate::float_arithmetic::nearest_bits;
use crate::model::{
    CanonicalGpu, Metric, MetricKey, MetricObservation, MetricValue, UnavailableObservation,
    UnavailableReason,
};
use crate::snapshot::{awaits_second_sample, GpuSnapshot};
use vstd::prelude::*;

verus! {

/// Two texts that may be missing say the same.
pub open spec fn same_words(a: Option<String>, b: Option<String>) -> bool {
    match (a, b) {
        (Some(a), Some(b)) => a@ == b@,
        (None, None) => true,
        _ => false,
    }
}

/// The metric is available with the given value, as it was observed.
pub open spec fn is_available(
    metric: Metric<Binary64>,
    value: Binary64,
    observation: MetricObservation,
) -> bool {
    match metric {
        Metric::Available(shown) => {
            &&& shown.available
            &&& shown.value == value
            &&& shown.source@ == observation.source@
            &&& shown.quality == observation.quality
            &&& shown.sampled_at == observation.sampled_at
            &&& shown.interval_ms == observation.interval_ms
            &&& same_words(shown.definition, observation.definition)
        },
        Metric::Unavailable(_) => false,
    }
}

/// The metric is unavailable for the given reason.
pub open spec fn is_unavailable(metric: Metric<Binary64>, reason: UnavailableReason) -> bool {
    match metric {
        Metric::Available(_) => false,
        Metric::Unavailable(shown) => !shown.available && shown.reason == reason,
    }
}

/// The metric shows the observation: its number, or that it is none.
pub open spec fn shows_observation(
    metric: Metric<Binary64>,
    observation: MetricObservation,
) -> bool {
    match observation.value {
        MetricValue::Number(value) => is_available(metric, value, observation),
        MetricValue::Integer(n) => is_available(
            metric,
            Binary64 { bits: nearest_bits(n as nat) as u64 },
            observation,
        ),
        _ => is_unavailable(metric, UnavailableReason::ProviderError),
    }
}

/// The metric shows the account of an absence.
pub open spec fn shows_account(
    metric: Metric<Binary64>,
    account: UnavailableObservation,
) -> bool {
    &&& is_unavailable(metric, account.reason)
    &&& metric matches Metric::Unavailable(shown) && same_words(shown.source, account.source)
        && same_words(shown.message, account.message)
}

/// The field shows the metric: the observation that was selected for it, else the account of its
/// absence, else that nothing came although the device has the metric. A metric that the device
/// does not have is left out.
pub open spec fn field_shows(
    field: Option<Metric<Binary64>>,
    gpu: CanonicalGpu,
    selected: Map<MetricKey, MetricObservation>,
    unavailable: Map<MetricKey, UnavailableObservation>,
    key: MetricKey,
) -> bool {
    if selected.contains_key(key) {
        field is Some && shows_observation(field->0, selected[key])
    } else if unavailable.contains_key(key) {
        field is Some && shows_account(field->0, unavailable[key])
    } else if gpu.capability_set.metric_set().contains(key) {
        &&& field is Some
        &&& is_unavailable(field->0, UnavailableReason::TemporarilyUnavailable)
        &&& field->0 matches Metric::Unavailable(shown) && shown.source is None && shown.message
            is Some && shown.message->0@ == "no provider returned a value for this sample"@
    } else {
        field is None
    }
}

/// Each field of a snapshot shows the metric that it is named after. The overall utilization is
/// always there, and says where the device does not have it.
pub proof fn law_fields_show_their_metrics(
    snapshot: GpuSnapshot,
    gpu: CanonicalGpu,
    selected: Map<MetricKey, MetricObservation>,
    unavailable: Map<MetricKey, UnavailableObservation>,
)
    requires
        snapshot.shows(&gpu, selected, unavailable),
    ensures
        field_shows(
            snapshot.utilization.graphics,
            gpu,
            selected,
            unavailable,
            MetricKey::UtilizationGraphics,
        ),
        field_shows(
            snapshot.utilization.compute,
            gpu,
            selected,
            unavailable,
            MetricKey::UtilizationCompute,
        ),
        field_shows(
            snapshot.utilization.copy,
            gpu,
            selected,
            unavailable,
            MetricKey::UtilizationCopy,
        ),
        field_shows(
            snapshot.utilization.memory_controller,
            gpu,
            selected,
            unavailable,
            MetricKey::UtilizationMemoryController,
        ),
        field_shows(
            snapshot.utilization.encoder,
            gpu,
            selected,
            unavailable,
            MetricKey::UtilizationEncoder,
        ),
        field_shows(
            snapshot.utilization.decoder,
            gpu,
            selected,
            unavailable,
            MetricKey::UtilizationDecoder,
        ),
        field_shows(
            snapshot.memory.dedicated_used_bytes,
            gpu,
            selected,
            unavailable,
            MetricKey::MemoryDedicatedUsedBytes,
        ),
        field_shows(
            snapshot.memory.shared_used_bytes,
            gpu,
            selected,
            unavailable,
            MetricKey::MemorySharedUsedBytes,
        ),
        field_shows(
            snapshot.memory.unified_used_bytes,
            gpu,
            selected,
            unavailable,
            MetricKey::MemoryUnifiedUsedBytes,
        ),
        field_shows(
            snapshot.memory.budget_bytes,
            gpu,
            selected,
            unavailable,
            MetricKey::MemoryBudgetBytes,
        ),
        field_shows(
            snapshot.memory.bandwidth_utilization_percent,
            gpu,
            selected,
            unavailable,
            MetricKey::MemoryBandwidthUtilizationPercent,
        ),
        field_shows(
            snapshot.temperatures.core_celsius,
            gpu,
            selected,
            unavailable,
            MetricKey::TemperatureCoreCelsius,
        ),
        field_shows(
            snapshot.temperatures.edge_celsius,
            gpu,
            selected,
            unavailable,
            MetricKey::TemperatureEdgeCelsius,
        ),
        field_shows(
            snapshot.temperatures.hotspot_celsius,
            gpu,
            selected,
            unavailable,
            MetricKey::TemperatureHotspotCelsius,
        ),
        field_shows(
            snapshot.temperatures.memory_celsius,
            gpu,
            selected,
            unavailable,
            MetricKey::TemperatureMemoryCelsius,
        ),
        field_shows(
            snapshot.power.draw_watts,
            gpu,
            selected,
            unavailable,
            MetricKey::PowerDrawWatts,
        ),
        field_shows(
            snapshot.power.limit_watts,
            gpu,
            selected,
            unavailable,
            MetricKey::PowerLimitWatts,
        ),
        field_shows(
            snapshot.power.energy_joules,
            gpu,
            selected,
            unavailable,
            MetricKey::PowerEnergyJoules,
        ),
        field_shows(
            snapshot.clocks.graphics_mhz,
            gpu,
            selected,
            unavailable,
            MetricKey::ClockGraphicsMhz,
        ),
        field_shows(
            snapshot.clocks.compute_mhz,
            gpu,
            selected,
            unavailable,
            MetricKey::ClockComputeMhz,
        ),
        field_shows(
            snapshot.clocks.memory_mhz,
            gpu,
            selected,
            unavailable,
            MetricKey::ClockMemoryMhz,
        ),
        field_shows(
            snapshot.clocks.video_mhz,
            gpu,
            selected,
            unavailable,
            MetricKey::ClockVideoMhz,
        ),
        field_shows(
            snapshot.fan.percent,
            gpu,
            selected,
            unavailable,
            MetricKey::FanPercent,
        ),
        field_shows(
            snapshot.fan.rpm,
            gpu,
            selected,
            unavailable,
            MetricKey::FanRpm,
        ),
        field_shows(
            Some(snapshot.utilization.overall),
            gpu,
            selected,
            unavailable,
            MetricKey::UtilizationOverall,
        ) || (is_unavailable(snapshot.utilization.overall, UnavailableReason::Unsupported)
            && field_shows(None, gpu, selected, unavailable, MetricKey::UtilizationOverall)),
        snapshot.memory.topology == gpu.memory.topology,
        snapshot.memory.dedicated_total_bytes == gpu.memory.dedicated_total_bytes,
        snapshot.memory.shared_total_bytes == gpu.memory.shared_total_bytes,
        snapshot.memory.unified_total_bytes == gpu.memory.unified_total_bytes,
{
    lemma_field(snapshot, gpu, selected, unavailable, MetricKey::UtilizationGraphics);
    lemma_field(snapshot, gpu, selected, unavailable, MetricKey::UtilizationCompute);
    lemma_field(snapshot, gpu, selected, unavailable, MetricKey::UtilizationCopy);
    lemma_field(snapshot, gpu, selected, unavailable, MetricKey::UtilizationMemoryController);
    lemma_field(snapshot, gpu, selected, unavailable, MetricKey::UtilizationEncoder);
    lemma_field(snapshot, gpu, selected, unavailable, MetricKey::UtilizationDecoder);
    lemma_field(snapshot, gpu, selected, unavailable, MetricKey::MemoryDedicatedUsedBytes);
    lemma_field(snapshot, gpu, selected, unavailable, MetricKey::MemorySharedUsedBytes);
    lemma_field(snapshot, gpu, selected, unavailable, MetricKey::MemoryUnifiedUsedBytes);
    lemma_field(snapshot, gpu, selected, unavailable, MetricKey::MemoryBudgetBytes);
    lemma_field(snapshot, gpu, selected, unavailable, MetricKey::MemoryBandwidthUtilizationPercent);
    lemma_field(snapshot, gpu, selected, unavailable, MetricKey::TemperatureCoreCelsius);
    lemma_field(snapshot, gpu, selected, unavailable, MetricKey::TemperatureEdgeCelsius);
    lemma_field(snapshot, gpu, selected, unavailable, MetricKey::TemperatureHotspotCelsius);
    lemma_field(snapshot, gpu, selected, unavailable, MetricKey::TemperatureMemoryCelsius);
    lemma_field(snapshot, gpu, selected, unavailable, MetricKey::PowerDrawWatts);
    lemma_field(snapshot, gpu, selected, unavailable, MetricKey::PowerLimitWatts);
    lemma_field(snapshot, gpu, selected, unavailable, MetricKey::PowerEnergyJoules);
    lemma_field(snapshot, gpu, selected, unavailable, MetricKey::ClockGraphicsMhz);
    lemma_field(snapshot, gpu, selected, unavailable, MetricKey::ClockComputeMhz);
    lemma_field(snapshot, gpu, selected, unavailable, MetricKey::ClockMemoryMhz);
    lemma_field(snapshot, gpu, selected, unavailable, MetricKey::ClockVideoMhz);
    lemma_field(snapshot, gpu, selected, unavailable, MetricKey::FanPercent);
    lemma_field(snapshot, gpu, selected, unavailable, MetricKey::FanRpm);
    assert(snapshot.report(MetricKey::UtilizationOverall) is Some);
}

proof fn lemma_field(
    snapshot: GpuSnapshot,
    gpu: CanonicalGpu,
    selected: Map<MetricKey, MetricObservation>,
    unavailable: Map<MetricKey, UnavailableObservation>,
    key: MetricKey,
)
    requires
        snapshot.shows(&gpu, selected, unavailable),
        key != MetricKey::UtilizationOverall,
        key != MetricKey::Processes,
    ensures
        field_shows(snapshot.report(key), gpu, selected, unavailable, key),
{
    assert(snapshot.report(key) is Some ==> crate::snapshot::flagged(snapshot.report(key)->0));
}

/// The field waits for a second sample.
pub open spec fn is_first(field: Option<Metric<Binary64>>) -> bool {
    field is Some && is_unavailable_for_now(field->0)
}

pub open spec fn is_unavailable_for_now(metric: Metric<Binary64>) -> bool {
    metric matches Metric::Unavailable(shown) && shown.reason == UnavailableReason::FirstSample
}

/// A snapshot awaits a second sample exactly where one of its fields does.
pub proof fn law_any_field_may_await_a_second_sample(snapshot: GpuSnapshot)
    ensures
        awaits_second_sample(snapshot) <==> {
            ||| is_unavailable_for_now(snapshot.utilization.overall)
            ||| is_first(snapshot.utilization.graphics)
            ||| is_first(snapshot.utilization.compute)
            ||| is_first(snapshot.utilization.copy)
            ||| is_first(snapshot.utilization.memory_controller)
            ||| is_first(snapshot.utilization.encoder)
            ||| is_first(snapshot.utilization.decoder)
            ||| is_first(snapshot.memory.dedicated_used_bytes)
            ||| is_first(snapshot.memory.shared_used_bytes)
            ||| is_first(snapshot.memory.unified_used_bytes)
            ||| is_first(snapshot.memory.budget_bytes)
            ||| is_first(snapshot.memory.bandwidth_utilization_percent)
            ||| is_first(snapshot.temperatures.core_celsius)
            ||| is_first(snapshot.temperatures.edge_celsius)
            ||| is_first(snapshot.temperatures.hotspot_celsius)
            ||| is_first(snapshot.temperatures.memory_celsius)
            ||| is_first(snapshot.power.draw_watts)
            ||| is_first(snapshot.power.limit_watts)
            ||| is_first(snapshot.power.energy_joules)
            ||| is_first(snapshot.clocks.graphics_mhz)
            ||| is_first(snapshot.clocks.compute_mhz)
            ||| is_first(snapshot.clocks.memory_mhz)
            ||| is_first(snapshot.clocks.video_mhz)
            ||| is_first(snapshot.fan.percent)
            ||| is_first(snapshot.fan.rpm)
        },
{
    if awaits_second_sample(snapshot) {
        let key = choose|key: MetricKey|
            (#[trigger] snapshot.report(key)) matches Some(metric)
                && metric matches Metric::Unavailable(value) && value.reason
                == UnavailableReason::FirstSample;
        assert(is_first(snapshot.report(key)));
    }
    assert(snapshot.report(MetricKey::UtilizationOverall) == Some(snapshot.utilization.overall));
    assert(snapshot.report(MetricKey::UtilizationGraphics) == snapshot.utilization.graphics);
    assert(snapshot.report(MetricKey::UtilizationCompute) == snapshot.utilization.compute);
    assert(snapshot.report(MetricKey::UtilizationCopy) == snapshot.utilization.copy);
    assert(snapshot.report(MetricKey::UtilizationMemoryController) == snapshot.utilization.memory_controller);
    assert(snapshot.report(MetricKey::UtilizationEncoder) == snapshot.utilization.encoder);
    assert(snapshot.report(MetricKey::UtilizationDecoder) == snapshot.utilization.decoder);
    assert(snapshot.report(MetricKey::MemoryDedicatedUsedBytes) == snapshot.memory.dedicated_used_bytes);
    assert(snapshot.report(MetricKey::MemorySharedUsedBytes) == snapshot.memory.shared_used_bytes);
    assert(snapshot.report(MetricKey::MemoryUnifiedUsedBytes) == snapshot.memory.unified_used_bytes);
    assert(snapshot.report(MetricKey::MemoryBudgetBytes) == snapshot.memory.budget_bytes);
    assert(snapshot.report(MetricKey::MemoryBandwidthUtilizationPercent) == snapshot.memory.bandwidth_utilization_percent);
    assert(snapshot.report(MetricKey::TemperatureCoreCelsius) == snapshot.temperatures.core_celsius);
    assert(snapshot.report(MetricKey::TemperatureEdgeCelsius) == snapshot.temperatures.edge_celsius);
    assert(snapshot.report(MetricKey::TemperatureHotspotCelsius) == snapshot.temperatures.hotspot_celsius);
    assert(snapshot.report(MetricKey::TemperatureMemoryCelsius) == snapshot.temperatures.memory_celsius);
    assert(snapshot.report(MetricKey::PowerDrawWatts) == snapshot.power.draw_watts);
    assert(snapshot.report(MetricKey::PowerLimitWatts) == snapshot.power.limit_watts);
    assert(snapshot.report(MetricKey::PowerEnergyJoules) == snapshot.power.energy_joules);
    assert(snapshot.report(MetricKey::ClockGraphicsMhz) == snapshot.clocks.graphics_mhz);
    assert(snapshot.report(MetricKey::ClockComputeMhz) == snapshot.clocks.compute_mhz);
    assert(snapshot.report(MetricKey::ClockMemoryMhz) == snapshot.clocks.memory_mhz);
    assert(snapshot.report(MetricKey::ClockVideoMhz) == snapshot.clocks.video_mhz);
    assert(snapshot.report(MetricKey::FanPercent) == snapshot.fan.percent);
    assert(snapshot.report(MetricKey::FanRpm) == snapshot.fan.rpm);
}

/// A metric of a snapshot is found in the field that is named after it.
pub proof fn law_metrics_are_found_in_their_fields(snapshot: GpuSnapshot)
    ensures
        snapshot.report(MetricKey::UtilizationOverall) == Some(snapshot.utilization.overall),
        snapshot.report(MetricKey::UtilizationGraphics) == snapshot.utilization.graphics,
        snapshot.report(MetricKey::UtilizationCompute) == snapshot.utilization.compute,
        snapshot.report(MetricKey::UtilizationCopy) == snapshot.utilization.copy,
        snapshot.report(MetricKey::UtilizationMemoryController)
            == snapshot.utilization.memory_controller,
        snapshot.report(MetricKey::UtilizationEncoder) == snapshot.utilization.encoder,
        snapshot.report(MetricKey::UtilizationDecoder) == snapshot.utilization.decoder,
        snapshot.report(MetricKey::MemoryDedicatedUsedBytes)
            == snapshot.memory.dedicated_used_bytes,
        snapshot.report(MetricKey::MemorySharedUsedBytes) == snapshot.memory.shared_used_bytes,
        snapshot.report(MetricKey::MemoryUnifiedUsedBytes) == snapshot.memory.unified_used_bytes,
        snapshot.report(MetricKey::MemoryBudgetBytes) == snapshot.memory.budget_bytes,
        snapshot.report(MetricKey::MemoryBandwidthUtilizationPercent)
            == snapshot.memory.bandwidth_utilization_percent,
        snapshot.report(MetricKey::TemperatureCoreCelsius) == snapshot.temperatures.core_celsius,
        snapshot.report(MetricKey::TemperatureEdgeCelsius) == snapshot.temperatures.edge_celsius,
        snapshot.report(MetricKey::TemperatureHotspotCelsius)
            == snapshot.temperatures.hotspot_celsius,
        snapshot.report(MetricKey::TemperatureMemoryCelsius)
            == snapshot.temperatures.memory_celsius,
        snapshot.report(MetricKey::PowerDrawWatts) == snapshot.power.draw_watts,
        snapshot.report(MetricKey::PowerLimitWatts) == snapshot.power.limit_watts,
        snapshot.report(MetricKey::PowerEnergyJoules) == snapshot.power.energy_joules,
        snapshot.report(MetricKey::ClockGraphicsMhz) == snapshot.clocks.graphics_mhz,
        snapshot.report(MetricKey::ClockComputeMhz) == snapshot.clocks.compute_mhz,
        snapshot.report(MetricKey::ClockMemoryMhz) == snapshot.clocks.memory_mhz,
        snapshot.report(MetricKey::ClockVideoMhz) == snapshot.clocks.video_mhz,
        snapshot.report(MetricKey::FanPercent) == snapshot.fan.percent,
        snapshot.report(MetricKey::FanRpm) == snapshot.fan.rpm,
        snapshot.report(MetricKey::Processes) is None,
{
}

} // verus!
