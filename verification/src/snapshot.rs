//! What is reported of a device at one time.
use crate::binary64::Binary64;
use crate::merge::{text_view, MergedMetrics};
use crate::model::{
    numeric, CanonicalGpu, GpuProcessSnapshot, MemoryTopology, Metric, MetricKey, MetricObservation,
    MetricQuality, ProviderId, TimestampMs, UnavailableObservation, UnavailableReason,
};
use crate::text::owned;
use vstd::prelude::*;

verus! {

/// A reported metric by its contents.
pub enum MetricModel {
    Available {
        value: Binary64,
        source: Seq<char>,
        quality: MetricQuality,
        sampled_at: TimestampMs,
        interval_ms: Option<u64>,
        definition: Option<Seq<char>>,
    },
    Unavailable {
        reason: UnavailableReason,
        origin: Option<Seq<char>>,
        message: Option<Seq<char>>,
    },
}

impl View for Metric<Binary64> {
    type V = MetricModel;

    open spec fn view(&self) -> MetricModel {
        match self {
            Metric::Available(metric) => MetricModel::Available {
                value: metric.value,
                source: metric.source@,
                quality: metric.quality,
                sampled_at: metric.sampled_at,
                interval_ms: metric.interval_ms,
                definition: text_view(metric.definition),
            },
            Metric::Unavailable(metric) => MetricModel::Unavailable {
                reason: metric.reason,
                origin: text_view(metric.source),
                message: text_view(metric.message),
            },
        }
    }
}

/// The flag of a reported metric says which of the two it is.
pub open spec fn flagged(metric: Metric<Binary64>) -> bool {
    match metric {
        Metric::Available(metric) => metric.available,
        Metric::Unavailable(metric) => !metric.available,
    }
}

/// A metric that may be left out.
pub open spec fn metric_view(metric: Option<Metric<Binary64>>) -> Option<MetricModel> {
    match metric {
        Some(metric) => Some(metric@),
        None => None,
    }
}

#[derive(Debug)]
pub struct GpuSnapshot {
    pub sampled_at: TimestampMs,
    pub utilization: UtilizationSnapshot,
    pub memory: MemorySnapshot,
    pub temperatures: TemperatureSnapshot,
    pub power: PowerSnapshot,
    pub clocks: ClockSnapshot,
    pub fan: FanSnapshot,
    pub processes: Option<Vec<GpuProcessSnapshot>>,
}

#[derive(Debug)]
pub struct UtilizationSnapshot {
    pub overall: Metric<Binary64>,
    pub graphics: Option<Metric<Binary64>>,
    pub compute: Option<Metric<Binary64>>,
    pub copy: Option<Metric<Binary64>>,
    pub memory_controller: Option<Metric<Binary64>>,
    pub encoder: Option<Metric<Binary64>>,
    pub decoder: Option<Metric<Binary64>>,
}

impl Clone for UtilizationSnapshot {
    fn clone(&self) -> (copy: Self)
        ensures
            copy == *self,
    {
        UtilizationSnapshot {
            overall: self.overall.clone(),
            graphics: self.graphics.clone(),
            compute: self.compute.clone(),
            copy: self.copy.clone(),
            memory_controller: self.memory_controller.clone(),
            encoder: self.encoder.clone(),
            decoder: self.decoder.clone(),
        }
    }
}

#[derive(Debug)]
pub struct MemorySnapshot {
    pub topology: MemoryTopology,
    pub dedicated_total_bytes: Option<u64>,
    pub dedicated_used_bytes: Option<Metric<Binary64>>,
    pub shared_total_bytes: Option<u64>,
    pub shared_used_bytes: Option<Metric<Binary64>>,
    pub unified_total_bytes: Option<u64>,
    pub unified_used_bytes: Option<Metric<Binary64>>,
    pub budget_bytes: Option<Metric<Binary64>>,
    pub bandwidth_utilization_percent: Option<Metric<Binary64>>,
}

impl Clone for MemorySnapshot {
    fn clone(&self) -> (copy: Self)
        ensures
            copy == *self,
    {
        MemorySnapshot {
            topology: self.topology,
            dedicated_total_bytes: self.dedicated_total_bytes,
            dedicated_used_bytes: self.dedicated_used_bytes.clone(),
            shared_total_bytes: self.shared_total_bytes,
            shared_used_bytes: self.shared_used_bytes.clone(),
            unified_total_bytes: self.unified_total_bytes,
            unified_used_bytes: self.unified_used_bytes.clone(),
            budget_bytes: self.budget_bytes.clone(),
            bandwidth_utilization_percent: self.bandwidth_utilization_percent.clone(),
        }
    }
}

#[derive(Debug)]
pub struct TemperatureSnapshot {
    pub core_celsius: Option<Metric<Binary64>>,
    pub edge_celsius: Option<Metric<Binary64>>,
    pub hotspot_celsius: Option<Metric<Binary64>>,
    pub memory_celsius: Option<Metric<Binary64>>,
}

impl Clone for TemperatureSnapshot {
    fn clone(&self) -> (copy: Self)
        ensures
            copy == *self,
    {
        TemperatureSnapshot {
            core_celsius: self.core_celsius.clone(),
            edge_celsius: self.edge_celsius.clone(),
            hotspot_celsius: self.hotspot_celsius.clone(),
            memory_celsius: self.memory_celsius.clone(),
        }
    }
}

#[derive(Debug)]
pub struct PowerSnapshot {
    pub draw_watts: Option<Metric<Binary64>>,
    pub limit_watts: Option<Metric<Binary64>>,
    pub energy_joules: Option<Metric<Binary64>>,
}

impl Clone for PowerSnapshot {
    fn clone(&self) -> (copy: Self)
        ensures
            copy == *self,
    {
        PowerSnapshot {
            draw_watts: self.draw_watts.clone(),
            limit_watts: self.limit_watts.clone(),
            energy_joules: self.energy_joules.clone(),
        }
    }
}

#[derive(Debug)]
pub struct ClockSnapshot {
    pub graphics_mhz: Option<Metric<Binary64>>,
    pub compute_mhz: Option<Metric<Binary64>>,
    pub memory_mhz: Option<Metric<Binary64>>,
    pub video_mhz: Option<Metric<Binary64>>,
}

impl Clone for ClockSnapshot {
    fn clone(&self) -> (copy: Self)
        ensures
            copy == *self,
    {
        ClockSnapshot {
            graphics_mhz: self.graphics_mhz.clone(),
            compute_mhz: self.compute_mhz.clone(),
            memory_mhz: self.memory_mhz.clone(),
            video_mhz: self.video_mhz.clone(),
        }
    }
}

#[derive(Debug)]
pub struct FanSnapshot {
    pub percent: Option<Metric<Binary64>>,
    pub rpm: Option<Metric<Binary64>>,
}

impl Clone for FanSnapshot {
    fn clone(&self) -> (copy: Self)
        ensures
            copy == *self,
    {
        FanSnapshot { percent: self.percent.clone(), rpm: self.rpm.clone() }
    }
}

/// The processes of a snapshot as a sequence.
pub open spec fn process_view(processes: Option<Vec<GpuProcessSnapshot>>) -> Option<
    Seq<GpuProcessSnapshot>,
> {
    match processes {
        Some(list) => Some(list@),
        None => None,
    }
}

impl GpuSnapshot {
    /// The report of one metric; the list of processes is no metric with a value.
    pub open spec fn report(&self, key: MetricKey) -> Option<Metric<Binary64>> {
        match key {
            MetricKey::UtilizationOverall => Some(self.utilization.overall),
            MetricKey::UtilizationGraphics => self.utilization.graphics,
            MetricKey::UtilizationCompute => self.utilization.compute,
            MetricKey::UtilizationCopy => self.utilization.copy,
            MetricKey::UtilizationMemoryController => self.utilization.memory_controller,
            MetricKey::UtilizationEncoder => self.utilization.encoder,
            MetricKey::UtilizationDecoder => self.utilization.decoder,
            MetricKey::MemoryDedicatedUsedBytes => self.memory.dedicated_used_bytes,
            MetricKey::MemorySharedUsedBytes => self.memory.shared_used_bytes,
            MetricKey::MemoryUnifiedUsedBytes => self.memory.unified_used_bytes,
            MetricKey::MemoryBudgetBytes => self.memory.budget_bytes,
            MetricKey::MemoryBandwidthUtilizationPercent =>
                self.memory.bandwidth_utilization_percent,
            MetricKey::TemperatureCoreCelsius => self.temperatures.core_celsius,
            MetricKey::TemperatureEdgeCelsius => self.temperatures.edge_celsius,
            MetricKey::TemperatureHotspotCelsius => self.temperatures.hotspot_celsius,
            MetricKey::TemperatureMemoryCelsius => self.temperatures.memory_celsius,
            MetricKey::PowerDrawWatts => self.power.draw_watts,
            MetricKey::PowerLimitWatts => self.power.limit_watts,
            MetricKey::PowerEnergyJoules => self.power.energy_joules,
            MetricKey::ClockGraphicsMhz => self.clocks.graphics_mhz,
            MetricKey::ClockComputeMhz => self.clocks.compute_mhz,
            MetricKey::ClockMemoryMhz => self.clocks.memory_mhz,
            MetricKey::ClockVideoMhz => self.clocks.video_mhz,
            MetricKey::FanPercent => self.fan.percent,
            MetricKey::FanRpm => self.fan.rpm,
            MetricKey::Processes => None,
        }
    }

    /// The report of one metric.
    pub fn metric(&self, key: MetricKey) -> (metric: Option<&Metric<Binary64>>)
        ensures
            match metric {
                Some(metric) => self.report(key) == Some(*metric),
                None => self.report(key) is None,
            },
    {
        match key {
            MetricKey::UtilizationOverall => Some(&self.utilization.overall),
            MetricKey::UtilizationGraphics => self.utilization.graphics.as_ref(),
            MetricKey::UtilizationCompute => self.utilization.compute.as_ref(),
            MetricKey::UtilizationCopy => self.utilization.copy.as_ref(),
            MetricKey::UtilizationMemoryController => self.utilization.memory_controller.as_ref(),
            MetricKey::UtilizationEncoder => self.utilization.encoder.as_ref(),
            MetricKey::UtilizationDecoder => self.utilization.decoder.as_ref(),
            MetricKey::MemoryDedicatedUsedBytes => self.memory.dedicated_used_bytes.as_ref(),
            MetricKey::MemorySharedUsedBytes => self.memory.shared_used_bytes.as_ref(),
            MetricKey::MemoryUnifiedUsedBytes => self.memory.unified_used_bytes.as_ref(),
            MetricKey::MemoryBudgetBytes => self.memory.budget_bytes.as_ref(),
            MetricKey::MemoryBandwidthUtilizationPercent =>
                self.memory.bandwidth_utilization_percent.as_ref(),
            MetricKey::TemperatureCoreCelsius => self.temperatures.core_celsius.as_ref(),
            MetricKey::TemperatureEdgeCelsius => self.temperatures.edge_celsius.as_ref(),
            MetricKey::TemperatureHotspotCelsius => self.temperatures.hotspot_celsius.as_ref(),
            MetricKey::TemperatureMemoryCelsius => self.temperatures.memory_celsius.as_ref(),
            MetricKey::PowerDrawWatts => self.power.draw_watts.as_ref(),
            MetricKey::PowerLimitWatts => self.power.limit_watts.as_ref(),
            MetricKey::PowerEnergyJoules => self.power.energy_joules.as_ref(),
            MetricKey::ClockGraphicsMhz => self.clocks.graphics_mhz.as_ref(),
            MetricKey::ClockComputeMhz => self.clocks.compute_mhz.as_ref(),
            MetricKey::ClockMemoryMhz => self.clocks.memory_mhz.as_ref(),
            MetricKey::ClockVideoMhz => self.clocks.video_mhz.as_ref(),
            MetricKey::FanPercent => self.fan.percent.as_ref(),
            MetricKey::FanRpm => self.fan.rpm.as_ref(),
            MetricKey::Processes => None,
        }
    }

    /// Two snapshots say the same.
    pub open spec fn says_same(&self, other: &GpuSnapshot) -> bool {
        &&& self.sampled_at == other.sampled_at
        &&& self.utilization == other.utilization
        &&& self.memory == other.memory
        &&& self.temperatures == other.temperatures
        &&& self.power == other.power
        &&& self.clocks == other.clocks
        &&& self.fan == other.fan
        &&& process_view(self.processes) == process_view(other.processes)
    }

    /// A snapshot that says the same.
    pub fn duplicate(&self) -> (copy: GpuSnapshot)
        ensures
            copy.says_same(self),
    {
        GpuSnapshot {
            sampled_at: self.sampled_at,
            utilization: self.utilization.clone(),
            memory: self.memory.clone(),
            temperatures: self.temperatures.clone(),
            power: self.power.clone(),
            clocks: self.clocks.clone(),
            fan: self.fan.clone(),
            processes: match &self.processes {
                Some(list) => Some(copy_processes(list)),
                None => None,
            },
        }
    }
}

pub fn copy_processes(list: &Vec<GpuProcessSnapshot>) -> (copy: Vec<GpuProcessSnapshot>)
    ensures
        copy@ == list@,
{
    let mut copy: Vec<GpuProcessSnapshot> = Vec::new();
    let mut i: usize = 0;
    while i < list.len()
        invariant
            i <= list.len(),
            copy@ == list@.take(i as int),
        decreases list.len() - i,
    {
        copy.push(list[i].clone());
        i = i + 1;
        assert(copy@ == list@.take(i as int));
    }
    assert(copy@ == list@);
    copy
}

/// The report of a selected observation.
pub open spec fn selected_report(observation: MetricObservation) -> MetricModel {
    match numeric(observation.value) {
        Some(value) => MetricModel::Available {
            value,
            source: observation.source@,
            quality: observation.quality,
            sampled_at: observation.sampled_at,
            interval_ms: observation.interval_ms,
            definition: text_view(observation.definition),
        },
        None => MetricModel::Unavailable {
            reason: UnavailableReason::ProviderError,
            origin: Some(observation.source@),
            message: Some("provider returned a non-numeric value"@),
        },
    }
}

/// The report of a metric: the selected observation; else the account of its absence; else, where
/// the device has the metric, that nothing came this time; else none.
pub open spec fn metric_report(
    supported: Set<MetricKey>,
    selected: Map<MetricKey, MetricObservation>,
    unavailable: Map<MetricKey, UnavailableObservation>,
    key: MetricKey,
) -> Option<MetricModel> {
    if selected.contains_key(key) {
        Some(selected_report(selected[key]))
    } else if unavailable.contains_key(key) {
        Some(
            MetricModel::Unavailable {
                reason: unavailable[key].reason,
                origin: text_view(unavailable[key].source),
                message: text_view(unavailable[key].message),
            },
        )
    } else if supported.contains(key) {
        Some(
            MetricModel::Unavailable {
                reason: UnavailableReason::TemporarilyUnavailable,
                origin: None,
                message: Some("no provider returned a value for this sample"@),
            },
        )
    } else {
        None
    }
}

/// The report of a metric that is always reported: unsupported where nothing is known of it.
pub open spec fn required_report(report: Option<MetricModel>) -> MetricModel {
    match report {
        Some(report) => report,
        None => MetricModel::Unavailable {
            reason: UnavailableReason::Unsupported,
            origin: None,
            message: None,
        },
    }
}

fn available(observation: &MetricObservation) -> (metric: Metric<Binary64>)
    ensures
        metric@ == selected_report(*observation),
        flagged(metric),
{
    match observation.value.as_f64() {
        None => Metric::unavailable(
            UnavailableReason::ProviderError,
            Some(observation.source.clone()),
            Some(owned("provider returned a non-numeric value")),
        ),
        Some(value) => Metric::available(
            value,
            observation.source.clone(),
            observation.quality,
            observation.sampled_at,
            observation.interval_ms,
            observation.definition.clone(),
        ),
    }
}

/// The metric is reported as it should be.
#[verifier::opaque]
spec fn reports(
    gpu: &CanonicalGpu,
    merged: &MergedMetrics,
    key: MetricKey,
    metric: Option<Metric<Binary64>>,
) -> bool {
    &&& metric_view(metric) == metric_report(
        gpu.capability_set.metric_set(),
        merged.selected@,
        merged.unavailable@,
        key,
    )
    &&& metric is Some ==> flagged(metric->0)
}

fn metric_for(gpu: &CanonicalGpu, merged: &MergedMetrics, key: MetricKey) -> (metric: Option<
    Metric<Binary64>,
>)
    ensures
        reports(gpu, merged, key, metric),
{
    proof {
        reveal(reports);
    }
    if let Some(observation) = merged.selected.get(&key) {
        return Some(available(observation));
    }
    if let Some(account) = merged.unavailable.get(&key) {
        return Some(
            Metric::unavailable(account.reason, account.source.clone(), account.message.clone()),
        );
    }
    if gpu.capability_set.supports(key) {
        Some(
            Metric::unavailable(
                UnavailableReason::TemporarilyUnavailable,
                None,
                Some(owned("no provider returned a value for this sample")),
            ),
        )
    } else {
        None
    }
}

fn metric_for_required(gpu: &CanonicalGpu, merged: &MergedMetrics, key: MetricKey) -> (metric:
    Metric<Binary64>)
    ensures
        metric@ == required_report(
            metric_report(
                gpu.capability_set.metric_set(),
                merged.selected@,
                merged.unavailable@,
                key,
            ),
        ),
        flagged(metric),
{
    proof {
        reveal(reports);
    }
    match metric_for(gpu, merged, key) {
        Some(metric) => metric,
        None => Metric::unavailable(UnavailableReason::Unsupported, None, None),
    }
}

impl GpuSnapshot {
    /// The snapshot of a device with merged metrics: every metric is reported as it should be,
    /// the sizes of memory are those of the device.
    pub open spec fn shows(
        &self,
        gpu: &CanonicalGpu,
        selected: Map<MetricKey, MetricObservation>,
        unavailable: Map<MetricKey, UnavailableObservation>,
    ) -> bool {
        let supported = gpu.capability_set.metric_set();
        &&& forall|key: MetricKey|
            key != MetricKey::UtilizationOverall && key != MetricKey::Processes ==> metric_view(
                #[trigger] self.report(key),
            ) == metric_report(supported, selected, unavailable, key)
        &&& self.utilization.overall@ == required_report(
            metric_report(supported, selected, unavailable, MetricKey::UtilizationOverall),
        )
        &&& forall|key: MetricKey|
            (#[trigger] self.report(key)) is Some ==> flagged(self.report(key)->0)
        &&& self.memory.topology == gpu.memory.topology
        &&& self.memory.dedicated_total_bytes == gpu.memory.dedicated_total_bytes
        &&& self.memory.shared_total_bytes == gpu.memory.shared_total_bytes
        &&& self.memory.unified_total_bytes == gpu.memory.unified_total_bytes
    }
}

pub fn build_snapshot(
    gpu: &CanonicalGpu,
    merged: &MergedMetrics,
    sampled_at: TimestampMs,
    processes: Option<Vec<GpuProcessSnapshot>>,
) -> (snapshot: GpuSnapshot)
    ensures
        snapshot.shows(gpu, merged.selected@, merged.unavailable@),
        snapshot.sampled_at == sampled_at,
        snapshot.processes == processes,
{
    let snapshot = GpuSnapshot {
        sampled_at,
        utilization: UtilizationSnapshot {
            overall: metric_for_required(gpu, merged, MetricKey::UtilizationOverall),
            graphics: metric_for(gpu, merged, MetricKey::UtilizationGraphics),
            compute: metric_for(gpu, merged, MetricKey::UtilizationCompute),
            copy: metric_for(gpu, merged, MetricKey::UtilizationCopy),
            memory_controller: metric_for(gpu, merged, MetricKey::UtilizationMemoryController),
            encoder: metric_for(gpu, merged, MetricKey::UtilizationEncoder),
            decoder: metric_for(gpu, merged, MetricKey::UtilizationDecoder),
        },
        memory: MemorySnapshot {
            topology: gpu.memory.topology,
            dedicated_total_bytes: gpu.memory.dedicated_total_bytes,
            dedicated_used_bytes: metric_for(gpu, merged, MetricKey::MemoryDedicatedUsedBytes),
            shared_total_bytes: gpu.memory.shared_total_bytes,
            shared_used_bytes: metric_for(gpu, merged, MetricKey::MemorySharedUsedBytes),
            unified_total_bytes: gpu.memory.unified_total_bytes,
            unified_used_bytes: metric_for(gpu, merged, MetricKey::MemoryUnifiedUsedBytes),
            budget_bytes: metric_for(gpu, merged, MetricKey::MemoryBudgetBytes),
            bandwidth_utilization_percent: metric_for(
                gpu,
                merged,
                MetricKey::MemoryBandwidthUtilizationPercent,
            ),
        },
        temperatures: TemperatureSnapshot {
            core_celsius: metric_for(gpu, merged, MetricKey::TemperatureCoreCelsius),
            edge_celsius: metric_for(gpu, merged, MetricKey::TemperatureEdgeCelsius),
            hotspot_celsius: metric_for(gpu, merged, MetricKey::TemperatureHotspotCelsius),
            memory_celsius: metric_for(gpu, merged, MetricKey::TemperatureMemoryCelsius),
        },
        power: PowerSnapshot {
            draw_watts: metric_for(gpu, merged, MetricKey::PowerDrawWatts),
            limit_watts: metric_for(gpu, merged, MetricKey::PowerLimitWatts),
            energy_joules: metric_for(gpu, merged, MetricKey::PowerEnergyJoules),
        },
        clocks: ClockSnapshot {
            graphics_mhz: metric_for(gpu, merged, MetricKey::ClockGraphicsMhz),
            compute_mhz: metric_for(gpu, merged, MetricKey::ClockComputeMhz),
            memory_mhz: metric_for(gpu, merged, MetricKey::ClockMemoryMhz),
            video_mhz: metric_for(gpu, merged, MetricKey::ClockVideoMhz),
        },
        fan: FanSnapshot {
            percent: metric_for(gpu, merged, MetricKey::FanPercent),
            rpm: metric_for(gpu, merged, MetricKey::FanRpm),
        },
        processes,
    };
    proof {
        assert forall|key: MetricKey|
            key != MetricKey::UtilizationOverall && key != MetricKey::Processes implies reports(
            gpu,
            merged,
            key,
            #[trigger] snapshot.report(key),
        ) by {}
        assert forall|key: MetricKey|
            key != MetricKey::UtilizationOverall && key != MetricKey::Processes implies metric_view(
            #[trigger] snapshot.report(key),
        ) == metric_report(
            gpu.capability_set.metric_set(),
            merged.selected@,
            merged.unavailable@,
            key,
        ) && (snapshot.report(key) is Some ==> flagged(snapshot.report(key)->0)) by {
            assert(reports(gpu, merged, key, snapshot.report(key)));
            reveal(reports);
        }
    }
    snapshot
}

pub fn unavailable_from_provider(
    reason: UnavailableReason,
    source: ProviderId,
    message: &str,
) -> (metric: Metric<Binary64>)
    ensures
        metric@ == (MetricModel::Unavailable {
            reason,
            origin: Some(source@),
            message: Some(message@),
        }),
        flagged(metric),
{
    Metric::unavailable(reason, Some(source), Some(owned(message)))
}

/// Some metric of the snapshot waits for a second sample.
pub open spec fn awaits_second_sample(snapshot: GpuSnapshot) -> bool {
    exists|key: MetricKey|
        (#[trigger] snapshot.report(key)) matches Some(metric) && metric matches Metric::Unavailable(
            value,
        ) && value.reason == UnavailableReason::FirstSample
}

pub fn snapshot_has_first_sample(snapshot: &GpuSnapshot) -> (found: bool)
    ensures
        found == awaits_second_sample(*snapshot),
{
    let mut place: u8 = 0;
    while place < 26
        invariant
            place <= 26,
            forall|key: MetricKey|
                crate::model::metric_place(key) < place ==> !(
                (#[trigger] snapshot.report(key)) matches Some(metric)
                    && metric matches Metric::Unavailable(value) && value.reason
                    == UnavailableReason::FirstSample),
        decreases 26 - place,
    {
        let key = MetricKey::at(place);
        if let Some(metric) = snapshot.metric(key) {
            if let Metric::Unavailable(value) = metric {
                if value.reason == UnavailableReason::FirstSample {
                    assert(snapshot.report(key) is Some);
                    return true;
                }
            }
        }
        proof {
            assert forall|k: MetricKey|
                crate::model::metric_place(k) < place + 1 implies !(
            (#[trigger] snapshot.report(k)) matches Some(metric)
                && metric matches Metric::Unavailable(value) && value.reason
                == UnavailableReason::FirstSample) by {
                if crate::model::metric_place(k) == place {
                    assert(k == key);
                }
            }
        }
        place = place + 1;
    }
    false
}

/// A metric is reported as available exactly where a number was selected for it, zero included;
/// what is unsupported, missing or invalid is never reported as a value.
pub proof fn law_only_selected_numbers_are_available(
    supported: Set<MetricKey>,
    selected: Map<MetricKey, MetricObservation>,
    unavailable: Map<MetricKey, UnavailableObservation>,
    key: MetricKey,
)
    ensures
        required_report(metric_report(supported, selected, unavailable, key)) is Available
            <==> selected.contains_key(key) && numeric(selected[key].value) is Some,
        selected.contains_key(key) && numeric(selected[key].value) is Some ==> required_report(
            metric_report(supported, selected, unavailable, key),
        )->value == numeric(selected[key].value)->0,
{
}

} // verus!
