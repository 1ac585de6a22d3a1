//! The state of the IOReport provider.
use crate::error::{ErrorModel, GpuError};
use crate::json::Json;
use crate::merge::{absences, text_view, values};
use crate::model::{
    CanonicalGpu, CapabilitySet, DeviceObservation, GpuKind, GpuVendor, MemoryTopology, MetricKey,
    ProviderDiagnostic, ProviderSample, StaticMemoryInfo, TimestampMs, UnavailableReason,
};
use crate::provider::ProviderMetadata;
use crate::providers::macos::ioreport::{
    awaiting, busy_values, capability_keys, channel_models, counter_metrics, delta_fault,
    delta_sums, energy_values, first_sample, ioreport_name, parse_delta, Channel, ChannelModel,
    ChannelReading,
};
use crate::text::{decimal, decimal_text, owned};
use vstd::prelude::*;

verus! {

enum ReportState {
    Available {
        channels: Vec<Channel>,
        /// The time of the last sample, in nanoseconds.
        baseline: Option<u64>,
    },
    Unavailable(String),
}

/// The state of the provider by its contents.
pub enum ReportModel {
    Available { channels: Seq<ChannelModel>, baseline: Option<u64> },
    Unavailable(Seq<char>),
}

pub struct AppleIoReportProvider {
    state: ReportState,
}

impl View for AppleIoReportProvider {
    type V = ReportModel;

    closed spec fn view(&self) -> ReportModel {
        match self.state {
            ReportState::Available { channels, baseline } => ReportModel::Available {
                channels: channel_models(channels@),
                baseline,
            },
            ReportState::Unavailable(words) => ReportModel::Unavailable(words@),
        }
    }
}

/// What a sample of the counters leads to.
#[derive(Clone, Copy, Debug, PartialEq, Eq, Structural)]
pub enum ReportStep {
    /// The device has no counters here.
    Nothing,
    /// It was the first sample.
    First,
    /// The difference to the sample before is to be read; so many nanoseconds have passed.
    Delta { elapsed: u64 },
}

/// The time between two samples, at least a nanosecond.
pub open spec fn elapsed_between(before: u64, now: u64) -> u64 {
    if now > before {
        (now - before) as u64
    } else {
        1
    }
}

/// The device is the one that the counters belong to.
pub open spec fn is_reported(device: &CanonicalGpu) -> bool {
    device.identity.vendor == GpuVendor::Apple && device.provider_device_ids@.contains_key(
        ioreport_name(),
    )
}

fn reports_on(device: &CanonicalGpu) -> (holds: bool)
    ensures
        holds == is_reported(device),
{
    device.identity.vendor == GpuVendor::Apple && device.provider_device_ids.contains_key(
        &owned("apple-ioreport"),
    )
}

/// What the provider offers with its counters.
pub open spec fn offers(capabilities: CapabilitySet, channels: Seq<ChannelModel>) -> bool {
    &&& capabilities.metric_set() == counter_metrics(channels).to_set()
    &&& capabilities.vendor_extensions@ == Set::<Seq<char>>::empty().insert(
        "apple.activeResidency"@,
    ).insert("apple.privateIoReport"@)
}

fn offered(channels: &Vec<Channel>) -> (capabilities: CapabilitySet)
    ensures
        offers(capabilities, channel_models(channels@)),
{
    CapabilitySet::new(capability_keys(channels)).with_extension(
        "apple.activeResidency",
    ).with_extension("apple.privateIoReport")
}

/// What is observed of the device.
pub open spec fn is_report_observation(
    o: DeviceObservation,
    name: Option<String>,
    channels: Seq<ChannelModel>,
) -> bool {
    &&& o.provider@ == ioreport_name()
    &&& o.provider_device_id@ == "apple-gpu"@
    &&& o.vendor == GpuVendor::Apple
    &&& o.name@ == match name {
        Some(name) => name@,
        None => "Apple GPU"@,
    }
    &&& o.architecture is None
    &&& o.driver_version is None
    &&& o.firmware_version is None
    &&& o.kind == GpuKind::Integrated
    &&& o.uuid is None
    &&& o.pci is None
    &&& o.windows is None
    &&& o.macos is None
    &&& o.parent_provider_device_id is None
    &&& o.partition is None
    &&& o.memory == StaticMemoryInfo {
        topology: MemoryTopology::Unknown,
        dedicated_total_bytes: None,
        shared_total_bytes: None,
        unified_total_bytes: None,
    }
    &&& offers(o.capabilities, channels)
    &&& o.identity_priority == 60
    &&& o.enumeration_ordinal == Some(0u32)
    &&& o.vendor_info@ == Map::<Seq<char>, Json>::empty()
}

/// The error of counters that do not answer now.
pub open spec fn passing_error(words: Seq<char>) -> ErrorModel {
    ErrorModel::Provider {
        provider: ioreport_name(),
        reason: UnavailableReason::TemporarilyUnavailable,
        message: words,
    }
}

fn passing_fault(words: &str) -> (error: GpuError)
    ensures
        error@ == passing_error(words@),
{
    GpuError::provider("apple-ioreport", UnavailableReason::TemporarilyUnavailable, words)
}

impl AppleIoReportProvider {
    /// The provider of counters that were subscribed to.
    pub fn available(channels: Vec<Channel>) -> (provider: Self)
        ensures
            provider@ == (ReportModel::Available {
                channels: channel_models(channels@),
                baseline: None,
            }),
    {
        AppleIoReportProvider { state: ReportState::Available { channels, baseline: None } }
    }

    /// The provider without counters.
    pub fn unavailable(words: String) -> (provider: Self)
        ensures
            provider@ == ReportModel::Unavailable(words@),
    {
        AppleIoReportProvider { state: ReportState::Unavailable(words) }
    }

    /// The device that the counters belong to; the name is that of the default device.
    pub fn observe(&self, name: &Option<String>) -> (observations: Vec<DeviceObservation>)
        ensures
            match self@ {
                ReportModel::Available { channels, baseline } => observations@.len() == 1
                    && is_report_observation(observations@[0], *name, channels),
                ReportModel::Unavailable(words) => observations@.len() == 0,
            },
    {
        let mut observations: Vec<DeviceObservation> = Vec::new();
        if let ReportState::Available { channels, .. } = &self.state {
            let shown = match name {
                Some(name) => name.clone(),
                None => owned("Apple GPU"),
            };
            let mut o = DeviceObservation::new(
                "apple-ioreport",
                "apple-gpu",
                GpuVendor::Apple,
                shown.as_str(),
            );
            o.kind = GpuKind::Integrated;
            o.enumeration_ordinal = Some(0);
            o.identity_priority = 60;
            o.capabilities = offered(channels);
            observations.push(o);
        }
        observations
    }

    /// What the provider says of its own state, on a version of the system.
    pub fn diagnostic(&self, major: Option<u32>) -> (diagnostic: ProviderDiagnostic)
        ensures
            diagnostic.id@ == ioreport_name(),
            diagnostic.loaded == (self@ is Available),
            text_view(diagnostic.version) == match major {
                Some(major) => Some(decimal(major as nat)),
                None => None,
            },
            diagnostic.devices_matched == 0,
            diagnostic.reason == if self@ is Available {
                None
            } else {
                Some(UnavailableReason::DriverLibraryMissing)
            },
            text_view(diagnostic.message) == match self@ {
                ReportModel::Available { channels, baseline } => Some(
                    "private API; dynamically loaded and version-gated"@,
                ),
                ReportModel::Unavailable(words) => Some(words),
            },
    {
        let version = match major {
            Some(major) => Some(decimal_text(major as u64)),
            None => None,
        };
        match &self.state {
            ReportState::Available { .. } => ProviderDiagnostic {
                id: owned("apple-ioreport"),
                loaded: true,
                version,
                devices_matched: 0,
                reason: None,
                message: Some(owned("private API; dynamically loaded and version-gated")),
            },
            ReportState::Unavailable(words) => ProviderDiagnostic {
                id: owned("apple-ioreport"),
                loaded: false,
                version,
                devices_matched: 0,
                reason: Some(UnavailableReason::DriverLibraryMissing),
                message: Some(words.clone()),
            },
        }
    }

    pub fn metadata() -> (metadata: ProviderMetadata)
        ensures
            metadata.id@ == ioreport_name(),
            metadata.specificity == 100,
            metadata.reliability == 75,
            forall|key: MetricKey|
                metadata.priority(key) == if key == MetricKey::UtilizationOverall || key
                    == MetricKey::PowerDrawWatts {
                    100i16
                } else {
                    0i16
                },
    {
        ProviderMetadata::new("apple-ioreport", 100, 75).prefer(
            MetricKey::UtilizationOverall,
            100,
        ).prefer(MetricKey::PowerDrawWatts, 100)
    }

    pub fn capabilities(&self, device: &CanonicalGpu) -> (capabilities: CapabilitySet)
        ensures
            match self@ {
                ReportModel::Available { channels, baseline } if is_reported(device) => offers(
                    capabilities,
                    channels,
                ),
                _ => capabilities.metric_set() == Set::<MetricKey>::empty()
                    && capabilities.vendor_extensions@ == Set::<Seq<char>>::empty(),
            },
    {
        if !reports_on(device) {
            return CapabilitySet::default();
        }
        match &self.state {
            ReportState::Available { channels, .. } => offered(channels),
            ReportState::Unavailable(_) => CapabilitySet::default(),
        }
    }

    /// Whether the counters are to be sampled for a device.
    pub fn samples_for(&self, device: &CanonicalGpu) -> (samples: Result<bool, GpuError>)
        ensures
            match samples {
                Ok(samples) => samples == is_reported(device) && (samples ==> self@ is Available),
                Err(error) => is_reported(device) && self@ is Unavailable && error@ == (
                ErrorModel::Provider {
                    provider: ioreport_name(),
                    reason: UnavailableReason::DriverLibraryMissing,
                    message: self@->Unavailable_0,
                }),
            },
    {
        if !reports_on(device) {
            return Ok(false);
        }
        match &self.state {
            ReportState::Available { .. } => Ok(true),
            ReportState::Unavailable(words) => Err(
                GpuError::provider(
                    "apple-ioreport",
                    UnavailableReason::DriverLibraryMissing,
                    words.as_str(),
                ),
            ),
        }
    }

    /// Takes note of a sample of the counters at a time, or that there was none.
    pub fn sampled(&mut self, at: Option<u64>) -> (step: Result<ReportStep, GpuError>)
        ensures
            match old(self)@ {
                ReportModel::Unavailable(words) => step == Ok::<ReportStep, GpuError>(
                    ReportStep::Nothing,
                ) && final(self)@ == old(self)@,
                ReportModel::Available { channels, baseline } => {
                    &&& final(self)@ == (ReportModel::Available { channels, baseline: at })
                    &&& match (at, baseline) {
                        (None, _) => step is Err && step->Err_0@ == passing_error(
                            "IOReport failed to create a sample"@,
                        ),
                        (Some(now), None) => step == Ok::<ReportStep, GpuError>(ReportStep::First),
                        (Some(now), Some(before)) => step == Ok::<ReportStep, GpuError>(
                            ReportStep::Delta { elapsed: elapsed_between(before, now) },
                        ),
                    }
                },
            },
    {
        match &mut self.state {
            ReportState::Unavailable(_) => Ok(ReportStep::Nothing),
            ReportState::Available { baseline, .. } => {
                let last: Option<u64> = *baseline;
                *baseline = at;
                match (at, last) {
                    (None, _) => Err(passing_fault("IOReport failed to create a sample")),
                    (Some(_), None) => Ok(ReportStep::First),
                    (Some(now), Some(before)) => Ok(
                        ReportStep::Delta {
                            elapsed: if now > before {
                                now - before
                            } else {
                                1
                            },
                        },
                    ),
                }
            },
        }
    }

    /// What the first sample says of a device.
    pub fn first_answer(&self, device: &CanonicalGpu) -> (sample: ProviderSample)
        ensures
            sample.metrics@.len() == 0,
            sample.processes is None,
            match self@ {
                ReportModel::Available { channels, baseline } => absences(sample.unavailable@)
                    == awaiting(counter_metrics(channels), device.identity.id@),
                ReportModel::Unavailable(words) => sample.unavailable@.len() == 0,
            },
    {
        match &self.state {
            ReportState::Available { channels, .. } => first_sample(channels, &device.identity.id),
            ReportState::Unavailable(_) => ProviderSample::default(),
        }
    }

    /// What the difference to the sample before says of a device; or why it could not be read.
    pub fn delta_answer(
        &self,
        device: &CanonicalGpu,
        readings: &Result<Vec<Result<ChannelReading, String>>, String>,
        elapsed: u64,
        sampled_at: TimestampMs,
    ) -> (result: Result<ProviderSample, GpuError>)
        ensures
            match (self@, *readings) {
                (ReportModel::Unavailable(words), _) => result is Ok
                    && result->Ok_0.metrics@.len() == 0 && result->Ok_0.unavailable@.len() == 0
                    && result->Ok_0.processes is None,
                (ReportModel::Available { channels, baseline }, Err(words)) => result is Err
                    && result->Err_0@ == passing_error(words@),
                (ReportModel::Available { channels, baseline }, Ok(readings)) => match result {
                    Err(error) => match delta_fault(channels.len() as int, readings@.len() as int) {
                        Some(words) => error@ == passing_error(words),
                        None => delta_sums(channels, readings@, readings@.len() as int) is Err
                            && error@ == passing_error(
                            delta_sums(channels, readings@, readings@.len() as int)->Err_0,
                        ),
                    },
                    Ok(sample) => {
                        let sums = delta_sums(channels, readings@, readings@.len() as int);
                        &&& delta_fault(channels.len() as int, readings@.len() as int) is None
                        &&& sums is Ok
                        &&& values(sample.metrics@) == busy_values(
                            sums->Ok_0,
                            device.identity.id@,
                            elapsed,
                            sampled_at,
                        ) + energy_values(
                            channels,
                            sums->Ok_0,
                            device.identity.id@,
                            elapsed,
                            sampled_at,
                        )
                        &&& sample.unavailable@.len() == 0
                        &&& sample.processes is None
                    },
                },
            },
    {
        match &self.state {
            ReportState::Unavailable(_) => Ok(ProviderSample::default()),
            ReportState::Available { channels, .. } => match readings {
                Err(words) => Err(passing_fault(words.as_str())),
                Ok(readings) => match parse_delta(
                    channels,
                    readings,
                    &device.identity.id,
                    elapsed,
                    sampled_at,
                ) {
                    Ok(sample) => Ok(sample),
                    Err(words) => Err(passing_fault(words.as_str())),
                },
            },
        }
    }
}

} // verus!
