//! The state of the PDH provider: one query, whose collections serve all devices of a round.
use crate::error::GpuError;
use crate::merge::{absences, text_view, values, AbsenceModel};
use crate::model::{
    CanonicalGpu, CapabilitySet, MetricKey, ProviderDiagnostic, ProviderSample, TimestampMs,
    UnavailableReason,
};
use crate::provider::ProviderMetadata;
use crate::providers::windows::pdh::{
    counter_sample, engine_loads, engine_values, first_absences, first_sample,
};
use crate::providers::windows::pdh_array::{
    all_percent, counter_models, failed_call, pdh_name, status_error, status_text, status_words,
    CounterItem, CounterModel,
};
use crate::text::owned;
use vstd::prelude::*;

verus! {

/// How long a collection serves the devices of one round, in nanoseconds.
pub const BATCH_NANOS: u64 = 10_000_000;

/// What the last collection gave.
enum Batch {
    /// Nothing, for it was the first one.
    First,
    /// Counters.
    Items(Vec<CounterItem>),
}

enum QueryState {
    Ready {
        primed: bool,
        collected_at: Option<u64>,
        interval_ms: Option<u64>,
        batch: Option<Batch>,
    },
    Unavailable(String),
    Closed,
}

/// What the last collection gave, by its contents.
pub enum BatchModel {
    First,
    Items(Seq<CounterModel>),
}

/// The state of the provider by its contents.
pub enum PdhModel {
    Ready {
        /// There was a collection.
        primed: bool,
        /// The time of the last collection, in nanoseconds.
        collected_at: Option<u64>,
        /// The time between the last two collections.
        interval_ms: Option<u64>,
        batch: Option<BatchModel>,
    },
    Unavailable(Seq<char>),
    Closed,
}

pub struct PdhProvider {
    state: QueryState,
}

impl View for PdhProvider {
    type V = PdhModel;

    closed spec fn view(&self) -> PdhModel {
        match self.state {
            QueryState::Ready { primed, collected_at, interval_ms, batch } => PdhModel::Ready {
                primed,
                collected_at,
                interval_ms,
                batch: match batch {
                    Some(Batch::First) => Some(BatchModel::First),
                    Some(Batch::Items(items)) => Some(BatchModel::Items(counter_models(items@))),
                    None => None,
                },
            },
            QueryState::Unavailable(words) => PdhModel::Unavailable(words@),
            QueryState::Closed => PdhModel::Closed,
        }
    }
}

/// What is to be done for a sample of a device.
#[derive(Clone, Copy, Debug, PartialEq, Eq, Structural)]
pub enum PdhPlan {
    /// The device has no counters.
    Nothing,
    /// The last collection belongs to the same round.
    Reuse,
    /// The counters are to be collected.
    Collect,
}

/// The identifier by which the counters name a device.
pub open spec fn device_luid(device: &CanonicalGpu) -> Option<Seq<char>> {
    match device.identity.windows {
        Some(windows) => text_view(windows.luid),
        None => None,
    }
}

/// The counters that the collection at hand gives, or gave nothing yet.
pub open spec fn plan_for(state: PdhModel, device: &CanonicalGpu, now: u64) -> PdhPlan {
    match (device_luid(device), state) {
        (Some(luid), PdhModel::Ready { primed, collected_at, interval_ms, batch }) => match (
            batch,
            collected_at,
        ) {
            (Some(batch), Some(at)) => if at <= now <= at + BATCH_NANOS {
                PdhPlan::Reuse
            } else {
                PdhPlan::Collect
            },
            _ => PdhPlan::Collect,
        },
        _ => PdhPlan::Nothing,
    }
}

/// The time since the last collection, in milliseconds.
pub open spec fn interval_since(collected_at: Option<u64>, now: u64) -> Option<u64> {
    match collected_at {
        Some(at) => Some(
            (if at <= now {
                (now - at) / 1_000_000
            } else {
                0
            }) as u64,
        ),
        None => None,
    }
}

/// The sample says nothing.
pub open spec fn is_silent(sample: ProviderSample) -> bool {
    sample.metrics@.len() == 0 && sample.unavailable@.len() == 0 && sample.processes is None
}

/// The sample says what the last collection gave for the device.
pub open spec fn answers(
    sample: ProviderSample,
    state: PdhModel,
    device: &CanonicalGpu,
    sampled_at: TimestampMs,
) -> bool {
    match (device_luid(device), state) {
        (Some(luid), PdhModel::Ready { primed, collected_at, interval_ms, batch }) => match batch {
            None => is_silent(sample),
            Some(BatchModel::First) => {
                &&& sample.metrics@.len() == 0
                &&& absences(sample.unavailable@) == first_absences(device.identity.id@, 6)
                &&& sample.processes is None
            },
            Some(BatchModel::Items(items)) => {
                let loads = engine_loads(items, luid);
                &&& sample.processes is None
                &&& loads.len() > 0 ==> values(sample.metrics@) == engine_values(
                    loads,
                    device.identity.id@,
                    interval_ms,
                    sampled_at,
                    5,
                ) && sample.unavailable@.len() == 0
                &&& loads.len() == 0 ==> sample.metrics@.len() == 0 && absences(
                    sample.unavailable@,
                ) == seq![
                    AbsenceModel {
                        device_id: device.identity.id@,
                        metric: MetricKey::UtilizationOverall,
                        reason: UnavailableReason::TemporarilyUnavailable,
                        source: Some(pdh_name()),
                        message: Some("PDH returned no GPU engine counters for this adapter"@),
                    },
                ]
            },
        },
        _ => is_silent(sample),
    }
}

/// The metrics of the provider.
pub open spec fn pdh_metrics() -> Set<MetricKey> {
    Set::empty().insert(MetricKey::UtilizationOverall).insert(
        MetricKey::UtilizationGraphics,
    ).insert(MetricKey::UtilizationCompute).insert(MetricKey::UtilizationCopy).insert(
        MetricKey::UtilizationEncoder,
    ).insert(MetricKey::UtilizationDecoder)
}

fn luid_of(device: &CanonicalGpu) -> (luid: Option<&String>)
    ensures
        match luid {
            Some(luid) => device_luid(device) == Some(luid@),
            None => device_luid(device) is None,
        },
{
    match &device.identity.windows {
        Some(windows) => match &windows.luid {
            Some(luid) => Some(luid),
            None => None,
        },
        None => None,
    }
}

impl PdhProvider {
    #[verifier::type_invariant]
    spec fn holds_percentages(self) -> bool {
        self.state matches QueryState::Ready { batch: Some(Batch::Items(items)), .. }
            ==> all_percent(counter_models(items@))
    }

    /// The provider of a query that was opened.
    pub fn ready() -> (provider: Self)
        ensures
            provider@ == (PdhModel::Ready {
                primed: false,
                collected_at: None,
                interval_ms: None,
                batch: None,
            }),
    {
        PdhProvider {
            state: QueryState::Ready {
                primed: false,
                collected_at: None,
                interval_ms: None,
                batch: None,
            },
        }
    }

    /// The provider without a query, which could not be opened.
    pub fn unopened(status: u32) -> (provider: Self)
        ensures
            provider@ == PdhModel::Unavailable(
                status_words("PdhOpenQueryW failed with "@, status),
            ),
    {
        PdhProvider {
            state: QueryState::Unavailable(status_text("PdhOpenQueryW failed with ", status)),
        }
    }

    /// The provider without counters, which the system does not have.
    pub fn without_counters(status: u32) -> (provider: Self)
        ensures
            provider@ == PdhModel::Unavailable(
                status_words("GPU Engine counters are unavailable ("@, status) + ")"@,
            ),
    {
        let text = status_text("GPU Engine counters are unavailable (", status);
        PdhProvider {
            state: QueryState::Unavailable(crate::text::joined(text.as_str(), ")")),
        }
    }

    /// What is to be done for a sample of a device at a time in nanoseconds.
    pub fn plan(&self, device: &CanonicalGpu, now: u64) -> (plan: PdhPlan)
        ensures
            plan == plan_for(self@, device, now),
    {
        match (luid_of(device), &self.state) {
            (Some(_), QueryState::Ready { collected_at, batch, .. }) => match (
                batch,
                collected_at,
            ) {
                (Some(_), Some(at)) => if *at <= now && now - *at <= BATCH_NANOS {
                    PdhPlan::Reuse
                } else {
                    PdhPlan::Collect
                },
                _ => PdhPlan::Collect,
            },
            _ => PdhPlan::Nothing,
        }
    }

    /// Takes note of a collection and its status; says whether the counters can be read now,
    /// which they cannot after the first collection.
    pub fn collected(&mut self, status: u32, now: u64) -> (readable: Result<bool, GpuError>)
        ensures
            match readable {
                Err(error) => status != 0 && error@ == status_error(
                    "PdhCollectQueryData failed with "@,
                    status,
                ) && final(self)@ == old(self)@,
                Ok(readable) => status == 0 && match old(self)@ {
                    PdhModel::Ready { primed, collected_at, interval_ms, batch } => {
                        &&& readable == primed
                        &&& final(self)@ == (PdhModel::Ready {
                            primed: true,
                            collected_at: Some(now),
                            interval_ms: interval_since(collected_at, now),
                            batch: if primed {
                                None
                            } else {
                                Some(BatchModel::First)
                            },
                        })
                    },
                    _ => !readable && final(self)@ == old(self)@,
                },
            },
    {
        if status != 0 {
            return Err(failed_call("PdhCollectQueryData failed with ", status));
        }
        let (before, last): (bool, Option<u64>) = match &self.state {
            QueryState::Ready { primed, collected_at, .. } => (*primed, *collected_at),
            _ => return Ok(false),
        };
        let interval_ms: Option<u64> = match last {
            Some(at) => if at <= now {
                Some((now - at) / 1_000_000)
            } else {
                Some(0)
            },
            None => None,
        };
        let batch = if before {
            None
        } else {
            Some(Batch::First)
        };
        self.state =
        QueryState::Ready { primed: true, collected_at: Some(now), interval_ms, batch };
        Ok(before)
    }

    /// Takes over the counters of the last collection.
    pub fn items_read(&mut self, items: Vec<CounterItem>)
        requires
            all_percent(counter_models(items@)),
        ensures
            final(self)@ == match old(self)@ {
                PdhModel::Ready { primed, collected_at, interval_ms, batch } => PdhModel::Ready {
                    primed,
                    collected_at,
                    interval_ms,
                    batch: Some(BatchModel::Items(counter_models(items@))),
                },
                other => other,
            },
    {
        let (primed, collected_at, interval_ms): (bool, Option<u64>, Option<u64>) =
            match &self.state {
            QueryState::Ready { primed, collected_at, interval_ms, .. } => (
                *primed,
                *collected_at,
                *interval_ms,
            ),
            _ => return ,
        };
        self.state =
        QueryState::Ready { primed, collected_at, interval_ms, batch: Some(Batch::Items(items)) };
    }

    /// What the last collection says of a device.
    pub fn answer(&self, device: &CanonicalGpu, sampled_at: TimestampMs) -> (sample: ProviderSample)
        ensures
            answers(sample, self@, device, sampled_at),
    {
        proof {
            use_type_invariant(self);
        }
        match (luid_of(device), &self.state) {
            (
                Some(luid),
                QueryState::Ready { interval_ms, batch: Some(batch), .. },
            ) => match batch {
                Batch::First => first_sample(&device.identity.id),
                Batch::Items(items) => counter_sample(
                    &device.identity.id,
                    luid.as_str(),
                    items,
                    *interval_ms,
                    sampled_at,
                ),
            },
            _ => ProviderSample::default(),
        }
    }

    /// What the provider says of its own state.
    pub fn diagnostic(&self) -> (diagnostic: ProviderDiagnostic)
        ensures
            diagnostic.id@ == pdh_name(),
            diagnostic.loaded == (self@ is Ready),
            diagnostic.version is None,
            diagnostic.devices_matched == 0,
            diagnostic.reason == match self@ {
                PdhModel::Ready { .. } => None,
                PdhModel::Unavailable(words) => Some(UnavailableReason::Unsupported),
                PdhModel::Closed => Some(UnavailableReason::DeviceLost),
            },
            text_view(diagnostic.message) == match self@ {
                PdhModel::Ready { .. } => None,
                PdhModel::Unavailable(words) => Some(words),
                PdhModel::Closed => Some("provider has been closed"@),
            },
    {
        let (loaded, reason, message) = match &self.state {
            QueryState::Ready { .. } => (true, None, None),
            QueryState::Unavailable(words) => (
                false,
                Some(UnavailableReason::Unsupported),
                Some(words.clone()),
            ),
            QueryState::Closed => (
                false,
                Some(UnavailableReason::DeviceLost),
                Some(owned("provider has been closed")),
            ),
        };
        ProviderDiagnostic {
            id: owned("windows-pdh"),
            loaded,
            version: None,
            devices_matched: 0,
            reason,
            message,
        }
    }

    /// What the provider offers for a device.
    pub fn capabilities(&self, device: &CanonicalGpu) -> (capabilities: CapabilitySet)
        ensures
            capabilities.metric_set() == if device_luid(device) is Some && self@ is Ready {
                pdh_metrics()
            } else {
                Set::empty()
            },
            capabilities.vendor_extensions@ == Set::<Seq<char>>::empty(),
    {
        let mut capabilities = CapabilitySet::default();
        if luid_of(device).is_none() {
            return capabilities;
        }
        match &self.state {
            QueryState::Ready { .. } => {
                capabilities.insert(MetricKey::UtilizationOverall);
                capabilities.insert(MetricKey::UtilizationGraphics);
                capabilities.insert(MetricKey::UtilizationCompute);
                capabilities.insert(MetricKey::UtilizationCopy);
                capabilities.insert(MetricKey::UtilizationEncoder);
                capabilities.insert(MetricKey::UtilizationDecoder);
            },
            _ => {},
        }
        capabilities
    }

    /// How the values of the provider are weighed.
    pub fn metadata() -> (metadata: ProviderMetadata)
        ensures
            metadata.id@ == pdh_name(),
            metadata.specificity == 60,
            metadata.reliability == 90,
            forall|key: MetricKey|
                metadata.priority(key) == if key == MetricKey::UtilizationOverall {
                    10i16
                } else {
                    0i16
                },
    {
        ProviderMetadata::new("windows-pdh", 60, 90).prefer(MetricKey::UtilizationOverall, 10)
    }

    pub fn shutdown(&mut self)
        ensures
            final(self)@ == PdhModel::Closed,
    {
        self.state = QueryState::Closed;
    }
}

/// The devices of one round get their values from one collection: as long as a collection is
/// fresh enough for a device, it is for every device that has counters.
pub proof fn law_a_round_shares_its_collection(
    state: PdhModel,
    first: &CanonicalGpu,
    second: &CanonicalGpu,
    now: u64,
)
    requires
        device_luid(second) is Some,
        plan_for(state, first, now) is Reuse,
    ensures
        plan_for(state, second, now) is Reuse,
{
}

} // verus!
