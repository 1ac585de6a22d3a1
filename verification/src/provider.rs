//! What a provider says of itself and of devices.
use crate::error::GpuError;
use crate::json::Json;
use crate::model::{
    CanonicalGpu, CapabilitySet, DeviceObservation, MetricKey, ProviderDiagnostic, ProviderSample,
    SampleRequest,
};
use crate::sorted_map::{Duplicate, SortedMap};
use vstd::prelude::*;

verus! {

/// How a provider's values are weighed against those of others.
pub struct ProviderMetadata {
    pub id: &'static str,
    pub specificity: i16,
    pub reliability: i16,
    pub metric_priorities: SortedMap<MetricKey, i16>,
}

impl Duplicate for i16 {
    fn duplicate(&self) -> (copy: Self) {
        *self
    }
}

impl ProviderMetadata {
    pub fn new(id: &'static str, specificity: i16, reliability: i16) -> (metadata: Self)
        ensures
            metadata.id@ == id@,
            metadata.specificity == specificity,
            metadata.reliability == reliability,
            metadata.metric_priorities@ == Map::<MetricKey, i16>::empty(),
    {
        ProviderMetadata { id, specificity, reliability, metric_priorities: SortedMap::new() }
    }

    pub fn prefer(self, metric: MetricKey, priority: i16) -> (metadata: Self)
        ensures
            metadata.id@ == self.id@,
            metadata.specificity == self.specificity,
            metadata.reliability == self.reliability,
            metadata.metric_priorities@ == self.metric_priorities@.insert(metric, priority),
    {
        let ProviderMetadata { id, specificity, reliability, mut metric_priorities } = self;
        metric_priorities.insert(metric, priority);
        ProviderMetadata { id, specificity, reliability, metric_priorities }
    }

    /// The priority of the provider for a metric, zero where none was stated.
    pub open spec fn priority(&self, metric: MetricKey) -> i16 {
        if self.metric_priorities@.contains_key(metric) {
            self.metric_priorities@[metric]
        } else {
            0
        }
    }

    pub fn metric_priority(&self, metric: MetricKey) -> (priority: i16)
        ensures
            priority == self.priority(metric),
    {
        match self.metric_priorities.get(&metric) {
            Some(priority) => *priority,
            None => 0,
        }
    }

    /// The same metadata.
    pub fn duplicate(&self) -> (copy: Self)
        ensures
            copy.id@ == self.id@,
            copy.specificity == self.specificity,
            copy.reliability == self.reliability,
            copy.metric_priorities@ == self.metric_priorities@,
    {
        ProviderMetadata {
            id: self.id,
            specificity: self.specificity,
            reliability: self.reliability,
            metric_priorities: self.metric_priorities.duplicate(),
        }
    }
}

/// What stays the same of a provider while it works.
pub trait ProviderState: Sized {
    /// The name of the provider, as `provider_id` gives it.
    spec fn id(&self) -> Seq<char>;

    /// How often the provider was told to stop, where it keeps count.
    spec fn stops(&self) -> Option<nat>;
}

/// One stop more.
pub open spec fn one_more(stops: Option<nat>) -> Option<nat> {
    match stops {
        Some(count) => Some(count + 1),
        None => None,
    }
}

/// The provider has kept its name, and was not told to stop.
pub open spec fn goes_on<P: ProviderState>(before: P, after: P) -> bool {
    after.id() == before.id() && after.stops() == before.stops()
}

/// A source of devices.
pub trait InventoryProvider: ProviderState {
    /// The provider may answer so when it is asked for its devices.
    spec fn may_enumerate(&self, reply: Result<Vec<DeviceObservation>, GpuError>) -> bool;

    /// The provider may say so of its own state.
    spec fn may_report(&self, diagnostic: ProviderDiagnostic) -> bool;

    fn provider_id(&self) -> (id: &'static str)
        ensures
            id@ == self.id(),
    ;

    fn enumerate(&mut self) -> (reply: Result<Vec<DeviceObservation>, GpuError>)
        ensures
            old(self).may_enumerate(reply),
            goes_on(*old(self), *final(self)),
    ;

    fn diagnostic(&self) -> (diagnostic: ProviderDiagnostic)
        ensures
            self.may_report(diagnostic),
    ;
}

/// A source of measurements.
pub trait TelemetryProvider: ProviderState {
    /// The provider may describe itself so.
    spec fn may_describe(&self, metadata: ProviderMetadata) -> bool;

    /// The provider may offer these capabilities for the device.
    spec fn may_offer(&self, device: &CanonicalGpu, capabilities: CapabilitySet) -> bool;

    /// The provider may answer so when it is asked for a sample of the device.
    spec fn may_sample(
        &self,
        device: &CanonicalGpu,
        request: &SampleRequest,
        reply: Result<ProviderSample, GpuError>,
    ) -> bool;

    /// The provider may answer so when it is asked for vendor data of the device.
    spec fn may_inform(&self, device: &CanonicalGpu, reply: Result<Json, GpuError>) -> bool;

    fn metadata(&self) -> (metadata: ProviderMetadata)
        ensures
            self.may_describe(metadata),
    ;

    fn capabilities(&self, device: &CanonicalGpu) -> (capabilities: CapabilitySet)
        ensures
            self.may_offer(device, capabilities),
    ;

    fn sample(&mut self, device: &CanonicalGpu, request: &SampleRequest) -> (reply: Result<
        ProviderSample,
        GpuError,
    >)
        ensures
            old(self).may_sample(device, request, reply),
            goes_on(*old(self), *final(self)),
    ;

    fn vendor_info(&mut self, device: &CanonicalGpu) -> (reply: Result<Json, GpuError>)
        ensures
            old(self).may_inform(device, reply),
            goes_on(*old(self), *final(self)),
    ;

    /// The provider has let go of what it held.
    spec fn is_stopped(&self) -> bool;

    fn shutdown(&mut self)
        ensures
            final(self).is_stopped(),
            final(self).id() == old(self).id(),
            final(self).stops() == one_more(old(self).stops()),
    ;
}

/// A source of devices and of measurements.
pub trait Provider: InventoryProvider + TelemetryProvider {

}

impl<T: InventoryProvider + TelemetryProvider> Provider for T {

}

} // verus!
