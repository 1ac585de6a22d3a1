//! A known gap: a runtime whose adapter is not there.
use crate::error::GpuError;
use crate::json::Json;
use crate::model::{
    CanonicalGpu, CapabilitySet, DeviceObservation, MetricKey, ProviderDiagnostic, ProviderSample,
    SampleRequest, UnavailableReason,
};
use crate::provider::{InventoryProvider, ProviderMetadata, ProviderState, TelemetryProvider};
use crate::text::owned;
use vstd::prelude::*;

verus! {

/// Diagnostic-only boundary for a runtime whose stable adapter is unavailable.
///
/// It lets the monitor explain a known, hardware-dependent gap without advertising capabilities.
pub struct UnavailableProvider {
    id: &'static str,
    reason: UnavailableReason,
    message: String,
}

impl UnavailableProvider {
    pub closed spec fn name(&self) -> Seq<char> {
        self.id@
    }

    pub closed spec fn why(&self) -> UnavailableReason {
        self.reason
    }

    pub closed spec fn words(&self) -> Seq<char> {
        self.message@
    }

    pub fn new(id: &'static str, reason: UnavailableReason, message: &str) -> (provider: Self)
        ensures
            provider.name() == id@,
            provider.why() == reason,
            provider.words() == message@,
    {
        UnavailableProvider { id, reason, message: owned(message) }
    }
}

impl ProviderState for UnavailableProvider {
    open spec fn id(&self) -> Seq<char> {
        self.name()
    }

    open spec fn stops(&self) -> Option<nat> {
        None
    }
}

impl InventoryProvider for UnavailableProvider {
    open spec fn may_enumerate(&self, reply: Result<Vec<DeviceObservation>, GpuError>) -> bool {
        reply is Ok && reply->Ok_0@.len() == 0
    }

    open spec fn may_report(&self, diagnostic: ProviderDiagnostic) -> bool {
        &&& diagnostic.id@ == self.name()
        &&& !diagnostic.loaded
        &&& diagnostic.version is None
        &&& diagnostic.devices_matched == 0
        &&& diagnostic.reason == Some(self.why())
        &&& diagnostic.message is Some
        &&& diagnostic.message->0@ == self.words()
    }

    fn provider_id(&self) -> (id: &'static str) {
        self.id
    }

    fn enumerate(&mut self) -> (reply: Result<Vec<DeviceObservation>, GpuError>)
        ensures
            *final(self) == *old(self),
    {
        Ok(Vec::new())
    }

    fn diagnostic(&self) -> (diagnostic: ProviderDiagnostic) {
        ProviderDiagnostic {
            id: owned(self.id),
            loaded: false,
            version: None,
            devices_matched: 0,
            reason: Some(self.reason),
            message: Some(self.message.clone()),
        }
    }
}

impl TelemetryProvider for UnavailableProvider {
    open spec fn may_describe(&self, metadata: ProviderMetadata) -> bool {
        &&& metadata.id@ == self.name()
        &&& metadata.specificity == 0
        &&& metadata.reliability == 0
        &&& metadata.metric_priorities@ == Map::<MetricKey, i16>::empty()
    }

    open spec fn may_offer(&self, device: &CanonicalGpu, capabilities: CapabilitySet) -> bool {
        &&& capabilities.metric_set() == Set::<MetricKey>::empty()
        &&& capabilities.vendor_extensions@ == Set::<Seq<char>>::empty()
    }

    open spec fn may_sample(
        &self,
        device: &CanonicalGpu,
        request: &SampleRequest,
        reply: Result<ProviderSample, GpuError>,
    ) -> bool {
        &&& reply is Ok
        &&& reply->Ok_0.metrics@.len() == 0
        &&& reply->Ok_0.unavailable@.len() == 0
        &&& reply->Ok_0.processes is None
    }

    open spec fn may_inform(&self, device: &CanonicalGpu, reply: Result<Json, GpuError>) -> bool {
        reply == Ok::<Json, GpuError>(Json::Null)
    }

    open spec fn is_stopped(&self) -> bool {
        true
    }

    fn metadata(&self) -> (metadata: ProviderMetadata) {
        ProviderMetadata::new(self.id, 0, 0)
    }

    fn capabilities(&self, device: &CanonicalGpu) -> (capabilities: CapabilitySet) {
        CapabilitySet::default()
    }

    fn sample(&mut self, device: &CanonicalGpu, request: &SampleRequest) -> (reply: Result<
        ProviderSample,
        GpuError,
    >)
        ensures
            *final(self) == *old(self),
    {
        Ok(ProviderSample::default())
    }

    fn vendor_info(&mut self, device: &CanonicalGpu) -> (reply: Result<Json, GpuError>)
        ensures
            *final(self) == *old(self),
    {
        Ok(Json::Null)
    }

    fn shutdown(&mut self)
        ensures
            *final(self) == *old(self),
    {
    }
}

} // verus!
