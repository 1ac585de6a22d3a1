//! A provider around something that asks the host, of which nothing is known but its name.
use crate::error::GpuError;
use crate::json::Json;
use crate::model::{
    CanonicalGpu, CapabilitySet, DeviceObservation, ProviderDiagnostic, ProviderSample,
    SampleRequest,
};
use crate::provider::{InventoryProvider, ProviderMetadata, ProviderState, TelemetryProvider};
use vstd::prelude::*;

verus! {

/// What asks the host. It may answer anything.
pub trait HostSource: Sized {
    fn enumerate(&mut self) -> Result<Vec<DeviceObservation>, GpuError>;

    fn diagnostic(&self) -> ProviderDiagnostic;

    fn metadata(&self) -> ProviderMetadata;

    fn capabilities(&self, device: &CanonicalGpu) -> CapabilitySet;

    fn sample(&mut self, device: &CanonicalGpu, request: &SampleRequest) -> Result<
        ProviderSample,
        GpuError,
    >;

    fn vendor_info(&mut self, device: &CanonicalGpu) -> Result<Json, GpuError>;

    fn shutdown(&mut self);
}

/// A provider that asks the host. It keeps its name, and counts how often it was told to stop.
pub struct HostProvider<H: HostSource> {
    id: &'static str,
    source: H,
    stop_count: Ghost<nat>,
}

impl<H: HostSource> HostProvider<H> {
    pub closed spec fn name(&self) -> Seq<char> {
        self.id@
    }

    /// How often the provider was told to stop.
    pub closed spec fn stop_count(&self) -> nat {
        self.stop_count@
    }

    pub closed spec fn asked(&self) -> H {
        self.source
    }

    pub fn new(id: &'static str, source: H) -> (provider: Self)
        ensures
            provider.name() == id@,
            provider.stop_count() == 0,
            provider.asked() == source,
    {
        HostProvider { id, source, stop_count: Ghost(0) }
    }

    /// What asks the host.
    pub fn source(&self) -> (source: &H)
        ensures
            *source == self.asked(),
    {
        &self.source
    }
}

impl<H: HostSource> ProviderState for HostProvider<H> {
    open spec fn id(&self) -> Seq<char> {
        self.name()
    }

    open spec fn stops(&self) -> Option<nat> {
        Some(self.stop_count())
    }
}

impl<H: HostSource> InventoryProvider for HostProvider<H> {
    open spec fn may_enumerate(&self, reply: Result<Vec<DeviceObservation>, GpuError>) -> bool {
        true
    }

    open spec fn may_report(&self, diagnostic: ProviderDiagnostic) -> bool {
        true
    }

    fn provider_id(&self) -> (id: &'static str) {
        self.id
    }

    fn enumerate(&mut self) -> (reply: Result<Vec<DeviceObservation>, GpuError>) {
        self.source.enumerate()
    }

    fn diagnostic(&self) -> (diagnostic: ProviderDiagnostic) {
        self.source.diagnostic()
    }
}

impl<H: HostSource> TelemetryProvider for HostProvider<H> {
    open spec fn may_describe(&self, metadata: ProviderMetadata) -> bool {
        true
    }

    open spec fn may_offer(&self, device: &CanonicalGpu, capabilities: CapabilitySet) -> bool {
        true
    }

    open spec fn may_sample(
        &self,
        device: &CanonicalGpu,
        request: &SampleRequest,
        reply: Result<ProviderSample, GpuError>,
    ) -> bool {
        true
    }

    open spec fn may_inform(&self, device: &CanonicalGpu, reply: Result<Json, GpuError>) -> bool {
        true
    }

    open spec fn is_stopped(&self) -> bool {
        self.stop_count() > 0
    }

    fn metadata(&self) -> (metadata: ProviderMetadata) {
        self.source.metadata()
    }

    fn capabilities(&self, device: &CanonicalGpu) -> (capabilities: CapabilitySet) {
        self.source.capabilities(device)
    }

    fn sample(&mut self, device: &CanonicalGpu, request: &SampleRequest) -> (reply: Result<
        ProviderSample,
        GpuError,
    >) {
        self.source.sample(device, request)
    }

    fn vendor_info(&mut self, device: &CanonicalGpu) -> (reply: Result<Json, GpuError>) {
        self.source.vendor_info(device)
    }

    fn shutdown(&mut self) {
        self.source.shutdown();
        proof {
            self.stop_count@ = self.stop_count@ + 1;
        }
    }
}

} // verus!
