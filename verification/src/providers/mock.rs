//! A provider that plays back what it was given.
use crate::error::GpuError;
use crate::json::Json;
use crate::model::{
    CanonicalGpu, CapabilitySet, DeviceObservation, MetricKey, ProviderDiagnostic, ProviderSample,
    SampleRequest,
};
use crate::provider::{InventoryProvider, ProviderMetadata, ProviderState, TelemetryProvider};
use crate::text::owned;
use vstd::prelude::*;

verus! {

pub struct MockProvider {
    metadata: ProviderMetadata,
    devices: Vec<DeviceObservation>,
    samples: Vec<ProviderSample>,
    fallback_sample: ProviderSample,
    sample_count: usize,
    shutdown: bool,
    stop_count: Ghost<nat>,
}

impl MockProvider {
    pub closed spec fn described(&self) -> ProviderMetadata {
        self.metadata
    }

    pub closed spec fn device_list(&self) -> Seq<DeviceObservation> {
        self.devices@
    }

    /// The samples that have not been played back yet.
    pub closed spec fn remaining(&self) -> Seq<ProviderSample> {
        self.samples@
    }

    /// The sample that is played back when no other is left.
    pub closed spec fn fallback(&self) -> ProviderSample {
        self.fallback_sample
    }

    pub closed spec fn samples_taken(&self) -> usize {
        self.sample_count
    }

    pub closed spec fn stopped(&self) -> bool {
        self.shutdown
    }

    /// How often the provider was told to stop.
    pub closed spec fn stop_count(&self) -> nat {
        self.stop_count@
    }

    /// The sample that is played back next.
    pub open spec fn next_sample(&self) -> ProviderSample {
        if self.remaining().len() > 0 {
            self.remaining()[0]
        } else {
            self.fallback()
        }
    }

    /// A provider with the given devices that plays back the given samples, the last one for ever.
    pub fn new(
        metadata: ProviderMetadata,
        devices: Vec<DeviceObservation>,
        samples: Vec<ProviderSample>,
    ) -> (provider: Self)
        ensures
            provider.described() == metadata,
            provider.device_list() == devices@,
            provider.remaining() == samples@,
            provider.samples_taken() == 0,
            !provider.stopped(),
            provider.stop_count() == 0,
            samples@.len() > 0 ==> provider.fallback().says_same(&samples@.last()),
            samples@.len() == 0 ==> provider.fallback().metrics@.len() == 0
                && provider.fallback().unavailable@.len() == 0
                && provider.fallback().processes is None,
    {
        let fallback_sample = if samples.len() > 0 {
            samples[samples.len() - 1].duplicate()
        } else {
            ProviderSample::default()
        };
        MockProvider {
            metadata,
            devices,
            samples,
            fallback_sample,
            sample_count: 0,
            shutdown: false,
            stop_count: Ghost(0),
        }
    }

    pub fn was_shutdown(&self) -> (stopped: bool)
        ensures
            stopped == self.stopped(),
    {
        self.shutdown
    }

    pub fn sample_count(&self) -> (count: usize)
        ensures
            count == self.samples_taken(),
    {
        self.sample_count
    }
}

/// The observation that speaks of the device, by the name that the provider has for it: the first.
pub open spec fn observation_of(
    devices: Seq<DeviceObservation>,
    provider: Seq<char>,
    device: &CanonicalGpu,
) -> Option<DeviceObservation>
    decreases devices.len(),
{
    if devices.len() == 0 || !device.provider_device_ids@.contains_key(provider) {
        None
    } else if observation_of(devices.drop_last(), provider, device) is Some {
        observation_of(devices.drop_last(), provider, device)
    } else if device.provider_device_ids@[provider]@ == devices.last().provider_device_id@ {
        Some(devices.last())
    } else {
        None
    }
}

/// Capabilities as sets.
pub open spec fn offers_exactly(
    capabilities: CapabilitySet,
    observation: Option<DeviceObservation>,
) -> bool {
    match observation {
        Some(o) => {
            &&& capabilities.metric_set() == o.capabilities.metric_set()
            &&& capabilities.vendor_extensions@ == o.capabilities.vendor_extensions@
        },
        None => {
            &&& capabilities.metric_set() == Set::<MetricKey>::empty()
            &&& capabilities.vendor_extensions@ == Set::<Seq<char>>::empty()
        },
    }
}

impl ProviderState for MockProvider {
    open spec fn id(&self) -> Seq<char> {
        self.described().id@
    }

    open spec fn stops(&self) -> Option<nat> {
        Some(self.stop_count())
    }
}

impl InventoryProvider for MockProvider {
    open spec fn may_enumerate(&self, reply: Result<Vec<DeviceObservation>, GpuError>) -> bool {
        &&& reply is Ok
        &&& reply->Ok_0@.len() == self.device_list().len()
        &&& forall|i: int|
            0 <= i < reply->Ok_0@.len() ==> (#[trigger] reply->Ok_0@[i]).says_same(
                &self.device_list()[i],
            )
    }

    open spec fn may_report(&self, diagnostic: ProviderDiagnostic) -> bool {
        &&& diagnostic.id@ == self.described().id@
        &&& diagnostic.loaded
        &&& diagnostic.version is Some
        &&& diagnostic.version->0@ == "mock"@
        &&& diagnostic.devices_matched == self.device_list().len()
        &&& diagnostic.reason is None
        &&& diagnostic.message is None
    }

    fn provider_id(&self) -> (id: &'static str) {
        self.metadata.id
    }

    fn enumerate(&mut self) -> (reply: Result<Vec<DeviceObservation>, GpuError>)
        ensures
            *final(self) == *old(self),
    {
        let mut list: Vec<DeviceObservation> = Vec::new();
        let mut i: usize = 0;
        while i < self.devices.len()
            invariant
                i <= self.devices.len(),
                list.len() == i,
                *self == *old(self),
                forall|k: int| 0 <= k < i ==> (#[trigger] list@[k]).says_same(&self.devices@[k]),
            decreases self.devices.len() - i,
        {
            list.push(self.devices[i].duplicate());
            i = i + 1;
        }
        Ok(list)
    }

    fn diagnostic(&self) -> (diagnostic: ProviderDiagnostic) {
        ProviderDiagnostic {
            id: owned(self.metadata.id),
            loaded: true,
            version: Some(owned("mock")),
            devices_matched: self.devices.len(),
            reason: None,
            message: None,
        }
    }
}

impl TelemetryProvider for MockProvider {
    open spec fn may_describe(&self, metadata: ProviderMetadata) -> bool {
        &&& metadata.id@ == self.described().id@
        &&& metadata.specificity == self.described().specificity
        &&& metadata.reliability == self.described().reliability
        &&& metadata.metric_priorities@ == self.described().metric_priorities@
    }

    open spec fn may_offer(&self, device: &CanonicalGpu, capabilities: CapabilitySet) -> bool {
        offers_exactly(
            capabilities,
            observation_of(self.device_list(), self.described().id@, device),
        )
    }

    open spec fn may_sample(
        &self,
        device: &CanonicalGpu,
        request: &SampleRequest,
        reply: Result<ProviderSample, GpuError>,
    ) -> bool {
        reply is Ok && reply->Ok_0.says_same(&self.next_sample())
    }

    open spec fn may_inform(&self, device: &CanonicalGpu, reply: Result<Json, GpuError>) -> bool {
        reply == Ok::<Json, GpuError>(Json::Null)
    }

    open spec fn is_stopped(&self) -> bool {
        self.stopped()
    }

    fn metadata(&self) -> (metadata: ProviderMetadata) {
        self.metadata.duplicate()
    }

    fn capabilities(&self, device: &CanonicalGpu) -> (capabilities: CapabilitySet) {
        let id = owned(self.metadata.id);
        if let Some(name) = device.provider_device_ids.get(&id) {
            let mut i: usize = 0;
            while i < self.devices.len()
                invariant
                    i <= self.devices.len(),
                    id@ == self.metadata.id@,
                    device.provider_device_ids@.contains_key(id@),
                    device.provider_device_ids@[id@] == *name,
                    observation_of(self.devices@.take(i as int), id@, device) is None,
                decreases self.devices.len() - i,
            {
                assert(self.devices@.take(i + 1).drop_last() == self.devices@.take(i as int));
                if *name == self.devices[i].provider_device_id {
                    proof {
                        lemma_observation_stays(self.devices@, id@, device, i + 1);
                    }
                    return self.devices[i].capabilities.duplicate();
                }
                i = i + 1;
            }
            assert(self.devices@.take(i as int) == self.devices@);
        } else {
            proof {
                lemma_unnamed(self.devices@, id@, device);
            }
        }
        CapabilitySet::default()
    }

    fn sample(&mut self, device: &CanonicalGpu, request: &SampleRequest) -> (reply: Result<
        ProviderSample,
        GpuError,
    >)
        ensures
            final(self).samples_taken() == old(self).samples_taken().wrapping_add(1),
            final(self).remaining() == if old(self).remaining().len() > 0 {
                old(self).remaining().skip(1)
            } else {
                old(self).remaining()
            },
            final(self).fallback() == old(self).fallback(),
            final(self).described() == old(self).described(),
            final(self).device_list() == old(self).device_list(),
            final(self).stopped() == old(self).stopped(),
    {
        self.sample_count = self.sample_count.wrapping_add(1);
        if self.samples.len() > 0 {
            let next = self.samples.remove(0);
            assert(self.samples@ == old(self).samples@.skip(1));
            Ok(next)
        } else {
            Ok(self.fallback_sample.duplicate())
        }
    }

    fn vendor_info(&mut self, device: &CanonicalGpu) -> (reply: Result<Json, GpuError>)
        ensures
            *final(self) == *old(self),
    {
        Ok(Json::Null)
    }

    fn shutdown(&mut self)
        ensures
            final(self).samples_taken() == old(self).samples_taken(),
            final(self).remaining() == old(self).remaining(),
            final(self).fallback() == old(self).fallback(),
            final(self).described() == old(self).described(),
            final(self).device_list() == old(self).device_list(),
    {
        self.shutdown = true;
        proof {
            self.stop_count@ = self.stop_count@ + 1;
        }
    }
}

proof fn lemma_observation_stays(
    devices: Seq<DeviceObservation>,
    provider: Seq<char>,
    device: &CanonicalGpu,
    n: int,
)
    requires
        0 <= n <= devices.len(),
        observation_of(devices.take(n), provider, device) is Some,
    ensures
        observation_of(devices, provider, device) == observation_of(
            devices.take(n),
            provider,
            device,
        ),
    decreases devices.len() - n,
{
    if n == devices.len() {
        assert(devices.take(n) == devices);
    } else {
        assert(devices.take(n + 1).drop_last() == devices.take(n));
        lemma_observation_stays(devices, provider, device, n + 1);
    }
}

proof fn lemma_unnamed(
    devices: Seq<DeviceObservation>,
    provider: Seq<char>,
    device: &CanonicalGpu,
)
    requires
        !device.provider_device_ids@.contains_key(provider),
    ensures
        observation_of(devices, provider, device) is None,
{
}

} // verus!
