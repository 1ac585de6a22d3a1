//! Whether the system has a runtime for which there is no adapter.
use crate::error::GpuError;
use crate::json::Json;
use crate::model::{
    CanonicalGpu, CapabilitySet, DeviceObservation, MetricKey, ProviderDiagnostic, ProviderSample,
    SampleRequest, UnavailableReason,
};
use crate::provider::{InventoryProvider, ProviderMetadata, ProviderState, TelemetryProvider};
use crate::text::{chars_of, contains, ends_with, extend_text, has, owned, string_of, strip_end};
use vstd::prelude::*;

verus! {

/// The longest name of a library that is looked for.
pub const MAX_LIBRARY_NAME: usize = 128;

/// A character that the name of a library may hold.
pub open spec fn is_name_char(c: char) -> bool {
    'a' <= c <= 'z' || 'A' <= c <= 'Z' || '0' <= c <= '9' || c == '-' || c == '_' || c == '.'
}

/// A bare file name without its ending, which names nothing but itself.
pub open spec fn is_safe_stem(stem: Seq<char>) -> bool {
    &&& stem.len() > 0
    &&& forall|i: int| 0 <= i < stem.len() ==> is_name_char(#[trigger] stem[i])
    &&& !contains(stem, ".."@)
}

/// The name of a library that can be looked for in the system directory and nowhere else. All its
/// characters take one byte.
pub open spec fn is_safe_name(library: Seq<char>) -> bool {
    &&& library.len() <= MAX_LIBRARY_NAME
    &&& ends_with(library, ".dll"@) || ends_with(library, ".DLL"@)
    &&& is_safe_stem(library.take(library.len() - 4))
}

pub fn safe_system32_library_name(library: &str) -> (safe: bool)
    ensures
        safe == is_safe_name(library@),
{
    proof {
        reveal_strlit(".dll");
        reveal_strlit(".DLL");
    }
    let chars = chars_of(library);
    if chars.len() > MAX_LIBRARY_NAME {
        return false;
    }
    let stem = match strip_end(&chars, ".dll") {
        Some(stem) => stem,
        None => match strip_end(&chars, ".DLL") {
            Some(stem) => stem,
            None => return false,
        },
    };
    if stem.len() == 0 {
        return false;
    }
    let mut i: usize = 0;
    while i < stem.len()
        invariant
            i <= stem.len(),
            stem@ == library@.take(library@.len() - 4),
            forall|k: int| 0 <= k < i ==> is_name_char(#[trigger] stem@[k]),
        decreases stem.len() - i,
    {
        let c = stem[i];
        let fits = ('a' <= c && c <= 'z') || ('A' <= c && c <= 'Z') || ('0' <= c && c <= '9') || c
            == '-' || c == '_' || c == '.';
        if !fits {
            assert(!is_name_char(stem@[i as int]));
            return false;
        }
        i = i + 1;
    }
    let climbs = has(&stem, "..");
    !climbs
}

/// A runtime that was looked for. It is never a functional provider: what is found has no
/// adapter.
pub struct WindowsRuntimeProbe {
    pub id: &'static str,
    pub reason: UnavailableReason,
    pub message: String,
}

impl WindowsRuntimeProbe {
    /// The probe for a library of the system directory, after the attempt to load it. Where the
    /// name is not safe, nothing is loaded, and the outcome says nothing.
    pub fn system32(
        id: &'static str,
        library: &str,
        detected_message: &str,
        outcome: &Result<(), String>,
    ) -> (probe: Self)
        ensures
            probe.id@ == id@,
            probe.reason == if !is_safe_name(library@) {
                UnavailableReason::ProviderError
            } else if *outcome is Ok {
                UnavailableReason::Unsupported
            } else {
                UnavailableReason::DriverLibraryMissing
            },
            probe.message@ == if !is_safe_name(library@) {
                "optional Windows runtime probe rejected an unsafe library name"@
            } else {
                match *outcome {
                    Ok(_) => detected_message@,
                    Err(words) => library@ + " is not installed: "@ + words@,
                }
            },
    {
        if !safe_system32_library_name(library) {
            return WindowsRuntimeProbe {
                id,
                reason: UnavailableReason::ProviderError,
                message: owned("optional Windows runtime probe rejected an unsafe library name"),
            };
        }
        match outcome {
            Ok(_) => WindowsRuntimeProbe {
                id,
                reason: UnavailableReason::Unsupported,
                message: owned(detected_message),
            },
            Err(words) => {
                let mut text = chars_of(library);
                extend_text(&mut text, " is not installed: ");
                extend_text(&mut text, words.as_str());
                WindowsRuntimeProbe {
                    id,
                    reason: UnavailableReason::DriverLibraryMissing,
                    message: string_of(&text),
                }
            },
        }
    }
}

impl ProviderState for WindowsRuntimeProbe {
    open spec fn id(&self) -> Seq<char> {
        self.id@
    }

    open spec fn stops(&self) -> Option<nat> {
        None
    }
}

impl InventoryProvider for WindowsRuntimeProbe {
    open spec fn may_enumerate(&self, reply: Result<Vec<DeviceObservation>, GpuError>) -> bool {
        reply is Ok && reply->Ok_0@.len() == 0
    }

    open spec fn may_report(&self, diagnostic: ProviderDiagnostic) -> bool {
        &&& diagnostic.id@ == self.id@
        &&& !diagnostic.loaded
        &&& diagnostic.version is None
        &&& diagnostic.devices_matched == 0
        &&& diagnostic.reason == Some(self.reason)
        &&& diagnostic.message is Some
        &&& diagnostic.message->0@ == self.message@
    }

    fn provider_id(&self) -> (id: &'static str) {
        self.id
    }

    fn enumerate(&mut self) -> (reply: Result<Vec<DeviceObservation>, GpuError>)
        ensures
            *final(self) == *old(self),
    {
        Ok(Vec::new())
    }

    fn diagnostic(&self) -> (diagnostic: ProviderDiagnostic) {
        ProviderDiagnostic {
            id: owned(self.id),
            loaded: false,
            version: None,
            devices_matched: 0,
            reason: Some(self.reason),
            message: Some(self.message.clone()),
        }
    }
}

impl TelemetryProvider for WindowsRuntimeProbe {
    open spec fn may_describe(&self, metadata: ProviderMetadata) -> bool {
        &&& metadata.id@ == self.id@
        &&& metadata.specificity == 0
        &&& metadata.reliability == 0
        &&& metadata.metric_priorities@ == Map::<MetricKey, i16>::empty()
    }

    open spec fn may_offer(&self, device: &CanonicalGpu, capabilities: CapabilitySet) -> bool {
        &&& capabilities.metric_set() == Set::<MetricKey>::empty()
        &&& capabilities.vendor_extensions@ == Set::<Seq<char>>::empty()
    }

    open spec fn may_sample(
        &self,
        device: &CanonicalGpu,
        request: &SampleRequest,
        reply: Result<ProviderSample, GpuError>,
    ) -> bool {
        &&& reply is Ok
        &&& reply->Ok_0.metrics@.len() == 0
        &&& reply->Ok_0.unavailable@.len() == 0
        &&& reply->Ok_0.processes is None
    }

    open spec fn may_inform(&self, device: &CanonicalGpu, reply: Result<Json, GpuError>) -> bool {
        reply == Ok::<Json, GpuError>(Json::Null)
    }

    open spec fn is_stopped(&self) -> bool {
        true
    }

    fn metadata(&self) -> (metadata: ProviderMetadata) {
        ProviderMetadata::new(self.id, 0, 0)
    }

    fn capabilities(&self, device: &CanonicalGpu) -> (capabilities: CapabilitySet) {
        CapabilitySet::default()
    }

    fn sample(&mut self, device: &CanonicalGpu, request: &SampleRequest) -> (reply: Result<
        ProviderSample,
        GpuError,
    >)
        ensures
            *final(self) == *old(self),
    {
        Ok(ProviderSample::default())
    }

    fn vendor_info(&mut self, device: &CanonicalGpu) -> (reply: Result<Json, GpuError>)
        ensures
            *final(self) == *old(self),
    {
        Ok(Json::Null)
    }

    fn shutdown(&mut self)
        ensures
            *final(self) == *old(self),
    {
    }
}

} // verus!
