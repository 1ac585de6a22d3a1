//! What the numbers, names and sets of the model stand for.
use crate::error::{error_text, status_of, ErrorModel, ErrorStatus};
use crate::float_arithmetic::nearest_bits;
use crate::model::{
    metric_place, numeric, pci_vendor, pci_view, quality_score, timestamp, CapabilitySet,
    DeviceObservation, GpuCapabilities, GpuKind, GpuVendor, MemoryTopology, MetricKey, MetricQuality, MetricValue,
    PciIdentity, SampleRequest, UnavailableReason,
};
use vstd::prelude::*;

verus! {

/// A PCI vendor number stands for its vendor, and every other number for none that is known.
pub proof fn law_pci_numbers_tell_the_vendor(number: u32)
    ensures
        pci_vendor(number) == GpuVendor::Nvidia <==> number == 0x10de,
        pci_vendor(number) == GpuVendor::Amd <==> number == 0x1002 || number == 0x1022,
        pci_vendor(number) == GpuVendor::Intel <==> number == 0x8086,
        pci_vendor(number) == GpuVendor::Apple <==> number == 0x106b,
{
}

/// Vendors have their own names, and no two the same.
pub proof fn law_vendors_have_their_names(a: GpuVendor, b: GpuVendor)
    ensures
        a == GpuVendor::Nvidia ==> a.name() == "nvidia"@,
        a == GpuVendor::Amd ==> a.name() == "amd"@,
        a == GpuVendor::Intel ==> a.name() == "intel"@,
        a == GpuVendor::Apple ==> a.name() == "apple"@,
        a == GpuVendor::Unknown ==> a.name() == "unknown"@,
        a.name() == b.name() ==> a == b,
{
    reveal_strlit("nvidia");
    reveal_strlit("amd");
    reveal_strlit("intel");
    reveal_strlit("apple");
    reveal_strlit("unknown");
    assert("nvidia"@[0] == 'n');
    assert("amd"@[1] == 'm');
    assert("intel"@[0] == 'i');
    assert("apple"@[1] == 'p');
    assert("unknown"@[0] == 'u');
}

/// A reading of the clock is its milliseconds as long as a timestamp holds them; a clock before
/// the epoch reads zero.
pub proof fn law_readings_become_timestamps(reading: Option<u128>)
    ensures
        reading is None ==> timestamp(reading) == 0,
        reading is Some && reading->0 <= u64::MAX ==> timestamp(reading) == reading->0,
        reading is Some && reading->0 > u64::MAX ==> timestamp(reading) == u64::MAX,
{
}

/// No two metrics have the same place, and every place below 26 is taken by one: utilization,
/// memory, temperature, power, clocks, fans and processes follow one another.
pub proof fn law_metrics_have_their_places(a: MetricKey, b: MetricKey)
    ensures
        0 <= metric_place(a) < 26,
        metric_place(a) == metric_place(b) <==> a == b,
        metric_place(MetricKey::UtilizationOverall) == 0,
        metric_place(MetricKey::UtilizationGraphics) == 1,
        metric_place(MetricKey::UtilizationCompute) == 2,
        metric_place(MetricKey::UtilizationCopy) == 3,
        metric_place(MetricKey::UtilizationMemoryController) == 4,
        metric_place(MetricKey::UtilizationEncoder) == 5,
        metric_place(MetricKey::UtilizationDecoder) == 6,
        metric_place(MetricKey::MemoryDedicatedUsedBytes) == 7,
        metric_place(MetricKey::MemorySharedUsedBytes) == 8,
        metric_place(MetricKey::MemoryUnifiedUsedBytes) == 9,
        metric_place(MetricKey::MemoryBudgetBytes) == 10,
        metric_place(MetricKey::MemoryBandwidthUtilizationPercent) == 11,
        metric_place(MetricKey::TemperatureCoreCelsius) == 12,
        metric_place(MetricKey::TemperatureEdgeCelsius) == 13,
        metric_place(MetricKey::TemperatureHotspotCelsius) == 14,
        metric_place(MetricKey::TemperatureMemoryCelsius) == 15,
        metric_place(MetricKey::PowerDrawWatts) == 16,
        metric_place(MetricKey::PowerLimitWatts) == 17,
        metric_place(MetricKey::PowerEnergyJoules) == 18,
        metric_place(MetricKey::ClockGraphicsMhz) == 19,
        metric_place(MetricKey::ClockComputeMhz) == 20,
        metric_place(MetricKey::ClockMemoryMhz) == 21,
        metric_place(MetricKey::ClockVideoMhz) == 22,
        metric_place(MetricKey::FanPercent) == 23,
        metric_place(MetricKey::FanRpm) == 24,
        metric_place(MetricKey::Processes) == 25,
{
}

/// A better reading scores higher, by the same step.
pub proof fn law_better_readings_score_higher(quality: MetricQuality)
    ensures
        quality_score(MetricQuality::Direct) == 300,
        quality_score(MetricQuality::Derived) == quality_score(MetricQuality::Direct) - 100,
        quality_score(MetricQuality::Estimated) == quality_score(MetricQuality::Derived) - 100,
        quality_score(MetricQuality::Estimated) <= quality_score(quality) <= 300,
{
}

/// Reasons have their own names.
pub proof fn law_reasons_have_their_names(reason: UnavailableReason)
    ensures
        reason == UnavailableReason::Unsupported ==> reason.name() == "Unsupported"@,
        reason == UnavailableReason::DriverLibraryMissing ==> reason.name()
            == "DriverLibraryMissing"@,
        reason == UnavailableReason::PermissionDenied ==> reason.name() == "PermissionDenied"@,
        reason == UnavailableReason::DeviceLost ==> reason.name() == "DeviceLost"@,
        reason == UnavailableReason::FirstSample ==> reason.name() == "FirstSample"@,
        reason == UnavailableReason::TemporarilyUnavailable ==> reason.name()
            == "TemporarilyUnavailable"@,
        reason == UnavailableReason::ProviderError ==> reason.name() == "ProviderError"@,
{
}

/// Numbers have a value in double precision, an integer its nearest; flags and texts have none.
pub proof fn law_only_numbers_have_a_value(value: MetricValue)
    ensures
        numeric(value) is Some <==> value is Number || value is Integer,
        value is Number ==> numeric(value)->0 == value->Number_0,
        value is Integer ==> numeric(value)->0.bits == nearest_bits(value->Integer_0 as nat) as u64,
{
}

/// The public form lists what is offered, and its flags agree with its list.
pub proof fn law_flags_agree_with_the_list(public: GpuCapabilities, set: CapabilitySet)
    requires
        public.shows(&set),
    ensures
        forall|metric: MetricKey|
            public.metrics@.contains(metric) <==> #[trigger] set.metric_set().contains(metric),
        public.utilization.overall == public.metrics@.contains(MetricKey::UtilizationOverall),
        public.utilization.graphics == public.metrics@.contains(MetricKey::UtilizationGraphics),
        public.utilization.compute == public.metrics@.contains(MetricKey::UtilizationCompute),
        public.utilization.copy == public.metrics@.contains(MetricKey::UtilizationCopy),
        public.utilization.memory_controller == public.metrics@.contains(
            MetricKey::UtilizationMemoryController,
        ),
        public.utilization.encoder == public.metrics@.contains(MetricKey::UtilizationEncoder),
        public.utilization.decoder == public.metrics@.contains(MetricKey::UtilizationDecoder),
        public.processes == public.metrics@.contains(MetricKey::Processes),
        public.temperature <==> exists|metric: MetricKey| #[trigger]
            public.metrics@.contains(metric) && 12 <= metric_place(metric) <= 15,
        public.power <==> exists|metric: MetricKey| #[trigger]
            public.metrics@.contains(metric) && 16 <= metric_place(metric) <= 18,
        public.clocks <==> exists|metric: MetricKey| #[trigger]
            public.metrics@.contains(metric) && 19 <= metric_place(metric) <= 22,
        public.fan <==> exists|metric: MetricKey| #[trigger]
            public.metrics@.contains(metric) && 23 <= metric_place(metric) <= 24,
        forall|a: int, b: int|
            0 <= a < b < public.metrics@.len() ==> metric_place(#[trigger] public.metrics@[a])
                < metric_place(#[trigger] public.metrics@[b]),
{
    let list = public.metrics@;
    let has = set.metric_set();
    assert forall|metric: MetricKey| list.contains(metric) <==> #[trigger] has.contains(metric) by {}
    lemma_listed(list, has, MetricKey::UtilizationOverall);
    lemma_listed(list, has, MetricKey::UtilizationGraphics);
    lemma_listed(list, has, MetricKey::UtilizationCompute);
    lemma_listed(list, has, MetricKey::UtilizationCopy);
    lemma_listed(list, has, MetricKey::UtilizationMemoryController);
    lemma_listed(list, has, MetricKey::UtilizationEncoder);
    lemma_listed(list, has, MetricKey::UtilizationDecoder);
    lemma_listed(list, has, MetricKey::TemperatureCoreCelsius);
    lemma_listed(list, has, MetricKey::TemperatureEdgeCelsius);
    lemma_listed(list, has, MetricKey::TemperatureHotspotCelsius);
    lemma_listed(list, has, MetricKey::TemperatureMemoryCelsius);
    lemma_listed(list, has, MetricKey::PowerDrawWatts);
    lemma_listed(list, has, MetricKey::PowerLimitWatts);
    lemma_listed(list, has, MetricKey::PowerEnergyJoules);
    lemma_listed(list, has, MetricKey::ClockGraphicsMhz);
    lemma_listed(list, has, MetricKey::ClockComputeMhz);
    lemma_listed(list, has, MetricKey::ClockMemoryMhz);
    lemma_listed(list, has, MetricKey::ClockVideoMhz);
    lemma_listed(list, has, MetricKey::FanPercent);
    lemma_listed(list, has, MetricKey::FanRpm);
    lemma_listed(list, has, MetricKey::Processes);
}

proof fn lemma_listed(list: Seq<MetricKey>, set: Set<MetricKey>, metric: MetricKey)
    requires
        forall|metric: MetricKey| list.contains(metric) <==> #[trigger] set.contains(metric),
    ensures
        list.contains(metric) == set.contains(metric),
{
}

/// A request without a list asks for everything; one with a list asks for what is on it.
pub proof fn law_requests_ask_for_what_they_list(request: SampleRequest, metric: MetricKey)
    ensures
        request.metrics is None ==> request.asks_for(metric),
        request.metrics is Some ==> request.asks_for(metric) == request.metrics->0@.contains(
            metric,
        ),
{
}

/// A PCI identity is seen with its own address and numbers.
pub proof fn law_pci_identities_are_seen_as_they_are(pci: PciIdentity)
    ensures
        pci_view(pci).vendor_id == pci.vendor_id,
        pci_view(pci).device_id == pci.device_id,
        pci_view(pci).subsystem_vendor_id == pci.subsystem_vendor_id,
        pci_view(pci).subsystem_device_id == pci.subsystem_device_id,
        pci.address is Some ==> pci_view(pci).address == Some(pci.address->0@),
        pci.address is None ==> pci_view(pci).address is None,
{
}

/// Observations that say the same agree in everything that is compared between devices.
pub proof fn law_same_observations_agree(a: DeviceObservation, b: DeviceObservation)
    requires
        a.says_same(&b),
    ensures
        a.provider@ == b.provider@,
        a.provider_device_id@ == b.provider_device_id@,
        a.vendor == b.vendor,
        a.name@ == b.name@,
        a.kind == b.kind,
        a.uuid == b.uuid,
        a.pci == b.pci,
        a.windows == b.windows,
        a.macos == b.macos,
        a.memory == b.memory,
        a.architecture == b.architecture,
        a.driver_version == b.driver_version,
        a.firmware_version == b.firmware_version,
        a.partition == b.partition,
        a.parent_provider_device_id == b.parent_provider_device_id,
        a.identity_priority == b.identity_priority,
        a.enumeration_ordinal == b.enumeration_ordinal,
        a.observed_at == b.observed_at,
        a.capabilities.metric_set() == b.capabilities.metric_set(),
        b.says_same(&a),
{
}

/// The text of an error holds its own words behind its kind.
pub proof fn law_errors_tell_their_kind_and_words(text: Seq<char>)
    ensures
        error_text(ErrorModel::InvalidArgument(text)) == "invalid argument: "@ + text,
        error_text(ErrorModel::MonitorClosed) == "monitor is closed"@,
        error_text(ErrorModel::DeviceNotFound(text)) == "GPU `"@ + text + "` was not found"@,
        error_text(ErrorModel::StreamClosed) == "sample stream is closed"@,
        error_text(ErrorModel::Backpressure(text)) == "backpressure: "@ + text,
        error_text(ErrorModel::Internal(text)) == "internal invariant failed: "@ + text,
{
}

/// The failure of a provider names the provider, the reason and the message.
pub proof fn law_provider_failures_name_the_provider(
    provider: Seq<char>,
    reason: UnavailableReason,
    message: Seq<char>,
)
    ensures
        error_text(ErrorModel::Provider { provider, reason, message }) == "provider `"@ + provider
            + "` failed ("@ + reason.name() + "): "@ + message,
{
}

/// What the caller asked wrongly is an invalid argument, what has ended is cancelled, and
/// everything else is a failure.
pub proof fn law_errors_have_their_status(error: ErrorModel)
    ensures
        status_of(error) == ErrorStatus::InvalidArgument <==> error is InvalidArgument || error
            is DeviceNotFound,
        status_of(error) == ErrorStatus::Cancelled <==> error is MonitorClosed || error
            is StreamClosed,
        status_of(error) == ErrorStatus::GenericFailure <==> error is Backpressure || error
            is Provider || error is Internal,
{
}

/// A new observation says who observed which device, of which vendor and by which name, and
/// nothing else: it offers no metric, knows no memory, and ranks last.
pub proof fn law_new_observations_know_nothing_else(
    o: DeviceObservation,
    provider: Seq<char>,
    device: Seq<char>,
    vendor: GpuVendor,
    name: Seq<char>,
    key: MetricKey,
    extension: Seq<char>,
)
    requires
        o.is_bare(provider, device, vendor, name),
    ensures
        o.provider@ == provider && o.provider_device_id@ == device && o.vendor == vendor && o.name@
            == name,
        o.kind == GpuKind::Unknown && o.memory.topology == MemoryTopology::Unknown,
        o.memory.dedicated_total_bytes is None && o.memory.shared_total_bytes is None
            && o.memory.unified_total_bytes is None,
        o.uuid is None && o.pci is None && o.windows is None && o.macos is None,
        o.architecture is None && o.driver_version is None && o.firmware_version is None,
        o.parent_provider_device_id is None && o.partition is None,
        !o.capabilities.metric_set().contains(key),
        !o.capabilities.vendor_extensions@.contains(extension),
        !o.vendor_info@.contains_key(extension),
        o.identity_priority == 0 && o.enumeration_ordinal is None,
{
}

} // verus!
