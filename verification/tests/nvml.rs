use let_smi_core::binary64::Binary64;
use let_smi_core::correlation::correlate;
use let_smi_core::json::{Json, JsonNumber};
use let_smi_core::providers::nvml::{
    average_fan_percentage, average_fan_reading, bounded_string, canonical_pci_address,
    checked_percentage, collect_processes, is_unsupported, microseconds_to_milliseconds,
    millijoules_to_joules, milliwatts_to_watts, split_combined_pci_id, unavailable_reason,
    CodecReading, FanReadings, FieldError, NvmlErrorKind, NvmlFailure, NvmlReadings, ProcessQuery,
    ProcessReading, UtilizationReading, MAX_NVML_STRING_BYTES,
};
use let_smi_core::providers::nvml_info::{
    dynamic_vendor_info, throttle_reason_names, ComputeMode, DynamicFacts, EncoderSession,
    EncoderType, StaticFacts, ThrottleFlags,
};
use let_smi_core::providers::nvml_inventory::{
    architecture_name, DeviceArchitecture, DeviceHandle, NvmlDeviceFacts, NvmlPci, NvmlProbes,
    NvmlProvider,
};
use let_smi_core::providers::nvml_queries::{fan_reads, plan_queries, reads_list};
use let_smi_core::providers::optional_runtime::UnavailableProvider;
use let_smi_core::sorted_map::SortedSet;
use let_smi_core::{
    CanonicalGpu, CapabilitySet, GpuKind, GpuVendor, InventoryProvider, MemoryTopology, MetricKey,
    MetricValue, SampleRequest, UnavailableReason,
};

fn number(value: f64) -> Binary64 {
    Binary64::from_bits(value.to_bits())
}

fn failure(kind: NvmlErrorKind) -> NvmlFailure {
    NvmlFailure {
        kind,
        words: "query failed".into(),
    }
}

#[test]
fn maps_nvml_errors_to_public_availability_reasons() {
    assert_eq!(
        unavailable_reason(NvmlErrorKind::NotSupported),
        UnavailableReason::Unsupported
    );
    assert_eq!(
        unavailable_reason(NvmlErrorKind::NoPermission),
        UnavailableReason::PermissionDenied
    );
    assert_eq!(
        unavailable_reason(NvmlErrorKind::GpuLost),
        UnavailableReason::DeviceLost
    );
    assert_eq!(
        unavailable_reason(NvmlErrorKind::DriverNotLoaded),
        UnavailableReason::DriverLibraryMissing
    );
    assert_eq!(
        unavailable_reason(NvmlErrorKind::NoData),
        UnavailableReason::TemporarilyUnavailable
    );
    assert_eq!(
        unavailable_reason(NvmlErrorKind::Other),
        UnavailableReason::ProviderError
    );
    assert!(is_unsupported(NvmlErrorKind::FailedToLoadSymbol));
    assert!(!is_unsupported(NvmlErrorKind::NoData));
}

#[test]
fn bounds_strings_returned_by_the_driver() {
    assert_eq!(
        bounded_string("driver-value".into()).as_deref(),
        Some("driver-value")
    );
    assert!(bounded_string("x".repeat(MAX_NVML_STRING_BYTES + 1)).is_none());
    assert!(bounded_string("\u{e9}".repeat(MAX_NVML_STRING_BYTES / 2 + 1)).is_none());
    assert!(bounded_string("\u{e9}".repeat(MAX_NVML_STRING_BYTES / 2)).is_some());
}

#[test]
fn a_missing_nvml_runtime_degrades_without_inventory_failure() {
    let mut provider = NvmlProvider::unavailable(
        UnavailableReason::DriverLibraryMissing,
        "mock NVML library is absent",
    );
    assert!(!provider.is_usable());
    assert!(provider.install(&Vec::new(), false).is_empty());
    let diagnostic = provider.diagnostic();
    assert!(!diagnostic.loaded);
    assert_eq!(
        diagnostic.reason,
        Some(UnavailableReason::DriverLibraryMissing)
    );
    assert_eq!(
        diagnostic.message,
        Some("mock NVML library is absent".to_string())
    );
}

#[test]
fn splits_nvml_combined_pci_ids() {
    assert_eq!(split_combined_pci_id(0x2684_10de), (0x10de, 0x2684));
    assert_eq!(split_combined_pci_id(0x163a_1043), (0x1043, 0x163a));
}

#[test]
fn canonicalizes_nvmls_eight_digit_pci_domain() {
    assert_eq!(
        canonical_pci_address(0, 0x65, 0, "00000000:65:00.3"),
        "0000:65:00.3"
    );
    assert_eq!(
        canonical_pci_address(1, 2, 3, "00000001:02:03.0"),
        "0001:02:03.0"
    );
}

#[test]
fn distinguishes_zero_from_invalid_percentages() {
    assert_eq!(checked_percentage(0), Ok(number(0.0)));
    assert_eq!(checked_percentage(100), Ok(number(100.0)));
    assert!(checked_percentage(101).is_err());
}

#[test]
fn converts_nvml_units_to_public_units() {
    assert_eq!(milliwatts_to_watts(125_500), number(125.5));
    assert_eq!(millijoules_to_joules(2_500), number(2.5));
    assert_eq!(microseconds_to_milliseconds(1), 1);
    assert_eq!(microseconds_to_milliseconds(1_001), 2);
    assert_eq!(
        millijoules_to_joules(u64::MAX),
        number(u64::MAX as f64 / 1_000.0)
    );
}

#[test]
fn unsupported_platform_stub_degrades_without_error() {
    let mut provider = UnavailableProvider::new(
        "nvml",
        UnavailableReason::Unsupported,
        "NVML is only supported on Windows and Linux",
    );
    assert!(provider.enumerate().unwrap().is_empty());
    let diagnostic = provider.diagnostic();
    assert!(!diagnostic.loaded);
    assert_eq!(diagnostic.reason, Some(UnavailableReason::Unsupported));
}

fn fans(speeds: Vec<Result<u32, NvmlFailure>>) -> FanReadings {
    FanReadings {
        count: Ok(speeds.len() as u32),
        speeds,
        mean_text: "150".into(),
    }
}

#[test]
fn fans_are_averaged() {
    let unsupported = failure(NvmlErrorKind::NotSupported);
    let mean = average_fan_reading(
        &fans(vec![Ok(1_000), Err(failure(NvmlErrorKind::NoData)), Ok(1_501)]),
        &unsupported,
    );
    assert!(matches!(mean, Ok(value) if value == number(1_250.5)));
    assert!(matches!(
        average_fan_reading(&fans(Vec::new()), &unsupported),
        Err(FieldError::Nvml(failure)) if failure.kind == NvmlErrorKind::NotSupported
    ));
    assert!(matches!(
        average_fan_percentage(&fans(vec![Ok(150)]), &unsupported),
        Err(FieldError::InvalidValue(_))
    ));
    assert!(matches!(
        average_fan_percentage(&fans(vec![Ok(40), Ok(60)]), &unsupported),
        Ok(value) if value == number(50.0)
    ));
}

#[test]
fn processes_of_both_kinds_are_joined() {
    let query = |list: Vec<(u32, Option<u64>)>| ProcessQuery {
        count: Ok(list.len() as u32),
        list: Ok(list
            .into_iter()
            .map(|(pid, used_bytes)| ProcessReading { pid, used_bytes })
            .collect()),
    };
    let unsupported = failure(NvmlErrorKind::NotSupported);
    let processes = collect_processes(
        &query(vec![(10, Some(100)), (20, None)]),
        &query(vec![(10, Some(70)), (30, Some(5))]),
        &unsupported,
    )
    .unwrap();
    assert_eq!(processes.len(), 3);
    assert_eq!(processes.get(&10), Some(&Some(100)));
    assert_eq!(processes.get(&20), Some(&None));
    let refused = ProcessQuery {
        count: Err(failure(NvmlErrorKind::NoPermission)),
        list: Err(failure(NvmlErrorKind::NoPermission)),
    };
    let refused_too = ProcessQuery {
        count: Err(failure(NvmlErrorKind::NoPermission)),
        list: Err(failure(NvmlErrorKind::NoPermission)),
    };
    assert!(collect_processes(&refused, &refused_too, &unsupported).is_err());
}

fn probes() -> NvmlProbes {
    NvmlProbes {
        utilization: true,
        encoder: true,
        decoder: false,
        temperature: true,
        power: true,
        limit: false,
        energy: true,
        graphics_clock: true,
        sm_clock: false,
        memory_clock: false,
        video_clock: false,
        fan_percent: fans(vec![Ok(30)]),
        fan_rpm: fans(Vec::new()),
        compute_processes: false,
        graphics_processes: true,
        unsupported: failure(NvmlErrorKind::NotSupported),
    }
}

fn facts() -> NvmlDeviceFacts {
    NvmlDeviceFacts {
        uuid: Some("GPU-1234".into()),
        pci: Some(NvmlPci {
            domain: 0,
            bus: 1,
            device: 0,
            bus_id: "00000000:01:00.0".into(),
            combined: 0x2684_10de,
            subsystem: Some(0x163a_1043),
        }),
        name: Some("NVIDIA GeForce RTX 4090".into()),
        memory_total: Some(24 << 30),
        architecture: Some(DeviceArchitecture::Ada),
        vbios: Some("95.02".into()),
        probes: probes(),
        info: StaticFacts {
            cuda: Some((8, 9)),
            sm_count: Some(128),
            ecc_enabled: Ok(false),
            mig_mode: Err(NvmlErrorKind::NotSupported),
            bar1_total: Some(1 << 28),
            compute_mode: Some(ComputeMode::Shared),
        },
    }
}

#[test]
fn devices_become_observations_and_records() {
    let mut provider = NvmlProvider::loaded(Some("12.5".into()), Some("555.1".into()), None);
    assert!(provider.is_usable());
    assert!(provider.accepts_count(3));
    let mut nameless = facts();
    nameless.uuid = None;
    nameless.name = None;
    nameless.memory_total = None;
    nameless.pci.as_mut().unwrap().bus = 2;
    let observations = provider.install(
        &vec![Ok(facts()), Err("no permission".into()), Ok(nameless)],
        true,
    );
    assert_eq!(observations.len(), 2);
    assert_eq!(observations[0].provider_device_id, "GPU-1234");
    assert_eq!(observations[0].vendor, GpuVendor::Nvidia);
    assert_eq!(observations[0].kind, GpuKind::Discrete);
    assert_eq!(observations[0].architecture, Some("Ada Lovelace".to_string()));
    assert_eq!(observations[0].driver_version, Some("555.1".to_string()));
    assert_eq!(observations[0].memory.topology, MemoryTopology::Dedicated);
    assert!(observations[0].capabilities.supports(MetricKey::FanPercent));
    assert!(!observations[0].capabilities.supports(MetricKey::FanRpm));
    assert!(observations[0].capabilities.supports(MetricKey::Processes));
    assert!(!observations[0]
        .capabilities
        .supports(MetricKey::UtilizationDecoder));
    assert!(observations[0]
        .capabilities
        .vendor_extensions
        .contains(&"nvidia.nvml".to_string()));
    assert!(matches!(
        observations[0].vendor_info.get(&"nvmlIndex".to_string()),
        Some(Json::Number(JsonNumber::Unsigned(0)))
    ));
    assert_eq!(observations[1].provider_device_id, "pci:0000:02:00.0");
    assert_eq!(observations[1].name, "NVIDIA GPU 2");
    assert_eq!(observations[1].enumeration_ordinal, Some(2));
    let diagnostic = provider.diagnostic();
    assert!(diagnostic.loaded);
    assert_eq!(diagnostic.version, Some("12.5".to_string()));
    assert_eq!(diagnostic.devices_matched, 2);
    assert_eq!(
        diagnostic.message,
        Some("NVML skipped 1 inaccessible device(s): index 1: no permission".to_string())
    );
}

#[test]
fn devices_are_found_again_by_their_strongest_name() {
    let (provider, gpu) = installed();
    match provider.record_for(&gpu).unwrap().handle() {
        DeviceHandle::Uuid(uuid) => assert_eq!(uuid, "GPU-1234"),
        other => panic!("unexpected {other:?}"),
    }
    assert!(provider
        .capabilities(&gpu)
        .supports(MetricKey::UtilizationOverall));
}

#[test]
fn unreasonable_counts_are_refused() {
    let mut provider = NvmlProvider::loaded(None, None, Some("loaded".into()));
    assert!(!provider.accepts_count(257));
    assert_eq!(
        provider.diagnostic().message,
        Some(
            "loaded; NVML reported an unreasonable device count (257); the safety limit is 256"
                .to_string()
        )
    );
    provider.enumeration_failed("timeout");
    assert_eq!(
        provider.diagnostic().message,
        Some("loaded; NVML device enumeration failed: timeout".to_string())
    );
}

#[test]
fn a_closed_provider_says_so() {
    let (mut provider, gpu) = installed();
    assert!(provider.shutdown());
    assert!(!provider.shutdown());
    let diagnostic = provider.diagnostic();
    assert_eq!(
        diagnostic.reason,
        Some(UnavailableReason::TemporarilyUnavailable)
    );
    assert_eq!(
        diagnostic.message,
        Some("NVML provider is shut down".to_string())
    );
    assert!(provider.capabilities(&gpu).is_empty());
    assert!(provider.install(&vec![Ok(facts())], false).is_empty());
    provider.shutdown_failed("busy");
    assert_eq!(
        provider.diagnostic().message,
        Some("NVML shutdown reported an error: busy".to_string())
    );
}

fn installed() -> (NvmlProvider, CanonicalGpu) {
    let mut provider = NvmlProvider::loaded(None, None, None);
    let gpu = correlate(provider.install(&vec![Ok(facts())], false)).remove(0);
    (provider, gpu)
}

fn readings() -> NvmlReadings {
    NvmlReadings {
        utilization: Some(Ok(UtilizationReading {
            gpu: 55,
            memory: 101,
        })),
        encoder: Some(Ok(CodecReading {
            utilization: 0,
            sampling_period_us: 167_001,
        })),
        decoder: None,
        memory_used: Some(Ok(1 << 30)),
        temperature: Some(Err(failure(NvmlErrorKind::GpuLost))),
        power_milliwatts: Some(Ok(125_500)),
        limit_milliwatts: None,
        energy_millijoules: Some(Ok(2_500)),
        graphics_clock: Some(Ok(2_520)),
        sm_clock: None,
        memory_clock: None,
        video_clock: None,
        fan_percent: Some(fans(vec![Ok(30)])),
        fan_rpm: None,
        compute_processes: None,
        graphics_processes: None,
        process_names: let_smi_core::sorted_map::SortedMap::new(),
        unsupported: failure(NvmlErrorKind::NotSupported),
    }
}

#[test]
fn readings_become_values_or_reasons() {
    let (provider, gpu) = installed();
    let sample = provider.answer(&gpu, &SampleRequest::default(), &Ok(readings()), 4);
    let value = |key: MetricKey| {
        sample
            .metrics
            .iter()
            .find(|metric| metric.metric == key)
            .map(|metric| match &metric.value {
                MetricValue::Number(value) => f64::from_bits(value.bits),
                MetricValue::Integer(value) => *value as f64,
                other => panic!("unexpected {other:?}"),
            })
    };
    assert_eq!(value(MetricKey::UtilizationOverall), Some(55.0));
    assert_eq!(value(MetricKey::UtilizationEncoder), Some(0.0));
    assert_eq!(value(MetricKey::PowerDrawWatts), Some(125.5));
    assert_eq!(value(MetricKey::PowerEnergyJoules), Some(2.5));
    assert_eq!(value(MetricKey::MemoryDedicatedUsedBytes), Some(1073741824.0));
    assert_eq!(value(MetricKey::ClockGraphicsMhz), Some(2520.0));
    let reason = |key: MetricKey| {
        sample
            .unavailable
            .iter()
            .find(|account| account.metric == key)
            .map(|account| account.reason)
    };
    assert_eq!(
        reason(MetricKey::UtilizationMemoryController),
        Some(UnavailableReason::ProviderError)
    );
    assert_eq!(
        reason(MetricKey::TemperatureCoreCelsius),
        Some(UnavailableReason::DeviceLost)
    );
    assert_eq!(reason(MetricKey::UtilizationDecoder), None);
}

fn no_processes() -> ProcessQuery {
    ProcessQuery {
        count: Ok(0),
        list: Ok(Vec::new()),
    }
}

#[test]
fn no_processes_is_an_answer_and_a_failure_is_none() {
    let (provider, gpu) = installed();
    let request = SampleRequest {
        include_processes: true,
        ..SampleRequest::default()
    };
    let mut empty = readings();
    empty.compute_processes = Some(no_processes());
    empty.graphics_processes = Some(no_processes());
    let sample = provider.answer(&gpu, &request, &Ok(empty), 4);
    assert!(matches!(sample.processes, Some(list) if list.is_empty()));
    let failed = || {
        Some(ProcessQuery {
            count: Err(failure(NvmlErrorKind::NoPermission)),
            list: Ok(Vec::new()),
        })
    };
    let mut refused = readings();
    refused.compute_processes = failed();
    refused.graphics_processes = failed();
    let sample = provider.answer(&gpu, &request, &Ok(refused), 4);
    assert!(sample.processes.is_none());
    assert!(sample.unavailable.iter().any(|account| {
        account.metric == MetricKey::Processes
            && account.reason == UnavailableReason::PermissionDenied
    }));
}

#[test]
fn a_lost_device_loses_every_metric() {
    let (provider, gpu) = installed();
    let sample = provider.answer(
        &gpu,
        &SampleRequest::default(),
        &Err(failure(NvmlErrorKind::GpuLost)),
        4,
    );
    assert!(sample.metrics.is_empty());
    assert!(sample.unavailable.len() >= 8);
    assert!(sample.unavailable.iter().all(|account| {
        account.reason == UnavailableReason::DeviceLost
            && account.message
                == Some("NVML could not reacquire the device: query failed".to_string())
    }));
}

#[test]
fn vendor_data_follows_the_device() {
    let (provider, gpu) = installed();
    let facts = || DynamicFacts {
        performance_state: Some(2),
        throttle: None,
        bar1_total: None,
        bar1_used: None,
        pcie_generation: Some(4),
        pcie_width: Some(16),
        encoder_sessions: Some(vec![EncoderSession {
            pid: 9,
            codec: EncoderType::Hevc,
            width: 1920,
            height: 1080,
            average_fps: 60,
        }]),
        shutdown_celsius: Some(95),
        slowdown_celsius: None,
        memory_max_celsius: None,
        gpu_max_celsius: None,
    };
    assert!(matches!(
        provider.vendor_info(&gpu, &Some(facts()), 3),
        Json::Object(fields) if !fields.is_empty()
    ));
    assert!(matches!(provider.vendor_info(&gpu, &None, 3), Json::Null));
    assert!(dynamic_vendor_info(&facts(), 3).len() > 0);
}

#[test]
fn generations_and_flags_have_names() {
    assert_eq!(
        architecture_name(DeviceArchitecture::Blackwell),
        Some("Blackwell")
    );
    assert_eq!(architecture_name(DeviceArchitecture::Unknown), None);
    let flags = ThrottleFlags {
        gpu_idle: true,
        applications_clocks_setting: false,
        software_power_cap: true,
        hardware_slowdown: false,
        sync_boost: false,
        software_thermal_slowdown: false,
        hardware_thermal_slowdown: false,
        hardware_power_brake_slowdown: false,
        display_clock_setting: true,
    };
    assert_eq!(
        throttle_reason_names(&flags),
        vec!["gpu-idle", "software-power-cap", "display-clock-setting"]
    );
}

#[test]
fn only_sensible_counts_are_read() {
    assert_eq!(fan_reads(&Ok(2)), 2);
    assert_eq!(fan_reads(&Ok(64)), 64);
    assert_eq!(fan_reads(&Ok(65)), 0);
    assert_eq!(fan_reads(&Err(failure(NvmlErrorKind::NoData))), 1);
    assert!(reads_list(&Ok(16_384)));
    assert!(!reads_list(&Ok(16_385)));
    assert!(!reads_list(&Err(failure(NvmlErrorKind::NoData))));
}

#[test]
fn queries_are_made_for_wanted_metrics() {
    let offered = CapabilitySet::new(vec![
        MetricKey::UtilizationMemoryController,
        MetricKey::FanRpm,
        MetricKey::PowerDrawWatts,
        MetricKey::Processes,
    ]);
    let queries = plan_queries(&offered, &SampleRequest::default());
    assert!(queries.utilization && queries.fan_rpm && queries.power);
    assert!(!queries.encoder && !queries.fan_percent && !queries.temperature);
    assert!(!queries.processes);
    let mut asked = SortedSet::new();
    asked.insert(MetricKey::FanRpm);
    let request = SampleRequest {
        metrics: Some(asked),
        include_processes: true,
        ..SampleRequest::default()
    };
    let queries = plan_queries(&offered, &request);
    assert!(queries.fan_rpm && queries.processes);
    assert!(!queries.utilization && !queries.power);
}

#[test]
fn wanted_metrics_are_reported_once() {
    let (provider, gpu) = installed();
    let sample = provider.answer(&gpu, &SampleRequest::default(), &Ok(readings()), 4);
    for metric in &sample.metrics {
        let key = metric.metric;
        assert_eq!(
            sample.metrics.iter().filter(|other| other.metric == key).count(),
            1
        );
        assert!(sample.unavailable.iter().all(|other| other.metric != key));
    }
}
