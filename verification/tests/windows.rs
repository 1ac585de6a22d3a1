use let_smi_core::binary64::Binary64;
use let_smi_core::correlation::correlate;
use let_smi_core::monitor::MonitorOptions;
use let_smi_core::providers::nvml::NvmlErrorKind;
use let_smi_core::providers::windows::dxgi::{
    canonical_luid, hybrid_role, utf16_name, AdapterDescription, AdapterListing, DxgiProvider,
    HybridRole, KernelFacts,
};
use let_smi_core::providers::windows::nvml_loader::{
    classify_nvml_error, classify_windows_load_error, is_trusted_absolute_root, load_failure,
    loaded_message, same_windows_path, trusted_candidates, LoadAttempts, TrustedLocation,
};
use let_smi_core::providers::windows::pdh::{
    aggregate_engines, engine_metrics, parse_instance, EngineKey, EngineLoad,
};
use let_smi_core::providers::windows::pdh_array::{
    array_is_read, parse_items, plan_buffer, CounterItem, MAX_ARRAY_BYTES, MAX_ARRAY_ITEMS,
    MORE_DATA,
};
use let_smi_core::providers::windows::pdh_query::{PdhPlan, PdhProvider};
use let_smi_core::providers::windows::runtime_probe::{
    safe_system32_library_name, WindowsRuntimeProbe,
};
use let_smi_core::providers::{default_providers, Platform, ProviderPlan};
use let_smi_core::{
    CanonicalGpu, DeviceObservation, GpuError, GpuKind, GpuVendor, InventoryProvider,
    MemoryTopology, MetricKey, MetricValue, TelemetryProvider, UnavailableReason, WindowsIdentity,
};

fn number(value: f64) -> Binary64 {
    Binary64::from_bits(value.to_bits())
}

#[test]
fn formats_luids_without_signed_decimal_components() {
    assert_eq!(canonical_luid(-1, 0x1234), "ffffffff:00001234");
}

#[test]
fn stops_windows_names_at_nul() {
    assert_eq!(utf16_name(&vec![65, 77, 68, 0, 88]), "AMD");
}

#[test]
fn names_are_decoded_and_never_empty() {
    assert_eq!(utf16_name(&vec![32, 32, 0]), "Unknown GPU");
    assert_eq!(utf16_name(&Vec::new()), "Unknown GPU");
    assert_eq!(utf16_name(&vec![0xd83d, 0xde00, 65]), "\u{1f600}A");
    assert_eq!(utf16_name(&vec![0xd83d, 65]), "\u{fffd}A");
    assert_eq!(utf16_name(&vec![0xde00, 65]), "\u{fffd}A");
    assert_eq!(utf16_name(&vec![0x00e9, 65]), "\u{e9}A");
}

fn adapter(name: &str, vendor: u32, luid: u32) -> AdapterDescription {
    AdapterDescription {
        name: name.encode_utf16().collect(),
        vendor_id: vendor,
        device_id: 0x2684,
        subsystem_id: 0x163a_1043,
        flags: 0,
        dedicated_bytes: 24 << 30,
        shared_bytes: 16 << 30,
        luid_high: 0,
        luid_low: luid,
        kernel: None,
    }
}

#[test]
fn adapters_become_observations() {
    let mut provider = DxgiProvider::new(false);
    let mut software = adapter("Microsoft Basic Render Driver", 0x1414, 9);
    software.flags = 2;
    let mut placed = adapter("Intel(R) UHD Graphics 770", 0x8086, 2);
    placed.dedicated_bytes = 0;
    placed.subsystem_id = 0;
    placed.kernel = Some(KernelFacts {
        bus: 0,
        device: 2,
        function: 0,
        role: HybridRole::Integrated,
    });
    let mut path = adapter("Intel(R) UHD Graphics 770", 0x8086, 3);
    path.kernel = Some(KernelFacts {
        bus: u32::MAX,
        device: u32::MAX,
        function: u32::MAX,
        role: HybridRole::Integrated,
    });
    let observations = provider.observe(&AdapterListing {
        adapters: vec![
            Ok(adapter("NVIDIA GeForce RTX 4090", 0x10de, 1)),
            Ok(software),
            Err("lost".into()),
            Ok(placed),
            Ok(path),
        ],
        broken: None,
    });
    assert_eq!(observations.len(), 2);
    assert_eq!(observations[0].provider_device_id, "00000000:00000001");
    assert_eq!(observations[0].vendor, GpuVendor::Nvidia);
    assert_eq!(observations[0].kind, GpuKind::Unknown);
    assert_eq!(observations[0].memory.topology, MemoryTopology::Mixed);
    assert_eq!(observations[0].identity_priority, 80);
    let pci = observations[0].pci.as_ref().unwrap();
    assert_eq!(pci.subsystem_vendor_id, Some(0x1043));
    assert_eq!(pci.subsystem_device_id, Some(0x163a));
    assert_eq!(pci.address, None);
    assert_eq!(observations[1].enumeration_ordinal, Some(1));
    assert_eq!(observations[1].kind, GpuKind::Integrated);
    assert_eq!(observations[1].memory.topology, MemoryTopology::Shared);
    let pci = observations[1].pci.as_ref().unwrap();
    assert_eq!(pci.address, Some("0000:00:02.0".to_string()));
    assert_eq!(pci.subsystem_vendor_id, None);
    let diagnostic = provider.diagnostic();
    assert!(!diagnostic.loaded);
    assert_eq!(
        diagnostic.message,
        Some("adapter 2 description: lost".to_string())
    );
}

#[test]
fn the_type_of_an_adapter_names_its_part() {
    assert_eq!(hybrid_role(0x0f), HybridRole::Alone);
    assert_eq!(hybrid_role(0x13), HybridRole::Discrete);
    assert_eq!(hybrid_role(0x21), HybridRole::Integrated);
}

#[test]
fn software_adapters_are_virtual_where_wanted() {
    let mut provider = DxgiProvider::new(true);
    let mut software = adapter("Microsoft Basic Render Driver", 0x1414, 9);
    software.flags = 2;
    let observations = provider.observe(&AdapterListing {
        adapters: vec![Ok(software)],
        broken: Some("broken".into()),
    });
    assert_eq!(observations[0].kind, GpuKind::Virtual);
    assert_eq!(
        provider.diagnostic().message,
        Some("adapter 1: broken".to_string())
    );
    assert!(matches!(
        provider.factory_failed("no factory"),
        GpuError::Provider {
            reason: UnavailableReason::ProviderError,
            ..
        }
    ));
    assert_eq!(
        provider.diagnostic().message,
        Some("CreateDXGIFactory1 failed: no factory".to_string())
    );
}

#[test]
fn only_os_derived_absolute_nvml_paths_are_candidates() {
    let candidates = trusted_candidates(
        &Some(r"C:\Windows\System32".to_string()),
        &Some(r"C:\Program Files".to_string()),
    );
    let paths: Vec<String> = candidates
        .into_iter()
        .map(|candidate| candidate.path)
        .collect();
    assert_eq!(
        paths,
        vec![
            r"C:\Windows\System32\nvml.dll".to_string(),
            r"C:\Program Files\NVIDIA Corporation\NVSMI\nvml.dll".to_string(),
        ]
    );
    assert!(!paths.contains(&r"C:\malicious-cwd\nvml.dll".to_string()));
    assert!(!paths.contains(&r"C:\malicious-path\nvml.dll".to_string()));
}

#[test]
fn relative_roots_and_bare_names_are_rejected() {
    assert!(trusted_candidates(
        &Some(".".to_string()),
        &Some(r"untrusted\program-files".to_string()),
    )
    .is_empty());
    assert!(trusted_candidates(&Some(r"C:\Windows\System32\..\Temp".to_string()), &None).is_empty());
}

#[test]
fn roots_are_trusted_by_their_form() {
    assert!(is_trusted_absolute_root(r"C:\Windows"));
    assert!(is_trusted_absolute_root("C:/Windows"));
    assert!(is_trusted_absolute_root(r"\\server\share\Windows"));
    assert!(is_trusted_absolute_root(r"\\?\C:\Windows"));
    assert!(!is_trusted_absolute_root(r"\\?\C:\.\Windows"));
    assert!(!is_trusted_absolute_root(r"C:Windows"));
    assert!(!is_trusted_absolute_root(r"\Windows"));
    assert!(!is_trusted_absolute_root(r"\\server"));
    assert!(!is_trusted_absolute_root(""));
    assert!(is_trusted_absolute_root(r"\\.\pipe"));
    assert!(!is_trusted_absolute_root(r"C:/a/../b"));
}

#[test]
fn verbatim_roots_are_parted_by_backslashes_alone() {
    assert!(is_trusted_absolute_root(r"\\?\C:\a/../b"));
    assert!(is_trusted_absolute_root(r"\\?\C:/../b"));
    assert!(!is_trusted_absolute_root(r"\\?\C:\a\..\b"));
    assert!(is_trusted_absolute_root(r"\\?\UNC\..\..\b"));
    assert!(!is_trusted_absolute_root(r"\\?\UNC\server\share\.."));
    assert!(is_trusted_absolute_root(r"\\?\volume"));
    let path = |root: &str| {
        trusted_candidates(&Some(root.to_string()), &None)
            .remove(0)
            .path
    };
    assert_eq!(path(r"\\?\C:\a/"), r"\\?\C:\a/\nvml.dll");
    assert_eq!(path(r"\\?\C:\a\\b\"), r"\\?\C:\a\b\nvml.dll");
    assert_eq!(path("C:/a/"), "C:/a/nvml.dll");
}

#[test]
fn missing_nvml_initialization_is_an_optional_driver_library_failure() {
    assert!(trusted_candidates(&None, &None).is_empty());
    let failure = load_failure(Vec::new(), Vec::new(), None);
    assert_eq!(failure.reason, UnavailableReason::DriverLibraryMissing);
    assert!(failure.message.contains("NVML was not found"));
    assert_eq!(
        classify_nvml_error(NvmlErrorKind::LibraryNotFound),
        UnavailableReason::DriverLibraryMissing
    );
}

#[test]
fn windows_loader_errors_are_classified_without_panicking() {
    assert_eq!(
        classify_windows_load_error(0x8007_0000 + 126),
        UnavailableReason::DriverLibraryMissing
    );
    assert_eq!(
        classify_windows_load_error(0x8007_0000 + 5),
        UnavailableReason::PermissionDenied
    );
    assert_eq!(
        classify_windows_load_error(0x8007_0000 + 87),
        UnavailableReason::ProviderError
    );
}

#[test]
fn mapped_module_path_must_match_the_trusted_candidate() {
    assert!(same_windows_path(
        r"C:\Windows\System32\nvml.dll",
        r"\\?\c:\WINDOWS\system32\nvml.dll"
    ));
    assert!(!same_windows_path(
        r"C:\Windows\System32\nvml.dll",
        r"C:\malicious-path\nvml.dll"
    ));
    assert!(same_windows_path("C:/a", r"C:\A"));
}

#[test]
fn a_missing_permission_is_not_forgotten() {
    let mut attempts = LoadAttempts::new();
    attempts.no_directory("no directory".into());
    attempts.not_loaded(TrustedLocation::SystemDirectory, 0x8007_0005, "denied");
    attempts.not_started(TrustedLocation::LegacyNvsmi, NvmlErrorKind::Timeout, "slow");
    let failure = attempts.give_up();
    assert_eq!(failure.reason, UnavailableReason::PermissionDenied);
    assert_eq!(
        failure.message,
        "could not initialize NVML from a trusted Windows location: no directory; secure NVML load \
         from the Windows system directory failed: denied; NVML initialization from the NVIDIA \
         NVSMI directory under Program Files failed: slow"
    );
    assert_eq!(
        loaded_message(TrustedLocation::SystemDirectory),
        "NVML loaded securely from the Windows system directory"
    );
}

#[test]
fn parses_pdh_gpu_engine_instances() {
    let value =
        parse_instance("pid_42_luid_0x00000001_0x0000abcd_phys_0_eng_3_engtype_3D").unwrap();
    assert_eq!(value.luid, "00000001:0000abcd");
    assert_eq!(value.engine, "3");
    assert_eq!(value.engine_type, "3d");
    assert!(parse_instance("pid_42").is_none());
    assert!(parse_instance("luid_0xg_0x1_phys_0_eng_0_engtype_3D").is_none());
}

fn item(name: &str, value: f64) -> CounterItem {
    CounterItem {
        name: name.into(),
        value: number(value),
    }
}

#[test]
fn sums_processes_per_engine_then_caps_rounding_noise() {
    let items = vec![
        item("pid_1_luid_0x0_0x1_phys_0_eng_0_engtype_3D", 60.0),
        item("pid_2_luid_0x0_0x1_phys_0_eng_0_engtype_3D", 41.0),
    ];
    let values = aggregate_engines(&items, "00000000:00000001");
    assert_eq!(values.first().map(|load| load.load), Some(number(100.0)));
    assert_eq!(values.len(), 1);
}

fn engine_items() -> Vec<CounterItem> {
    vec![
        item("pid_1_luid_0x0_0x1_phys_0_eng_0_engtype_3D", 10.25),
        item("pid_2_luid_0x0_0x1_phys_0_eng_0_engtype_3D", 20.5),
        item("pid_1_luid_0x0_0x1_phys_0_eng_1_engtype_Copy", 0.1),
        item("pid_2_luid_0x0_0x1_phys_0_eng_1_engtype_Copy", 0.2),
        item("pid_1_luid_0x0_0x2_phys_0_eng_0_engtype_VideoDecode", 90.0),
        item("pid_1_luid_0x0_0x1_phys_0_eng_5_engtype_VideoDecode", -0.0),
        item("nonsense", 50.0),
    ]
}

fn value_of(value: &MetricValue) -> f64 {
    match value {
        MetricValue::Number(value) => f64::from_bits(value.bits),
        other => panic!("expected a number, got {other:?}"),
    }
}

#[test]
fn the_busiest_engine_is_the_overall_load() {
    let loads = aggregate_engines(&engine_items(), "00000000:00000001");
    let sample = engine_metrics(&"gpu".to_string(), &loads, Some(1_000), 5);
    let values: Vec<(MetricKey, f64)> = sample
        .metrics
        .iter()
        .map(|metric| (metric.metric, value_of(&metric.value)))
        .collect();
    assert_eq!(
        values,
        vec![
            (MetricKey::UtilizationOverall, 30.75),
            (MetricKey::UtilizationGraphics, 30.75),
            (MetricKey::UtilizationCopy, 0.1 + 0.2),
            (MetricKey::UtilizationDecoder, 0.0),
        ]
    );
    assert!(sample
        .metrics
        .iter()
        .all(|metric| metric.interval_ms == Some(1_000) && metric.sampled_at == 5));
}

#[test]
fn the_overall_load_is_at_least_zero() {
    let overall = |loads: &[f64]| {
        let loads: Vec<EngineLoad> = loads
            .iter()
            .map(|load| EngineLoad {
                engine: EngineKey {
                    physical: "0".into(),
                    engine: "0".into(),
                    engine_type: "3d".into(),
                },
                load: number(*load),
            })
            .collect();
        let sample = engine_metrics(&"gpu".to_string(), &loads, None, 5);
        let values: Vec<f64> = sample
            .metrics
            .iter()
            .map(|metric| value_of(&metric.value))
            .collect();
        (values[0], values.get(1).copied())
    };
    assert_eq!(overall(&[]), (0.0, None));
    assert_eq!(overall(&[-1.0]), (0.0, Some(-1.0)));
    assert_eq!(overall(&[-3.0, -2.0]), (0.0, Some(-2.0)));
    assert_eq!(overall(&[f64::NAN, 4.0, f64::NAN]), (4.0, Some(4.0)));
    assert_eq!(overall(&[4.0, f64::INFINITY]), (f64::INFINITY, Some(f64::INFINITY)));
}

const BASE: u64 = 0x7f00_0000_1000;

/// An array of items, laid out at the base address.
fn array(items: &[(&str, u32, f64)]) -> Vec<u8> {
    let mut bytes = vec![0_u8; items.len() * 24];
    for (index, (name, status, value)) in items.iter().enumerate() {
        let at = bytes.len() as u64;
        bytes[index * 24..index * 24 + 8].copy_from_slice(&(BASE + at).to_le_bytes());
        bytes[index * 24 + 8..index * 24 + 12].copy_from_slice(&status.to_le_bytes());
        bytes[index * 24 + 16..index * 24 + 24].copy_from_slice(&value.to_bits().to_le_bytes());
        for unit in name.encode_utf16().chain([0]) {
            bytes.extend_from_slice(&unit.to_le_bytes());
        }
    }
    bytes
}

#[test]
fn counter_arrays_are_read_by_their_layout() {
    let bytes = array(&[
        ("first", 0, 12.5),
        ("invalid", 0xc000_0bc6, 1.0),
        ("new", 1, 0.25),
        ("large", 0, 101.0),
        ("nan", 0, f64::NAN),
    ]);
    let items = parse_items(&bytes, bytes.len() as u32, BASE, 5).unwrap();
    let read: Vec<(String, f64)> = items
        .iter()
        .map(|item| (item.name.clone(), f64::from_bits(item.value.bits)))
        .collect();
    assert_eq!(
        read,
        vec![("first".to_string(), 12.5), ("new".to_string(), 0.25)]
    );
}

fn reason_of(error: GpuError) -> UnavailableReason {
    match error {
        GpuError::Provider { reason, .. } => reason,
        other => panic!("expected a provider error, got {other:?}"),
    }
}

#[test]
fn malformed_counter_arrays_are_provider_errors() {
    let bytes = array(&[("name", 0, 1.0)]);
    let used = bytes.len() as u32;
    assert_eq!(
        reason_of(parse_items(&bytes, used - 2, BASE, 1).unwrap_err()),
        UnavailableReason::ProviderError
    );
    assert!(parse_items(&bytes, used + 1, BASE, 1).is_err());
    assert!(parse_items(&bytes, used, BASE + 64, 1).is_err());
    assert!(parse_items(&bytes, used, BASE - 16, 1).is_err());
    assert_eq!(parse_items(&bytes, used, BASE - 8, 1).unwrap()[0].name, "");
    assert!(parse_items(&bytes, used, BASE - 1, 1).is_err());
    assert!(parse_items(&bytes, used, BASE, 2).is_err());
    assert!(parse_items(&bytes, used, BASE, MAX_ARRAY_ITEMS + 1).is_err());
    let mut inside = bytes.clone();
    inside[..8].copy_from_slice(&(BASE + 8).to_le_bytes());
    assert!(parse_items(&inside, used, BASE, 1).is_err());
    assert_eq!(parse_items(&bytes, used, BASE, 1).unwrap()[0].name, "name");
}

#[test]
fn counter_buffers_are_bounded() {
    assert_eq!(plan_buffer(MORE_DATA, 25, 1).unwrap(), 4);
    assert_eq!(plan_buffer(0, 0, 0).unwrap(), 0);
    assert_eq!(
        reason_of(plan_buffer(0xc000_0bb8, 8, 1).unwrap_err()),
        UnavailableReason::TemporarilyUnavailable
    );
    assert_eq!(
        reason_of(plan_buffer(MORE_DATA, MAX_ARRAY_BYTES + 1, 1).unwrap_err()),
        UnavailableReason::ProviderError
    );
    assert_eq!(
        reason_of(plan_buffer(MORE_DATA, 8, MAX_ARRAY_ITEMS + 1).unwrap_err()),
        UnavailableReason::ProviderError
    );
    assert!(array_is_read(0, 0).unwrap());
    assert!(!array_is_read(MORE_DATA, 2).unwrap());
    match array_is_read(MORE_DATA, 3).unwrap_err() {
        GpuError::Provider { message, .. } => {
            assert_eq!(message, "PDH counter read failed with 0x800007d2")
        }
        other => panic!("unexpected {other:?}"),
    }
}

fn gpu(luid: &str) -> CanonicalGpu {
    let mut observation =
        DeviceObservation::new("windows-dxgi", luid, GpuVendor::Intel, "Intel UHD 770");
    observation.windows = Some(WindowsIdentity {
        luid: Some(luid.to_string()),
        pnp_device_id: None,
    });
    correlate(vec![observation]).remove(0)
}

const MS: u64 = 1_000_000;

#[test]
fn one_collection_serves_a_round() {
    let first = gpu("00000000:00000001");
    let second = gpu("00000000:00000002");
    let mut provider = PdhProvider::ready();
    assert_eq!(provider.plan(&first, 0), PdhPlan::Collect);
    assert!(!provider.collected(0, 0).unwrap());
    let sample = provider.answer(&first, 1);
    assert_eq!(sample.unavailable.len(), 6);
    assert!(sample
        .unavailable
        .iter()
        .all(|account| account.reason == UnavailableReason::FirstSample));
    assert_eq!(provider.plan(&second, 10 * MS), PdhPlan::Reuse);
    assert_eq!(provider.answer(&second, 1).unavailable.len(), 6);
    assert_eq!(provider.plan(&second, 10 * MS + 1), PdhPlan::Collect);

    assert!(provider.collected(0, 1_000 * MS).unwrap());
    provider.items_read(engine_items());
    assert_eq!(provider.plan(&second, 1_005 * MS), PdhPlan::Reuse);
    let sample = provider.answer(&first, 9);
    assert_eq!(value_of(&sample.metrics[0].value), 30.75);
    assert_eq!(sample.metrics[0].interval_ms, Some(1_000));
    let sample = provider.answer(&second, 9);
    assert_eq!(value_of(&sample.metrics[0].value), 90.0);
    let absent = gpu("00000000:00000003");
    let sample = provider.answer(&absent, 9);
    assert!(sample.metrics.is_empty());
    assert_eq!(
        sample.unavailable[0].reason,
        UnavailableReason::TemporarilyUnavailable
    );
}

#[test]
fn failed_collections_change_nothing() {
    let mut provider = PdhProvider::ready();
    match provider.collected(0x8000_07d5, 5).unwrap_err() {
        GpuError::Provider { message, .. } => {
            assert_eq!(message, "PdhCollectQueryData failed with 0x800007d5")
        }
        other => panic!("unexpected {other:?}"),
    }
    assert_eq!(
        provider.plan(&gpu("00000000:00000001"), 6),
        PdhPlan::Collect
    );
}

#[test]
fn the_pdh_provider_reports_its_state() {
    let device = gpu("00000000:00000001");
    let mut provider = PdhProvider::ready();
    assert!(provider.diagnostic().loaded);
    assert!(provider
        .capabilities(&device)
        .supports(MetricKey::UtilizationDecoder));
    provider.shutdown();
    assert_eq!(
        provider.diagnostic().reason,
        Some(UnavailableReason::DeviceLost)
    );
    assert!(provider.capabilities(&device).is_empty());
    assert_eq!(provider.plan(&device, 0), PdhPlan::Nothing);
    assert_eq!(
        PdhProvider::unopened(0xc000_0bbd).diagnostic().message,
        Some("PdhOpenQueryW failed with 0xc0000bbd".to_string())
    );
    assert_eq!(
        PdhProvider::without_counters(0xc000_0bb8).diagnostic().message,
        Some("GPU Engine counters are unavailable (0xc0000bb8)".to_string())
    );
}

#[test]
fn a_detected_runtime_is_not_a_functional_provider() {
    let probe = WindowsRuntimeProbe {
        id: "fixture",
        reason: UnavailableReason::Unsupported,
        message: "detected but unimplemented".into(),
    };
    let diagnostic = probe.diagnostic();
    assert!(!diagnostic.loaded);
    assert_eq!(diagnostic.reason, Some(UnavailableReason::Unsupported));
    let fixture = correlate(vec![DeviceObservation::new(
        "fixture",
        "device",
        GpuVendor::Unknown,
        "GPU",
    )])
    .remove(0);
    assert!(probe.capabilities(&fixture).metrics().is_empty());
}

#[test]
fn system32_probe_rejects_qualified_or_malformed_names() {
    assert!(safe_system32_library_name("ze_loader.dll"));
    assert!(safe_system32_library_name("atiadlxx.dll"));
    assert!(!safe_system32_library_name(r"C:\untrusted\ze_loader.dll"));
    assert!(!safe_system32_library_name(r"..\ze_loader.dll"));
    assert!(!safe_system32_library_name("ze_loader"));
    assert!(!safe_system32_library_name("evil\0.dll"));
    assert!(!safe_system32_library_name(".dll"));
    assert!(!safe_system32_library_name("a..b.dll"));
    assert!(!safe_system32_library_name("\u{e9}.dll"));
}

#[test]
fn probes_say_what_they_found() {
    let found = WindowsRuntimeProbe::system32("level-zero", "ze_loader.dll", "found", &Ok(()));
    assert_eq!(found.reason, UnavailableReason::Unsupported);
    assert_eq!(found.message, "found");
    let missing = WindowsRuntimeProbe::system32(
        "level-zero",
        "ze_loader.dll",
        "found",
        &Err("not there".to_string()),
    );
    assert_eq!(missing.reason, UnavailableReason::DriverLibraryMissing);
    assert_eq!(missing.message, "ze_loader.dll is not installed: not there");
    let refused = WindowsRuntimeProbe::system32("level-zero", "../x.dll", "found", &Ok(()));
    assert_eq!(refused.reason, UnavailableReason::ProviderError);
}

#[test]
fn windows_has_its_providers_and_nvml() {
    let plans = default_providers(&MonitorOptions::default(), Platform::Windows);
    assert_eq!(plans.len(), 5);
    assert!(matches!(
        plans[0],
        ProviderPlan::Dxgi {
            include_software_adapters: false
        }
    ));
    assert!(matches!(
        plans[2],
        ProviderPlan::System32Probe { id: "amd-adlx", .. }
    ));
    assert!(matches!(plans[4], ProviderPlan::Nvml));
    assert!(default_providers(&MonitorOptions::default(), Platform::Other).is_empty());
    assert_eq!(
        default_providers(&MonitorOptions::default(), Platform::Linux).len(),
        2
    );
}
