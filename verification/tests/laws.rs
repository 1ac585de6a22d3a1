use let_smi_core::binary64::Binary64;
use let_smi_core::canonical::{best_fingerprint, device_id};
use let_smi_core::correlation::{correlate, normalize_pci_address};
use let_smi_core::json::{normalize_js_numbers, Json, JsonNumber};
use let_smi_core::merge::{merge_metrics, ProviderTable};
use let_smi_core::model::{now_millis, timestamp_of};
use let_smi_core::normalize::{normalize_identifier, normalize_name};
use let_smi_core::providers::macos::ioreport::{parse_delta, Channel, ChannelReading, StateReading};
use let_smi_core::providers::mock::MockProvider;
use let_smi_core::providers::nvml_inventory::NvmlProvider;
use let_smi_core::providers::windows::dxgi::canonical_luid;
use let_smi_core::providers::windows::pdh::parse_instance;
use let_smi_core::providers::windows::pdh_query::PdhProvider;
use let_smi_core::snapshot::unavailable_from_provider;
use let_smi_core::sorted_map::SortedMap;
use let_smi_core::{
    CapabilitySet, DeviceObservation, GpuVendor, InventoryProvider, Metric, MetricKey,
    MetricObservation, MetricQuality, MetricValue, PciIdentity, ProviderMetadata, ProviderSample,
    SampleRequest, TelemetryProvider, UnavailableReason,
};

fn number(value: f64) -> Binary64 {
    Binary64::from_bits(value.to_bits())
}

fn on_bus(provider: &str, device: &str, address: &str) -> DeviceObservation {
    let mut observation = DeviceObservation::new(provider, device, GpuVendor::Amd, "Radeon");
    observation.pci = Some(PciIdentity {
        address: Some(address.into()),
        vendor_id: 0x1002,
        device_id: 0x744c,
        subsystem_vendor_id: None,
        subsystem_device_id: None,
    });
    observation
}

#[test]
fn a_stable_name_is_the_head_of_a_digest() {
    let observations = vec![on_bus("linux-sysfs", "card0", "0000:03:00.0")];
    let fingerprint = best_fingerprint(&observations, &vec![0]);
    let digest = blake3::hash(fingerprint.as_bytes()).to_hex().to_string();
    let expected = format!("gpu_amd_{}", &digest[..20]);
    assert_eq!(device_id(GpuVendor::Amd, &digest), expected);
    assert_eq!(correlate(observations)[0].identity.id, expected);
}

#[test]
fn observations_merge_through_chains_of_keys() {
    let mut first = on_bus("a", "1", "0000:03:00.0");
    let mut second = DeviceObservation::new("b", "2", GpuVendor::Amd, "Radeon");
    second.uuid = Some("GPU-1".into());
    let mut third = on_bus("c", "3", "03:00.0");
    third.uuid = Some("gpu-1 ".into());
    first.name = "Other".into();
    let devices = correlate(vec![first, second, third]);
    assert_eq!(devices.len(), 1);
    assert_eq!(devices[0].providers, vec!["a", "b", "c"]);
}

#[test]
fn devices_do_not_depend_on_the_order_of_observations() {
    let list = || {
        vec![
            on_bus("linux-sysfs", "card0", "0000:03:00.0"),
            on_bus("nvml", "x", "0000:03:00.0"),
            on_bus("linux-sysfs", "card1", "0000:04:00.0"),
        ]
    };
    let mut turned = list();
    turned.rotate_left(2);
    let ids = |devices: Vec<let_smi_core::CanonicalGpu>| -> Vec<String> {
        devices.into_iter().map(|gpu| gpu.identity.id).collect()
    };
    assert_eq!(ids(correlate(list())), ids(correlate(turned)));
}

#[test]
fn normal_forms_are_their_own() {
    for text in [" 00:02.0 ", "0000:03:00.0", "GPU-\tAB", "", "a:b:c"] {
        let address = normalize_pci_address(text);
        assert_eq!(normalize_pci_address(&address), address);
        let identifier = normalize_identifier(text);
        assert_eq!(normalize_identifier(&identifier), identifier);
    }
    assert_eq!(normalize_pci_address(" 03:00.0"), "0000:03:00.0");
    assert_eq!(normalize_name("  NVIDIA   GeForce "), "nvidia geforce");
}

fn busy(source: &str, value: f64, quality: MetricQuality, sampled_at: u64) -> MetricObservation {
    MetricObservation {
        device_id: "gpu".into(),
        metric: MetricKey::UtilizationOverall,
        value: MetricValue::Number(number(value)),
        source: source.into(),
        quality,
        sampled_at,
        interval_ms: None,
        definition: None,
    }
}

#[test]
fn nvml_outranks_pdh() {
    let mut providers: ProviderTable = SortedMap::new();
    providers.insert("nvml".into(), NvmlProvider::metadata());
    providers.insert("windows-pdh".into(), PdhProvider::metadata());
    let merged = merge_metrics(
        vec![
            busy("windows-pdh", 90.0, MetricQuality::Direct, 40_000),
            busy("nvml", 10.0, MetricQuality::Estimated, 10_000),
        ],
        Vec::new(),
        &providers,
        40_000,
    );
    let selected = merged
        .selected
        .get(&MetricKey::UtilizationOverall)
        .unwrap();
    assert_eq!(selected.source, "nvml");
}

#[test]
fn counters_name_their_adapter() {
    for (high, low) in [(0, 1), (-1, 0x1234), (0x7fff_ffff, u32::MAX)] {
        let luid = canonical_luid(high, low);
        let (first, second) = luid.split_once(':').unwrap();
        let name = format!("pid_42_luid_0x{first}_0x{second}_phys_0_eng_3_engtype_Video Decode");
        let instance = parse_instance(&name.to_ascii_uppercase()).unwrap();
        assert_eq!(instance.luid, luid);
        assert_eq!(instance.physical, "0");
        assert_eq!(instance.engine, "3");
        assert_eq!(instance.engine_type, "video decode");
    }
}

#[test]
fn residency_is_a_percentage() {
    let channels = vec![Channel {
        group: "GPU Stats".into(),
        subgroup: "GPU Performance States".into(),
        name: "GPUPH".into(),
        unit: String::new(),
    }];
    for (active, idle) in [
        (i64::MAX, 0),
        (i64::MAX, 1),
        (1, i64::MAX),
        (3, 7),
        (9_007_199_254_740_993, 1),
        (0, 5),
    ] {
        let readings = vec![Ok(ChannelReading {
            states: vec![
                StateReading {
                    name: "P1".into(),
                    residency: active,
                },
                StateReading {
                    name: "IDLE".into(),
                    residency: idle,
                },
            ],
            value: 0,
        })];
        let sample = parse_delta(&channels, &readings, &"gpu".to_string(), 1, 1).unwrap();
        let total = active as i128 + idle as i128;
        let expected = active as f64 / total as f64 * 100.0;
        match sample.metrics[0].value {
            MetricValue::Number(value) => {
                assert_eq!(f64::from_bits(value.bits), expected);
                assert!(value.is_percent());
            }
            _ => panic!("expected a number"),
        }
    }
}

#[test]
fn javascript_numbers_are_their_own() {
    let once = normalize_js_numbers(&Json::Array(vec![
        Json::Number(JsonNumber::Unsigned(5_000_000_000)),
        Json::Number(JsonNumber::Unsigned(7)),
        Json::Text("x".into()),
        Json::Null,
        Json::Bool(true),
    ]));
    assert_eq!(
        format!("{:?}", normalize_js_numbers(&once)),
        format!("{once:?}")
    );
}

#[test]
fn clocks_before_the_epoch_count_as_zero() {
    assert_eq!(timestamp_of(None), 0);
    assert_eq!(timestamp_of(Some(5)), 5);
    assert_eq!(timestamp_of(Some(u128::MAX)), u64::MAX);
    assert!(now_millis() > 1_600_000_000_000);
}

#[test]
fn a_mock_provider_plays_its_samples() {
    let mut observation = DeviceObservation::new("mock", "zero", GpuVendor::Intel, "Mock GPU");
    observation.capabilities = CapabilitySet::new(vec![MetricKey::UtilizationOverall]);
    let gpu = correlate(vec![observation.duplicate()]).remove(0);
    let mut provider = MockProvider::new(
        ProviderMetadata::new("mock", 100, 100),
        vec![observation],
        vec![ProviderSample::default()],
    );
    assert_eq!(provider.enumerate().unwrap().len(), 1);
    assert_eq!(provider.sample_count(), 0);
    provider.sample(&gpu, &SampleRequest::default()).unwrap();
    provider.sample(&gpu, &SampleRequest::default()).unwrap();
    assert_eq!(provider.sample_count(), 2);
    assert!(!provider.was_shutdown());
    provider.shutdown();
    assert!(provider.was_shutdown());
}

#[test]
fn a_refused_metric_says_who_refused() {
    match unavailable_from_provider(
        UnavailableReason::PermissionDenied,
        "nvml".to_string(),
        "no access",
    ) {
        Metric::Unavailable(metric) => {
            assert_eq!(metric.reason, UnavailableReason::PermissionDenied);
            assert_eq!(metric.source, Some("nvml".to_string()));
            assert_eq!(metric.message, Some("no access".to_string()));
            assert!(!metric.available);
        }
        Metric::Available(_) => panic!("the metric is missing"),
    }
}

#[test]
fn vendors_are_known_by_their_numbers() {
    assert_eq!(GpuVendor::from_pci_vendor_id(0x10de), GpuVendor::Nvidia);
    assert_eq!(GpuVendor::from_pci_vendor_id(0x1002), GpuVendor::Amd);
    assert_eq!(GpuVendor::from_pci_vendor_id(0x8086), GpuVendor::Intel);
    assert_eq!(GpuVendor::from_pci_vendor_id(0x106b), GpuVendor::Apple);
    assert_eq!(GpuVendor::from_pci_vendor_id(1), GpuVendor::Unknown);
}

#[test]
fn capabilities_show_their_groups() {
    let mut set = CapabilitySet::new(vec![MetricKey::FanRpm]).with_extension("nvidia.nvml");
    set.insert(MetricKey::UtilizationCopy);
    let public = set.to_public();
    assert!(public.fan && public.utilization.copy && !public.power);
    assert_eq!(public.vendor_extensions, vec!["nvidia.nvml"]);
    assert_eq!(
        set.metrics(),
        vec![MetricKey::UtilizationCopy, MetricKey::FanRpm]
    );
    let mut other = CapabilitySet::new(vec![MetricKey::PowerDrawWatts]);
    other.extend(&set);
    assert!(other.supports(MetricKey::FanRpm) && other.supports(MetricKey::PowerDrawWatts));
    assert!(SampleRequest::default().wants(MetricKey::FanRpm));
}
