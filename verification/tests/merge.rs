use let_smi_core::binary64::Binary64;
use let_smi_core::merge::{is_stale, merge_metrics, MergedMetrics, ProviderTable};
use let_smi_core::snapshot::{build_snapshot, snapshot_has_first_sample};
use let_smi_core::sorted_map::SortedMap;
use let_smi_core::{
    CanonicalGpu, CapabilitySet, GpuIdentity, GpuKind, GpuVendor, Metric, MetricKey,
    MetricObservation, MetricQuality, MetricValue, ProviderMetadata, StaticMemoryInfo,
    UnavailableObservation, UnavailableReason,
};

fn number(value: f64) -> Binary64 {
    Binary64::from_bits(value.to_bits())
}

fn metric(source: &str, value: f64, quality: MetricQuality) -> MetricObservation {
    MetricObservation {
        device_id: "gpu".into(),
        metric: MetricKey::UtilizationOverall,
        value: MetricValue::Number(number(value)),
        source: source.into(),
        quality,
        sampled_at: 1_000,
        interval_ms: Some(1_000),
        definition: None,
    }
}

fn selected(merged: &MergedMetrics, key: MetricKey) -> Option<f64> {
    merged
        .selected
        .get(&key)
        .and_then(|value| value.value.as_f64())
        .map(|value| f64::from_bits(value.bits))
}

#[test]
fn provider_priority_is_per_metric() {
    let generic = ProviderMetadata::new("generic", 50, 90);
    let vendor = ProviderMetadata::new("vendor", 90, 90).prefer(MetricKey::UtilizationOverall, 10);
    let mut providers: ProviderTable = SortedMap::new();
    providers.insert("generic".to_owned(), generic);
    providers.insert("vendor".to_owned(), vendor);
    let merged = merge_metrics(
        vec![
            metric("generic", 20.0, MetricQuality::Direct),
            metric("vendor", 75.0, MetricQuality::Derived),
        ],
        Vec::new(),
        &providers,
        1_000,
    );
    assert_eq!(selected(&merged, MetricKey::UtilizationOverall), Some(75.0));
}

#[test]
fn invalid_utilization_is_not_exposed() {
    let merged = merge_metrics(
        vec![metric("broken", 101.0, MetricQuality::Direct)],
        Vec::new(),
        &SortedMap::new(),
        1_000,
    );
    assert!(!merged.selected.contains_key(&MetricKey::UtilizationOverall));
    assert_eq!(
        merged
            .unavailable
            .get(&MetricKey::UtilizationOverall)
            .unwrap()
            .reason,
        UnavailableReason::ProviderError
    );
}

#[test]
fn stale_metric_is_unavailable_instead_of_replayed() {
    let merged = merge_metrics(
        vec![metric("old-provider", 55.0, MetricQuality::Direct)],
        Vec::new(),
        &SortedMap::new(),
        31_001,
    );

    assert!(!merged.selected.contains_key(&MetricKey::UtilizationOverall));
    assert_eq!(
        merged
            .unavailable
            .get(&MetricKey::UtilizationOverall)
            .unwrap()
            .reason,
        UnavailableReason::TemporarilyUnavailable
    );
    assert!(merged.diagnostics[0]
        .candidates
        .iter()
        .all(|candidate| !candidate.selected));
}

#[test]
fn a_value_is_stale_after_thirty_seconds() {
    let observation = metric("provider", 55.0, MetricQuality::Direct);
    assert!(!is_stale(&observation, 31_000));
    assert!(is_stale(&observation, 31_001));
}

#[test]
fn a_negative_celsius_reading_is_not_an_unavailable_sentinel() {
    let mut observation = metric("cold-provider", -5.0, MetricQuality::Direct);
    observation.metric = MetricKey::TemperatureCoreCelsius;
    let merged = merge_metrics(vec![observation], Vec::new(), &SortedMap::new(), 1_000);
    assert_eq!(
        selected(&merged, MetricKey::TemperatureCoreCelsius),
        Some(-5.0)
    );
}

#[test]
fn selection_does_not_depend_on_the_order_of_providers() {
    let list = || {
        vec![
            metric("b", 20.0, MetricQuality::Direct),
            metric("a", 75.0, MetricQuality::Direct),
            metric("c", 10.0, MetricQuality::Estimated),
        ]
    };
    let forward = merge_metrics(list(), Vec::new(), &SortedMap::new(), 1_000);
    let mut reversed = list();
    reversed.reverse();
    let backward = merge_metrics(reversed, Vec::new(), &SortedMap::new(), 1_000);
    let winner = |merged: &MergedMetrics| {
        merged
            .selected
            .get(&MetricKey::UtilizationOverall)
            .unwrap()
            .source
            .clone()
    };
    assert_eq!(winner(&forward), winner(&backward));
    assert_eq!(forward.diagnostics[0].candidates.len(), 3);
    assert_eq!(
        forward.diagnostics[0]
            .candidates
            .iter()
            .filter(|candidate| candidate.selected)
            .count(),
        1
    );
}

#[test]
fn a_reported_absence_is_answered_unless_a_value_is_there() {
    let absence = |metric| UnavailableObservation {
        device_id: "gpu".into(),
        metric,
        reason: UnavailableReason::PermissionDenied,
        source: Some("provider".into()),
        message: None,
    };
    let merged = merge_metrics(
        vec![metric("provider", 5.0, MetricQuality::Direct)],
        vec![
            absence(MetricKey::UtilizationOverall),
            absence(MetricKey::PowerDrawWatts),
        ],
        &SortedMap::new(),
        1_000,
    );
    assert_eq!(selected(&merged, MetricKey::UtilizationOverall), Some(5.0));
    assert!(!merged
        .unavailable
        .contains_key(&MetricKey::UtilizationOverall));
    assert_eq!(
        merged
            .unavailable
            .get(&MetricKey::PowerDrawWatts)
            .unwrap()
            .reason,
        UnavailableReason::PermissionDenied
    );
}

fn gpu() -> CanonicalGpu {
    let capabilities = CapabilitySet::new(vec![MetricKey::UtilizationOverall]);
    CanonicalGpu {
        identity: GpuIdentity {
            id: "gpu".into(),
            vendor: GpuVendor::Unknown,
            name: "GPU".into(),
            architecture: None,
            driver_version: None,
            firmware_version: None,
            kind: GpuKind::Unknown,
            uuid: None,
            pci: None,
            windows: None,
            macos: None,
            parent_device_id: None,
            partition: None,
        },
        capabilities: capabilities.to_public(),
        memory: StaticMemoryInfo::default(),
        providers: vec![],
        vendor_info: SortedMap::new(),
        capability_set: capabilities,
        provider_device_ids: SortedMap::new(),
    }
}

#[test]
fn zero_is_available_and_not_a_sentinel() {
    let observation = MetricObservation {
        device_id: "gpu".into(),
        metric: MetricKey::UtilizationOverall,
        value: MetricValue::Number(number(0.0)),
        source: "mock".into(),
        quality: MetricQuality::Direct,
        sampled_at: 1,
        interval_ms: None,
        definition: None,
    };
    let mut merged = MergedMetrics::default();
    merged
        .selected
        .insert(MetricKey::UtilizationOverall, observation);
    let snapshot = build_snapshot(&gpu(), &merged, 1, None);
    assert!(snapshot.utilization.overall.is_available());
    match snapshot.utilization.overall {
        Metric::Available(value) => assert_eq!(value.value, number(0.0)),
        Metric::Unavailable(_) => panic!("zero must be available"),
    }
}

#[test]
fn unsupported_is_explicitly_unavailable() {
    let mut gpu = gpu();
    gpu.capability_set = CapabilitySet::default();
    gpu.capabilities = gpu.capability_set.to_public();
    let snapshot = build_snapshot(&gpu, &MergedMetrics::default(), 1, None);
    match snapshot.utilization.overall {
        Metric::Unavailable(value) => {
            assert_eq!(value.reason, UnavailableReason::Unsupported);
            assert!(!value.available);
        }
        Metric::Available(_) => panic!("unsupported metric must not be zero"),
    }
}

#[test]
fn an_awaited_rate_is_noticed() {
    let mut merged = MergedMetrics::default();
    merged.unavailable.insert(
        MetricKey::UtilizationOverall,
        UnavailableObservation {
            device_id: "gpu".into(),
            metric: MetricKey::UtilizationOverall,
            reason: UnavailableReason::FirstSample,
            source: Some("mock".into()),
            message: None,
        },
    );
    let snapshot = build_snapshot(&gpu(), &merged, 1, None);
    assert!(snapshot_has_first_sample(&snapshot));
    let settled = build_snapshot(&gpu(), &MergedMetrics::default(), 1, None);
    assert!(!snapshot_has_first_sample(&settled));
}
