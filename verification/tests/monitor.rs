use let_smi_core::binary64::Binary64;
use let_smi_core::error::ErrorStatus;
use let_smi_core::json::Json;
use let_smi_core::model::now_millis;
use let_smi_core::monitor::{next_pause, GpuMonitor, MonitorOptions, Pause, SampleStep};
use let_smi_core::providers::host::{HostProvider, HostSource};
use let_smi_core::providers::mock::MockProvider;
use let_smi_core::providers::optional_runtime::UnavailableProvider;
use let_smi_core::{
    CanonicalGpu, CapabilitySet, DeviceObservation, GpuError, GpuVendor, Metric, MetricKey,
    MetricObservation, MetricQuality, MetricValue, ProviderDiagnostic, ProviderMetadata,
    ProviderSample, SampleRequest, UnavailableObservation, UnavailableReason,
};

fn number(value: f64) -> Binary64 {
    Binary64::from_bits(value.to_bits())
}

fn mock_monitor(samples: Vec<ProviderSample>) -> GpuMonitor<MockProvider> {
    let mut observation = DeviceObservation::new("mock", "zero", GpuVendor::Intel, "Mock GPU");
    observation.uuid = Some("mock-uuid".into());
    observation.capabilities = CapabilitySet::new(vec![MetricKey::UtilizationOverall]);
    let provider = MockProvider::new(
        ProviderMetadata::new("mock", 100, 100),
        vec![observation],
        samples,
    );
    match GpuMonitor::with_providers(vec![provider]) {
        Ok(monitor) => monitor,
        Err(error) => panic!("mock monitor should open: {error:?}"),
    }
}

fn request(window_ms: u64) -> SampleRequest {
    SampleRequest {
        window_ms,
        ..SampleRequest::default()
    }
}

fn first_id(monitor: &GpuMonitor<MockProvider>) -> String {
    monitor.gpus().unwrap()[0].identity.id.clone()
}

#[test]
fn missing_metric_is_not_zero() {
    let mut monitor = mock_monitor(vec![ProviderSample::default()]);
    let id = first_id(&monitor);
    match monitor.sample(&id, &request(0)).unwrap() {
        SampleStep::Done(snapshot) => assert!(matches!(
            snapshot.utilization.overall,
            Metric::Unavailable(_)
        )),
        SampleStep::Repeat { .. } => panic!("no window was asked for"),
    }
    monitor.close();
}

#[test]
fn first_sample_is_retried_for_requested_window() {
    let unavailable = ProviderSample {
        unavailable: vec![UnavailableObservation {
            device_id: String::new(),
            metric: MetricKey::UtilizationOverall,
            reason: UnavailableReason::FirstSample,
            source: Some("mock".into()),
            message: None,
        }],
        ..ProviderSample::default()
    };
    let available = ProviderSample {
        metrics: vec![MetricObservation {
            device_id: String::new(),
            metric: MetricKey::UtilizationOverall,
            value: MetricValue::Number(number(40.0)),
            source: "mock".into(),
            quality: MetricQuality::Derived,
            sampled_at: now_millis(),
            interval_ms: Some(1),
            definition: Some("mock busy delta".into()),
        }],
        ..ProviderSample::default()
    };
    let mut monitor = mock_monitor(vec![unavailable, available]);
    let id = first_id(&monitor);
    match monitor.sample(&id, &request(1)).unwrap() {
        SampleStep::Repeat { window_ms } => assert_eq!(window_ms, 1),
        SampleStep::Done(_) => panic!("the rate needs a second sample"),
    }
    let snapshot = monitor.sample_once(&id, &request(1)).unwrap();
    assert!(snapshot.utilization.overall.is_available());
    let diagnostics = monitor.diagnostics("linux", "x86_64");
    assert_eq!(diagnostics.metric_selections.len(), 1);
    assert_eq!(diagnostics.metric_selections[0].metrics.len(), 1);
    assert!(diagnostics.metric_selections[0].metrics[0]
        .candidates
        .iter()
        .any(|candidate| candidate.selected && candidate.source == "mock"));
    monitor.close();
}

#[test]
fn close_is_idempotent_and_shuts_down_providers() {
    let mut monitor = mock_monitor(vec![]);
    assert!(!monitor.providers()[0].was_shutdown());
    monitor.close();
    monitor.close();
    assert!(monitor.providers()[0].was_shutdown());
    assert!(matches!(monitor.gpus(), Err(GpuError::MonitorClosed)));
    assert!(monitor.is_closed());
    assert!(matches!(
        monitor.sample_once("x", &request(0)),
        Err(GpuError::MonitorClosed)
    ));
    assert!(matches!(monitor.refresh(), Err(GpuError::MonitorClosed)));
    assert!(matches!(
        monitor.vendor_info("x"),
        Err(GpuError::MonitorClosed)
    ));
    assert!(matches!(
        monitor.check_watchable("x"),
        Err(GpuError::MonitorClosed)
    ));
}

/// A provider that sees one device, offers a metric for it and counts how often it is stopped.
struct Counting {
    id: &'static str,
    loaded: bool,
    offer: MetricKey,
    stops: usize,
}

impl Counting {
    fn new(id: &'static str, loaded: bool, offer: MetricKey) -> Self {
        Counting {
            id,
            loaded,
            offer,
            stops: 0,
        }
    }
}

impl HostSource for Counting {
    fn enumerate(&mut self) -> Result<Vec<DeviceObservation>, GpuError> {
        let mut observation = DeviceObservation::new(self.id, "zero", GpuVendor::Intel, "GPU");
        observation.uuid = Some("shared".into());
        Ok(vec![observation])
    }

    fn diagnostic(&self) -> ProviderDiagnostic {
        ProviderDiagnostic {
            id: self.id.to_string(),
            loaded: self.loaded,
            version: None,
            devices_matched: 0,
            reason: None,
            message: None,
        }
    }

    fn metadata(&self) -> ProviderMetadata {
        ProviderMetadata::new(self.id, 0, 0)
    }

    fn capabilities(&self, _device: &CanonicalGpu) -> CapabilitySet {
        CapabilitySet::new(vec![self.offer])
    }

    fn sample(
        &mut self,
        _device: &CanonicalGpu,
        _request: &SampleRequest,
    ) -> Result<ProviderSample, GpuError> {
        Ok(ProviderSample::default())
    }

    fn vendor_info(&mut self, _device: &CanonicalGpu) -> Result<Json, GpuError> {
        Ok(Json::Null)
    }

    fn shutdown(&mut self) {
        self.stops += 1;
    }
}

fn counting() -> Vec<HostProvider<Counting>> {
    vec![
        HostProvider::new("one", Counting::new("one", true, MetricKey::FanRpm)),
        HostProvider::new(
            "two",
            Counting::new("two", false, MetricKey::PowerDrawWatts),
        ),
    ]
}

fn opened(options: &MonitorOptions) -> Result<GpuMonitor<HostProvider<Counting>>, GpuError> {
    GpuMonitor::with_providers_and_options(counting(), options)
}

#[test]
fn each_provider_is_stopped_once() {
    let mut monitor = opened(&MonitorOptions::default()).ok().expect("a monitor");
    monitor.refresh().expect("the devices");
    assert!(monitor
        .providers()
        .iter()
        .all(|provider| provider.source().stops == 0));
    monitor.close();
    monitor.close();
    assert!(monitor.refresh().is_err());
    monitor.close();
    let stops: Vec<usize> = monitor
        .providers()
        .iter()
        .map(|provider| provider.source().stops)
        .collect();
    assert_eq!(stops, vec![1, 1]);
}

#[test]
fn devices_have_the_capabilities_that_providers_offer() {
    let monitor = opened(&MonitorOptions::default()).ok().expect("a monitor");
    let devices = monitor.gpus().unwrap();
    assert_eq!(devices.len(), 1);
    let offered = &devices[0].capability_set;
    assert!(offered.supports(MetricKey::FanRpm));
    assert!(offered.supports(MetricKey::PowerDrawWatts));
    assert!(!offered.supports(MetricKey::UtilizationOverall));
}

#[test]
fn the_first_unmet_requirement_decides() {
    let mut options = MonitorOptions::default();
    options.required_providers = vec!["one".into(), "two".into(), "three".into()];
    match opened(&options).err() {
        Some(GpuError::Provider {
            provider,
            reason,
            message,
        }) => {
            assert_eq!(provider, "two");
            assert_eq!(reason, UnavailableReason::ProviderError);
            assert_eq!(message, "required provider did not initialize");
        }
        other => panic!("unexpected {other:?}"),
    }
    options.required_providers = vec!["three".into(), "two".into()];
    match opened(&options).err() {
        Some(GpuError::InvalidArgument(message)) => {
            assert_eq!(message, "unknown required provider: three")
        }
        other => panic!("unexpected {other:?}"),
    }
    options.required_providers = vec!["one".into()];
    assert!(opened(&options).is_ok());
}

#[test]
fn a_missing_optional_runtime_does_not_block_initialization() {
    let provider = UnavailableProvider::new(
        "optional-vendor",
        UnavailableReason::DriverLibraryMissing,
        "fixture runtime is absent",
    );
    let mut monitor = match GpuMonitor::with_providers(vec![provider]) {
        Ok(monitor) => monitor,
        Err(error) => panic!("{error:?}"),
    };
    assert!(monitor.gpus().unwrap().is_empty());
    assert!(!monitor.diagnostics("linux", "x86_64").providers[0].loaded);
    monitor.close();
}

#[test]
fn a_required_provider_has_to_be_there() {
    let provider = || {
        vec![UnavailableProvider::new(
            "optional-vendor",
            UnavailableReason::DriverLibraryMissing,
            "fixture runtime is absent",
        )]
    };
    let mut options = MonitorOptions::default();
    options.required_providers = vec!["optional-vendor".into()];
    let error = match GpuMonitor::with_providers_and_options(provider(), &options) {
        Ok(_) => panic!("the runtime is absent"),
        Err(error) => error,
    };
    assert!(matches!(
        error,
        GpuError::Provider {
            reason: UnavailableReason::DriverLibraryMissing,
            ..
        }
    ));
    options.required_providers = vec!["unknown".into()];
    assert!(GpuMonitor::with_providers_and_options(provider(), &options).is_err());
}

#[test]
fn unknown_devices_are_named() {
    let mut monitor = mock_monitor(vec![]);
    match monitor.sample_once("nowhere", &request(0)) {
        Err(GpuError::DeviceNotFound(id)) => assert_eq!(id, "nowhere"),
        other => panic!("unexpected {:?}", other.map(|_| ())),
    }
    assert!(monitor.check_watchable("nowhere").is_err());
    let id = first_id(&monitor);
    assert!(monitor.check_watchable(&id).is_ok());
}

#[test]
fn a_pause_ends_with_its_window_or_the_monitor() {
    assert!(matches!(next_pause(10, 10, false), Pause::Over));
    assert!(matches!(next_pause(0, 10, true), Pause::Closed));
    assert!(matches!(next_pause(0, 10, false), Pause::Sleep(_)));
}

#[test]
fn errors_are_told_with_their_kind() {
    let error = GpuError::provider("nvml", UnavailableReason::PermissionDenied, "no access");
    assert_eq!(
        error.message(),
        "provider `nvml` failed (PermissionDenied): no access"
    );
    assert_eq!(error.status(), ErrorStatus::GenericFailure);
    assert_eq!(GpuError::MonitorClosed.status(), ErrorStatus::Cancelled);
    assert_eq!(GpuError::StreamClosed.status(), ErrorStatus::Cancelled);
    assert_eq!(
        GpuError::DeviceNotFound("x".into()).message(),
        "GPU `x` was not found"
    );
    assert_eq!(
        GpuError::InvalidArgument("x".into()).status(),
        ErrorStatus::InvalidArgument
    );
    assert_eq!(GpuError::MonitorClosed.message(), "monitor is closed");
    assert_eq!(GpuError::StreamClosed.message(), "sample stream is closed");
}
