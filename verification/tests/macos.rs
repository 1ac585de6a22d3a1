use let_smi_core::binary64::Binary64;
use let_smi_core::correlation::correlate;
use let_smi_core::monitor::MonitorOptions;
use let_smi_core::providers::macos::ioreport::{
    check_version, checked_cf_count, checked_i32_count, energy_to_joules, first_sample,
    is_active_state, parse_delta, parse_macos_major, Channel, ChannelReading, ChannelScan,
    StateReading, MAX_IOREPORT_CHANNELS,
};
use let_smi_core::providers::macos::ioreport_provider::{AppleIoReportProvider, ReportStep};
use let_smi_core::providers::macos::metal_inventory::{
    vendor_from_name, MetalDevice, MetalFamilies, MetalInventoryProvider, MetalLocation,
};
use let_smi_core::providers::macos::smc::{
    aggregate_temperature, AppleSmcProvider, ListedDevice, SensorScan,
};
use let_smi_core::providers::macos::smc_protocol::{
    check_key_info, check_reply, decode_temperature, fourcc, fourcc_string, implausible,
    is_gpu_temperature_key, known_keys, read_key_count, read_temperature, KeyInfo, SmcFailure,
    TemperatureFault, TemperatureSensor, TYPE_FLT, TYPE_SP78,
};
use let_smi_core::providers::{default_providers, MacProcessor, Platform, ProviderPlan};
use let_smi_core::{
    CanonicalGpu, GpuError, GpuKind, GpuVendor, MemoryTopology, MetricKey, MetricQuality,
    MetricValue, SampleRequest, UnavailableReason,
};

fn number(value: f64) -> Binary64 {
    Binary64::from_bits(value.to_bits())
}

fn float(value: Binary64) -> f64 {
    f64::from_bits(value.bits)
}

fn value_of(value: &MetricValue) -> f64 {
    match value {
        MetricValue::Number(value) => float(*value),
        other => panic!("expected a number, got {other:?}"),
    }
}

fn flt() -> KeyInfo {
    KeyInfo {
        data_size: 4,
        data_type: TYPE_FLT,
        attributes: 0,
    }
}

fn sp78() -> KeyInfo {
    KeyInfo {
        data_size: 2,
        data_type: TYPE_SP78,
        attributes: 0,
    }
}

#[test]
fn decodes_apple_silicon_little_endian_float_exactly() {
    let mut bytes = [0_u8; 32];
    bytes[..4].copy_from_slice(&42.5_f32.to_le_bytes());
    let value = decode_temperature(flt(), &bytes).expect("flt temperature");
    assert_eq!(float(value), 42.5);
}

#[test]
fn decodes_intel_big_endian_sp78_exactly() {
    let mut bytes = [0_u8; 32];
    bytes[..2].copy_from_slice(&10_880_i16.to_be_bytes());
    let value = decode_temperature(sp78(), &bytes).expect("sp78 temperature");
    assert_eq!(float(value), 42.5);
}

#[test]
fn every_single_precision_value_is_widened_exactly() {
    for value in [
        0.0_f32,
        -0.0,
        1.0,
        -1.5,
        0.1,
        1.0e-45,
        f32::MIN_POSITIVE,
        f32::MAX,
        -273.15,
        16_777_217.0,
    ] {
        let mut bytes = [0_u8; 32];
        bytes[..4].copy_from_slice(&value.to_le_bytes());
        let decoded = decode_temperature(flt(), &bytes).unwrap();
        assert_eq!(decoded.bits, f64::from(value).to_bits(), "{value}");
    }
    for value in [f32::NAN, f32::INFINITY, f32::NEG_INFINITY] {
        let mut bytes = [0_u8; 32];
        bytes[..4].copy_from_slice(&value.to_le_bytes());
        assert_eq!(
            decode_temperature(flt(), &bytes).unwrap_err().message,
            "AppleSMC temperature was not finite"
        );
    }
    for value in [i16::MIN, -1, 0, 1, i16::MAX] {
        let mut bytes = [0_u8; 32];
        bytes[..2].copy_from_slice(&value.to_be_bytes());
        let decoded = decode_temperature(sp78(), &bytes).unwrap();
        assert_eq!(float(decoded), f64::from(value) / 256.0);
    }
}

#[test]
fn unknown_encodings_are_named() {
    let info = KeyInfo {
        data_size: 1,
        data_type: fourcc(*b"ui8 "),
        attributes: 0,
    };
    let failure = decode_temperature(info, &[0; 32]).unwrap_err();
    assert_eq!(
        failure.message,
        "unsupported AppleSMC temperature type ui8  with size 1"
    );
    assert_eq!(failure.reason, UnavailableReason::ProviderError);
    assert_eq!(fourcc_string(fourcc(*b"TG0P")), "TG0P");
    assert_eq!(fourcc_string(0xff41_4243), "\u{fffd}ABC");
}

#[test]
fn common_keys_are_tried_by_name() {
    assert_eq!(
        known_keys(),
        vec![
            fourcc(*b"Tg0f"),
            fourcc(*b"Tg0j"),
            fourcc(*b"TG0P"),
            fourcc(*b"TG0D"),
        ]
    );
}

#[test]
fn key_classification_is_case_and_type_specific() {
    let float = flt();
    let sp78 = sp78();
    assert!(is_gpu_temperature_key(fourcc(*b"Tg0f"), float));
    assert!(is_gpu_temperature_key(fourcc(*b"TG0P"), sp78));
    assert!(!is_gpu_temperature_key(fourcc(*b"TG0P"), float));
    assert!(!is_gpu_temperature_key(fourcc(*b"TC0P"), sp78));
}

#[test]
fn multiple_sensors_are_explicitly_estimated() {
    assert_eq!(
        aggregate_temperature(&vec![number(40.0)]),
        Some((number(40.0), MetricQuality::Direct))
    );
    assert_eq!(
        aggregate_temperature(&vec![number(40.0), number(50.0)]),
        Some((number(45.0), MetricQuality::Estimated))
    );
    assert_eq!(aggregate_temperature(&Vec::new()), None);
    assert_eq!(
        aggregate_temperature(&vec![number(40.0), number(f64::NAN)]),
        None
    );
}

#[test]
fn means_round_as_doubles_do() {
    let readings = [40.1, 41.7, 39.3];
    let (mean, _) = aggregate_temperature(&readings.iter().map(|v| number(*v)).collect()).unwrap();
    assert_eq!(float(mean), readings.iter().sum::<f64>() / 3.0);
}

#[test]
fn smc_provider_initialization_never_panics() {
    let provider = AppleSmcProvider::opened(Vec::new(), None);
    assert_eq!(provider.diagnostic().id, "apple-smc");
    let provider = AppleSmcProvider::closed_with(SmcFailure::temporary("no service"));
    assert!(!provider.diagnostic().loaded);
    assert_eq!(
        provider.diagnostic().reason,
        Some(UnavailableReason::TemporarilyUnavailable)
    );
}

#[test]
fn controller_replies_are_checked() {
    assert!(check_reply(0, 80, 0).is_none());
    assert_eq!(
        check_reply(0xe000_02c2, 80, 0).unwrap().message,
        "AppleSMC request failed with IOKit status 0xe00002c2"
    );
    assert_eq!(
        check_reply(0, 79, 0).unwrap().message,
        "AppleSMC returned an unexpected payload size (79)"
    );
    let missing = check_reply(0, 80, 0x84).unwrap();
    assert_eq!(missing.reason, UnavailableReason::TemporarilyUnavailable);
    assert_eq!(
        check_reply(0, 80, 1).unwrap().message,
        "AppleSMC returned result code 0x1"
    );
    let mut info = flt();
    info.data_size = 33;
    assert_eq!(
        check_key_info(fourcc(*b"Tg0f"), info).unwrap_err().message,
        "AppleSMC key Tg0f reported invalid size 33"
    );
    assert_eq!(check_key_info(fourcc(*b"Tg0f"), flt()).unwrap(), flt());
    let mut bytes = [0_u8; 32];
    bytes[..4].copy_from_slice(&1_234_u32.to_be_bytes());
    assert_eq!(read_key_count(&bytes).unwrap(), 1_234);
    bytes[..4].copy_from_slice(&16_385_u32.to_be_bytes());
    assert_eq!(
        read_key_count(&bytes).unwrap_err().message,
        "AppleSMC reported an unreasonable key count (16385)"
    );
}

fn sensor(key: [u8; 4]) -> TemperatureSensor {
    TemperatureSensor {
        key: fourcc(key),
        info: flt(),
    }
}

#[test]
fn implausible_temperatures_are_refused() {
    let read = |value: f32| {
        let mut bytes = [0_u8; 32];
        bytes[..4].copy_from_slice(&value.to_le_bytes());
        read_temperature(sensor(*b"Tg0f"), &bytes)
    };
    assert_eq!(float(read(1.0).unwrap()), 1.0);
    assert_eq!(float(read(150.0).unwrap()), 150.0);
    for value in [0.5_f32, 150.5, -1.0, 0.0] {
        match read(value).unwrap_err() {
            TemperatureFault::Implausible(seen) => assert_eq!(float(seen), f64::from(value)),
            other => panic!("unexpected {other:?}"),
        }
    }
    assert_eq!(
        implausible(sensor(*b"Tg0f"), "0.5").message,
        "AppleSMC key Tg0f returned implausible temperature 0.5"
    );
}

#[test]
fn sensors_are_read_once_and_in_order() {
    let mut scan = SensorScan::new();
    scan.offer(fourcc(*b"Tg0j"), flt());
    scan.offer(fourcc(*b"TC0P"), flt());
    scan.offer(fourcc(*b"Tg0f"), flt());
    assert!(!scan.is_full());
    let sensors = scan.finish(&vec![
        sensor(*b"Tg0f"),
        sensor(*b"TC0D"),
        sensor(*b"Tg0a"),
    ]);
    let keys: Vec<String> = sensors.iter().map(|s| fourcc_string(s.key)).collect();
    assert_eq!(keys, vec!["Tg0a", "Tg0f", "Tg0j"]);
    let mut scan = SensorScan::new();
    for index in 0..70_u32 {
        scan.offer(fourcc(*b"Tg00") + index, flt());
    }
    assert!(scan.is_full());
    assert_eq!(scan.finish(&vec![sensor(*b"TgAA")]).len(), 64);
}

fn listed(name: &str) -> ListedDevice {
    ListedDevice {
        name: name.into(),
        registry_id: 0x1_0000_0abc,
    }
}

fn smc_device(provider: &mut AppleSmcProvider) -> CanonicalGpu {
    let observations = provider.observe(&vec![listed("Apple M5 Max")], true);
    assert_eq!(observations.len(), 1);
    correlate(observations).remove(0)
}

#[test]
fn one_group_of_sensors_belongs_to_one_device() {
    let mut provider = AppleSmcProvider::opened(vec![sensor(*b"Tg0f")], None);
    assert!(provider
        .observe(&vec![listed("AMD Radeon"), listed("Intel Iris")], false)
        .is_empty());
    assert_eq!(
        provider.diagnostic().message,
        Some("AppleSMC GPU temperature is ambiguous on a multi-GPU Mac".to_string())
    );
    let gpu = smc_device(&mut provider);
    assert_eq!(gpu.identity.vendor, GpuVendor::Apple);
    assert_eq!(provider.diagnostic().devices_matched, 1);
    assert!(provider
        .capabilities(&gpu)
        .supports(MetricKey::TemperatureCoreCelsius));
    let mut bare = AppleSmcProvider::opened(Vec::new(), None);
    smc_device(&mut bare);
    assert_eq!(
        bare.diagnostic().message,
        Some("AppleSMC exposed no supported Tg*/TG* temperature keys".to_string())
    );
    provider.shutdown();
    assert!(provider.capabilities(&gpu).is_empty());
}

#[test]
fn the_mean_of_the_sensors_is_the_temperature() {
    let mut provider = AppleSmcProvider::opened(vec![sensor(*b"Tg0f")], None);
    let gpu = smc_device(&mut provider);
    let request = SampleRequest::default();
    let readings = vec![
        Ok(number(40.0)),
        Err(SmcFailure::temporary("busy")),
        Ok(number(50.0)),
    ];
    let sample = provider.answer(&gpu, &request, &readings, 3);
    assert_eq!(value_of(&sample.metrics[0].value), 45.0);
    assert_eq!(sample.metrics[0].quality, MetricQuality::Estimated);
    assert_eq!(
        sample.metrics[0].definition,
        Some("arithmetic mean of 2 AppleSMC GPU die temperature sensors".to_string())
    );
    let sample = provider.answer(
        &gpu,
        &request,
        &vec![Err(SmcFailure::temporary("busy")), Err(SmcFailure::provider("broken"))],
        3,
    );
    assert_eq!(sample.unavailable[0].message, Some("busy".to_string()));
    let sample = provider.answer(&gpu, &request, &Vec::new(), 3);
    assert_eq!(
        sample.unavailable[0].message,
        Some("AppleSMC returned no GPU temperature readings".to_string())
    );
}

#[test]
fn classifies_only_non_idle_states_as_active() {
    assert!(!is_active_state("OFF"));
    assert!(!is_active_state(" idle "));
    assert!(is_active_state("P3"));
}

#[test]
fn converts_documented_energy_units() {
    assert_eq!(
        energy_to_joules(number(1_000.0), "mJ").unwrap(),
        number(1.0)
    );
    assert_eq!(
        energy_to_joules(number(1_000_000.0), "uJ").unwrap(),
        number(1.0)
    );
    assert_eq!(
        energy_to_joules(number(1_000_000.0), "\u{b5}J").unwrap(),
        number(1.0)
    );
    assert_eq!(
        float(energy_to_joules(number(7.0), " nJ ").unwrap()),
        7.0 / 1.0e9
    );
    assert_eq!(
        energy_to_joules(number(-1_000.0), "mJ").unwrap(),
        number(-1.0)
    );
    assert_eq!(
        energy_to_joules(number(f64::NEG_INFINITY), "mJ").unwrap(),
        number(f64::NEG_INFINITY)
    );
    assert!(energy_to_joules(number(f64::NAN), "mJ").unwrap().is_nan());
    assert_eq!(
        energy_to_joules(number(1.0), "ticks"),
        Err("unsupported IOReport energy unit ticks".to_string())
    );
}

#[test]
fn rejects_negative_and_oversized_private_api_counts() {
    assert!(checked_cf_count("fixture", -1, 10).is_err());
    assert!(checked_cf_count("fixture", 11, 10).is_err());
    assert_eq!(checked_cf_count("fixture", 10, 10), Ok(10));
    assert_eq!(
        checked_cf_count(
            "modern Apple Silicon fixture",
            11_884,
            MAX_IOREPORT_CHANNELS,
        ),
        Ok(11_884)
    );
    assert!(checked_cf_count(
        "oversized Apple Silicon fixture",
        65_537,
        MAX_IOREPORT_CHANNELS,
    )
    .is_err());
    assert!(checked_i32_count("fixture", -1, 10).is_err());
    assert!(checked_i32_count("fixture", 11, 10).is_err());
    assert_eq!(checked_i32_count("fixture", 10, 10), Ok(10));
    assert_eq!(
        checked_cf_count("fixture", 11, 10).unwrap_err(),
        "fixture count 11 exceeds the 10-entry safety limit"
    );
}

#[test]
fn ioreport_provider_initialization_never_panics() {
    let provider = AppleIoReportProvider::unavailable("no framework".into());
    assert_eq!(provider.diagnostic(None).id, "apple-ioreport");
    assert!(!provider.diagnostic(Some(27)).loaded);
    assert_eq!(
        provider.diagnostic(Some(27)).version,
        Some("27".to_string())
    );
}

#[test]
fn later_systems_are_not_trusted() {
    assert_eq!(parse_macos_major(&b"26.1.2\0".to_vec()), Some(26));
    assert_eq!(parse_macos_major(&b"26\0junk".to_vec()), Some(26));
    assert_eq!(parse_macos_major(&b"26.1".to_vec()), None);
    assert_eq!(parse_macos_major(&vec![0xff, 0]), None);
    assert_eq!(parse_macos_major(&b"x.1\0".to_vec()), None);
    assert!(check_version(Some(27)).is_ok());
    assert!(check_version(None).is_ok());
    assert_eq!(
        check_version(Some(28)),
        Err("IOReport is disabled on unvalidated macOS major version 28".to_string())
    );
}

fn channel(group: &str, subgroup: &str, name: &str, unit: &str) -> Channel {
    Channel {
        group: group.into(),
        subgroup: subgroup.into(),
        name: name.into(),
        unit: unit.into(),
    }
}

fn channels() -> Vec<Channel> {
    let mut scan = ChannelScan::new();
    assert_eq!(
        scan.offer(channel("GPU Stats", "GPU Performance States", "GPUPH", "")),
        Ok(true)
    );
    assert_eq!(scan.offer(channel("CPU Stats", "", "PCPU", "")), Ok(false));
    assert_eq!(
        scan.offer(channel("Energy Model", "", "GPU Energy", " mJ ")),
        Ok(true)
    );
    scan.finish().unwrap()
}

fn state(name: &str, residency: i64) -> StateReading {
    StateReading {
        name: name.into(),
        residency,
    }
}

fn readings(energy: i64) -> Vec<Result<ChannelReading, String>> {
    vec![
        Ok(ChannelReading {
            states: vec![state("OFF", 300), state("P1", 100), state("P2", 100)],
            value: 0,
        }),
        Ok(ChannelReading {
            states: Vec::new(),
            value: energy,
        }),
    ]
}

#[test]
fn counters_give_residency_and_power() {
    let channels = channels();
    let sample = parse_delta(
        &channels,
        &readings(2_500),
        &"gpu".to_string(),
        500_000_000,
        9,
    )
    .unwrap();
    let values: Vec<(MetricKey, f64)> = sample
        .metrics
        .iter()
        .map(|metric| (metric.metric, value_of(&metric.value)))
        .collect();
    assert_eq!(
        values,
        vec![
            (MetricKey::UtilizationOverall, 40.0),
            (MetricKey::PowerEnergyJoules, 2.5),
            (MetricKey::PowerDrawWatts, 5.0),
        ]
    );
    assert_eq!(sample.metrics[0].interval_ms, Some(500));
}

#[test]
fn a_zero_energy_delta_is_zero_power() {
    let sample = parse_delta(&channels(), &readings(0), &"gpu".to_string(), 1, 9).unwrap();
    assert_eq!(value_of(&sample.metrics[1].value), 0.0);
    assert_eq!(value_of(&sample.metrics[2].value), 0.0);
}

#[test]
fn broken_counters_are_errors() {
    let channels = channels();
    let id = "gpu".to_string();
    let fault = |readings| parse_delta(&channels, &readings, &id, 1, 9).unwrap_err();
    assert_eq!(
        fault(Vec::new()),
        "IOReport delta channel count changed".to_string()
    );
    let mut negative = readings(1);
    negative[0] = Ok(ChannelReading {
        states: vec![state("P1", -1)],
        value: 0,
    });
    assert_eq!(
        fault(negative),
        "IOReport returned negative state residency".to_string()
    );
    assert_eq!(
        fault(readings(-1)),
        "IOReport returned negative GPU energy".to_string()
    );
    let mut unread = readings(1);
    unread[1] = Err("IOReport delta contained a non-dictionary channel".to_string());
    assert_eq!(
        fault(unread),
        "IOReport delta contained a non-dictionary channel".to_string()
    );
    let mut crowded = readings(1);
    crowded[0] = Ok(ChannelReading {
        states: (0..257).map(|_| state("P1", 1)).collect(),
        value: 0,
    });
    assert_eq!(
        fault(crowded),
        "IOReport state array count 257 exceeds the 256-entry safety limit".to_string()
    );
    let mut unit = channels_with_unit("ticks");
    unit.remove(0);
    assert_eq!(
        parse_delta(&unit, &readings(1).split_off(1), &id, 1, 9).unwrap_err(),
        "unsupported IOReport energy unit ticks".to_string()
    );
    assert_eq!(
        ChannelScan::new().finish().unwrap_err(),
        "no supported GPU IOReport channels were found".to_string()
    );
}

fn channels_with_unit(unit: &str) -> Vec<Channel> {
    let mut list = channels();
    list[1].unit = unit.into();
    list
}

#[test]
fn selected_counters_are_bounded() {
    let mut scan = ChannelScan::new();
    for _ in 0..256 {
        scan.offer(channel("Energy Model", "", "GPU Energy", "mJ"))
            .unwrap();
    }
    assert_eq!(
        scan.offer(channel("Energy Model", "", "GPU Energy", "mJ")),
        Err("IOReport selected more than 256 GPU channels".to_string())
    );
}

#[test]
fn a_first_sample_awaits_the_second() {
    let mut provider = AppleIoReportProvider::available(channels());
    let gpu = correlate(provider.observe(&None)).remove(0);
    assert_eq!(gpu.identity.name, "Apple GPU");
    assert_eq!(gpu.identity.kind, GpuKind::Integrated);
    assert!(provider.samples_for(&gpu).unwrap());
    assert_eq!(provider.sampled(Some(100)).unwrap(), ReportStep::First);
    let sample = provider.first_answer(&gpu);
    assert_eq!(sample.unavailable.len(), 3);
    assert_eq!(
        first_sample(&channels(), &gpu.identity.id).unavailable.len(),
        3
    );
    assert_eq!(
        provider.sampled(Some(350)).unwrap(),
        ReportStep::Delta { elapsed: 250 }
    );
    assert_eq!(
        provider.sampled(Some(350)).unwrap(),
        ReportStep::Delta { elapsed: 1 }
    );
    let sample = provider
        .delta_answer(&gpu, &Ok(readings(1)), 1_000_000_000, 4)
        .unwrap();
    assert_eq!(value_of(&sample.metrics[0].value), 40.0);
    match provider
        .delta_answer(&gpu, &Err("no delta".to_string()), 1, 4)
        .unwrap_err()
    {
        GpuError::Provider {
            reason, message, ..
        } => {
            assert_eq!(reason, UnavailableReason::TemporarilyUnavailable);
            assert_eq!(message, "no delta");
        }
        other => panic!("unexpected {other:?}"),
    }
    assert!(provider.sampled(None).is_err());
    assert_eq!(provider.sampled(Some(1)).unwrap(), ReportStep::First);
    let absent = AppleIoReportProvider::unavailable("gone".into());
    assert!(absent.samples_for(&gpu).is_err());
}

#[test]
fn identifies_common_legacy_vendors() {
    assert_eq!(vendor_from_name("AMD Radeon Pro 5500M"), GpuVendor::Amd);
    assert_eq!(vendor_from_name("Intel Iris Plus"), GpuVendor::Intel);
    assert_eq!(vendor_from_name("Apple M5 Max"), GpuVendor::Apple);
}

#[test]
fn metal_devices_become_observations() {
    let families = MetalFamilies {
        apple1: true,
        apple2: true,
        apple3: false,
        apple4: false,
        apple5: false,
        apple6: false,
        apple7: true,
        apple8: false,
        apple9: false,
        mac1: false,
        mac2: true,
        metal3: true,
        metal4: false,
    };
    let observations = MetalInventoryProvider::observe(
        &vec![
            MetalDevice {
                name: "Apple M5 Max".into(),
                registry_id: 0xabc,
                unified_memory: true,
                removable: false,
                low_power: false,
                location: MetalLocation::BuiltIn,
                families,
                recommended_max_working_set_bytes: 5,
            },
            MetalDevice {
                name: "AMD Radeon RX 580".into(),
                registry_id: 0xdef,
                unified_memory: false,
                removable: true,
                low_power: false,
                location: MetalLocation::External,
                families,
                recommended_max_working_set_bytes: 6,
            },
        ],
        Some(64),
    );
    assert_eq!(observations[0].provider_device_id, "0000000000000abc");
    assert_eq!(observations[0].kind, GpuKind::Integrated);
    assert_eq!(observations[0].memory.unified_total_bytes, Some(64));
    assert_eq!(observations[0].architecture, Some("Apple M5 Max".to_string()));
    assert!(observations[0]
        .vendor_info
        .contains_key(&"gpuFamily".to_string()));
    assert_eq!(observations[0].vendor_info.len(), 5);
    assert_eq!(observations[1].kind, GpuKind::External);
    assert_eq!(observations[1].memory.topology, MemoryTopology::Dedicated);
    assert_eq!(observations[1].memory.unified_total_bytes, None);
    assert_eq!(observations[1].vendor_info.len(), 3);
    assert_eq!(MetalInventoryProvider::diagnostic(2).devices_matched, 2);
}

#[test]
fn private_telemetry_is_a_choice() {
    let mut options = MonitorOptions::default();
    let plans = default_providers(&options, Platform::MacOs(MacProcessor::AppleSilicon));
    assert!(matches!(plans[1], ProviderPlan::AppleSmc));
    assert!(matches!(plans[2], ProviderPlan::AppleIoReport));
    let plans = default_providers(&options, Platform::MacOs(MacProcessor::Intel));
    assert!(matches!(
        plans[2],
        ProviderPlan::Unavailable {
            id: "apple-ioreport",
            ..
        }
    ));
    options.enable_apple_private_telemetry = false;
    let plans = default_providers(&options, Platform::MacOs(MacProcessor::AppleSilicon));
    assert!(matches!(
        plans[2],
        ProviderPlan::Unavailable {
            id: "apple-smc",
            ..
        }
    ));
    assert_eq!(plans.len(), 4);
}
