use let_smi_core::binary64::Binary64;
use let_smi_core::correlation::correlate;
use let_smi_core::providers::linux::hwmon::{
    discover, temperature_semantic, HwmonDirectory, SysEntry,
};
use let_smi_core::providers::linux::inventory::{
    build_record, discover_device_sources, gpu_kind, is_software_driver, looks_like_pci_address,
    plan_device, CardFacts, DeviceFacts, LinuxDeviceRecord,
};
use let_smi_core::providers::linux::listing::{
    bound_entries, child_directories, collect_devices, ChildEntry, DrmEntry, Listing, PciEntry,
    MAX_CHILD_DEVICE_ENTRIES,
};
use let_smi_core::providers::linux::metric::{
    scale, select_error, FaultKind, Measured, MetricReadError, MetricReader, MetricSource,
    PathReading, ReadFault, SourceReading, Unit,
};
use let_smi_core::providers::linux::parse::{
    active_clock_texts, attribute_text, drm_node_name, highest_active_clock, numbered_attribute,
    parse_u64, uevent_value, TextFault,
};
use let_smi_core::providers::linux::path::{check_within, is_below, rest_below};
use let_smi_core::providers::linux::provider::{sample_record, GroupReading, InventoryResult};
use let_smi_core::providers::linux::{LinuxRoots, LinuxSysfsProvider};
use let_smi_core::sorted_map::{SortedMap, SortedSet};
use let_smi_core::{
    GpuKind, GpuVendor, MetricKey, MetricQuality, MetricValue, ProviderSample, SampleRequest,
    UnavailableReason,
};

fn number(value: f64) -> Binary64 {
    Binary64::from_bits(value.to_bits())
}

fn shown(value: f64) -> String {
    format!("{value}")
}

/// What a path with the given contents gives to a reader of the unit.
fn part(text: &str, unit: Unit) -> PathReading {
    let trimmed = text.trim().to_string();
    let parsed = trimmed.parse::<f64>();
    PathReading {
        present: true,
        number: match parsed {
            Ok(value) if value.is_finite() => {
                let in_unit = scale(number(value), unit);
                Ok(Measured {
                    value: number(value),
                    text: shown(f64::from_bits(in_unit.bits)),
                })
            }
            Ok(value) => Ok(Measured {
                value: number(value),
                text: shown(value),
            }),
            Err(error) => Err(format!("{error}")),
        },
        text: Ok(trimmed),
    }
}

fn reading(parts: Vec<PathReading>) -> SourceReading {
    SourceReading {
        parts,
        duty_text: String::new(),
        clocks: Vec::new(),
    }
}

fn source(reader: MetricReader) -> MetricSource {
    MetricSource::new(
        MetricKey::UtilizationOverall,
        reader,
        MetricQuality::Direct,
        "fixture",
        1,
    )
}

fn read(reader: MetricReader, text: &str) -> Result<MetricValue, MetricReadError> {
    let source = source(reader);
    let unit = source.reader.unit();
    source.read(&reading(vec![part(text, unit)]), "/device")
}

fn value_of(result: Result<MetricValue, MetricReadError>) -> f64 {
    match result {
        Ok(MetricValue::Number(value)) => f64::from_bits(value.bits),
        other => panic!("expected a number, got {other:?}"),
    }
}

#[test]
fn amd_unlabelled_temperature_indices_use_documented_meanings() {
    assert_eq!(
        temperature_semantic(GpuVendor::Amd, 1, None).map(|value| value.0),
        Some(MetricKey::TemperatureEdgeCelsius)
    );
    assert_eq!(
        temperature_semantic(GpuVendor::Amd, 2, None).map(|value| value.0),
        Some(MetricKey::TemperatureHotspotCelsius)
    );
    assert_eq!(
        temperature_semantic(GpuVendor::Amd, 3, None).map(|value| value.0),
        Some(MetricKey::TemperatureMemoryCelsius)
    );
}

#[test]
fn labelled_temperature_wins_over_vendor_index_fallback() {
    assert_eq!(
        temperature_semantic(GpuVendor::Amd, 1, Some("junction")).map(|value| value.0),
        Some(MetricKey::TemperatureHotspotCelsius)
    );
}

#[test]
fn converts_hwmon_units_without_treating_zero_as_unavailable() {
    let temperature = read(MetricReader::MilliCelsius("/temp1_input".into()), "0\n");
    assert_eq!(value_of(temperature), 0.0);
    let power = read(
        MetricReader::MicroWatts("/power1_average".into()),
        "125000000\n",
    );
    assert_eq!(value_of(power), 125.0);
}

#[test]
fn rejects_out_of_range_percentages() {
    let error = read(MetricReader::Percent("/gpu_busy_percent".into()), "101\n").unwrap_err();
    assert_eq!(error.reason, UnavailableReason::ProviderError);
    assert_eq!(
        error.message,
        "/gpu_busy_percent: percentage 101 was outside 0..=100"
    );
}

#[test]
fn maps_permission_denied_without_turning_it_into_zero() {
    let error = MetricReadError::from_io(
        "/fixture/value",
        &ReadFault {
            kind: FaultKind::PermissionDenied,
            words: "permission denied".into(),
            device_exists: false,
        },
    );
    assert_eq!(error.reason, UnavailableReason::PermissionDenied);
}

#[test]
fn a_missing_attribute_of_a_present_device_is_temporary() {
    let fault = |device_exists| ReadFault {
        kind: FaultKind::NotFound,
        words: "gone".into(),
        device_exists,
    };
    let here = MetricReadError::from_io("/a", &fault(true));
    assert_eq!(here.reason, UnavailableReason::TemporarilyUnavailable);
    assert_eq!(here.message, "could not read /a: gone");
    let lost = MetricReadError::from_io("/a", &fault(false));
    assert_eq!(lost.reason, UnavailableReason::DeviceLost);
    let other = MetricReadError::from_io(
        "/a",
        &ReadFault {
            kind: FaultKind::Interrupted,
            words: "again".into(),
            device_exists: true,
        },
    );
    assert_eq!(other.reason, UnavailableReason::TemporarilyUnavailable);
}

#[test]
fn the_gravest_error_of_several_counts() {
    let error = |reason, message: &str| MetricReadError {
        reason,
        message: message.into(),
    };
    let errors = vec![
        error(UnavailableReason::TemporarilyUnavailable, "a"),
        error(UnavailableReason::PermissionDenied, "b"),
        error(UnavailableReason::DeviceLost, "c"),
        error(UnavailableReason::PermissionDenied, "d"),
    ];
    assert_eq!(select_error(&errors).unwrap().message, "d");
    assert!(select_error(&Vec::new()).is_none());
}

#[test]
fn units_are_exact() {
    assert_eq!(
        value_of(read(MetricReader::MilliCelsius("/t".into()), "-5500")),
        -5.5
    );
    assert_eq!(
        value_of(read(MetricReader::MicroJoules("/e".into()), "1234567")),
        1.234567
    );
    assert_eq!(
        value_of(read(MetricReader::HertzToMhz("/f".into()), "2100000000")),
        2100.0
    );
    assert_eq!(value_of(read(MetricReader::Rpm("/r".into()), "1600")), 1600.0);
    assert!(matches!(
        read(MetricReader::Bytes("/b".into()), "0x10"),
        Ok(MetricValue::Integer(16))
    ));
}

#[test]
fn implausible_readings_are_errors() {
    let cold = read(MetricReader::MilliCelsius("/t".into()), "-100001").unwrap_err();
    assert_eq!(cold.message, "/t: temperature -100.001 C was implausible");
    let hot = read(MetricReader::MilliCelsius("/t".into()), "250001").unwrap_err();
    assert_eq!(hot.message, "/t: temperature 250.001 C was implausible");
    let negative = read(MetricReader::MicroWatts("/p".into()), "-1000000").unwrap_err();
    assert_eq!(negative.message, "/p: value -1 was negative");
    let endless = read(MetricReader::Rpm("/r".into()), "inf").unwrap_err();
    assert_eq!(endless.message, "/r: value was not finite");
    let words = read(MetricReader::Rpm("/r".into()), "fast").unwrap_err();
    assert_eq!(words.message, "/r: invalid float literal");
    let overflow = read(MetricReader::Bytes("/b".into()), "18446744073709551616").unwrap_err();
    assert_eq!(
        overflow.message,
        "/b: number too large to fit in target type"
    );
}

#[test]
fn a_fan_duty_is_taken_of_its_maximum() {
    let reader = || MetricReader::PwmPercent {
        input: "/pwm1".into(),
        maximum: Some("/pwm1_max".into()),
    };
    let half = source(reader()).read(
        &reading(vec![part("51", Unit::One), part("102", Unit::One)]),
        "/device",
    );
    assert_eq!(value_of(half), 50.0);
    let mut absent = part("", Unit::One);
    absent.present = false;
    let full = source(reader()).read(&reading(vec![part("255", Unit::One), absent]), "/device");
    assert_eq!(value_of(full), 100.0);
    let zero = source(reader())
        .read(
            &reading(vec![part("51", Unit::One), part("0", Unit::One)]),
            "/device",
        )
        .unwrap_err();
    assert_eq!(zero.message, "/pwm1_max: PWM maximum was not positive");
    let mut over = reading(vec![part("300", Unit::One), part("200", Unit::One)]);
    over.duty_text = "150".into();
    let over = source(reader()).read(&over, "/device").unwrap_err();
    assert_eq!(over.message, "/pwm1: PWM percentage 150 was outside 0..=100");
}

#[test]
fn the_highest_of_several_clocks_counts() {
    let several = source(MetricReader::MaximumMhz(vec!["/a".into(), "/b".into()]));
    let value = several.read(
        &reading(vec![part("800", Unit::One), part("1200", Unit::One)]),
        "/device",
    );
    assert_eq!(value_of(value), 1200.0);
    let none = several
        .read(
            &reading(vec![part("-1", Unit::One), part("x", Unit::One)]),
            "/device",
        )
        .unwrap_err();
    assert_eq!(none.message, "/b: invalid float literal");
    let empty = source(MetricReader::MaximumMhz(Vec::new()))
        .read(&reading(Vec::new()), "/device")
        .unwrap_err();
    assert_eq!(empty.message, "/device: no clock paths were present");
}

#[test]
fn a_source_is_present_where_a_path_can_be_read() {
    let several = source(MetricReader::MaximumMhz(vec!["/a".into(), "/b".into()]));
    let mut first = part("1", Unit::One);
    first.present = false;
    assert!(several.is_present(&vec![first, part("2", Unit::One)]));
    let mut gone = part("1", Unit::One);
    gone.present = false;
    assert!(!several.is_present(&vec![gone]));
    let busy = source(MetricReader::Percent("/busy".into()));
    assert!(busy.probe(&reading(vec![part("5", Unit::One)]), "/device"));
    assert!(!busy.probe(&reading(vec![part("500", Unit::One)]), "/device"));
}

#[test]
fn parses_hex_and_decimal_sysfs_numbers() {
    assert_eq!(parse_u64("0x1002\n"), Ok(0x1002));
    assert_eq!(parse_u64("4294967296"), Ok(4_294_967_296));
    assert!(parse_u64("18446744073709551616").is_err());
}

#[test]
fn parses_active_amd_dpm_clock_without_assuming_state_index() {
    let value = "0: 500Mhz\n1: 2100Mhz *\n2: 2400Mhz\n";
    let texts = active_clock_texts(value).unwrap();
    let clocks: Vec<Option<Binary64>> = texts
        .iter()
        .map(|text| text.trim().parse::<f64>().ok().map(number))
        .collect();
    assert_eq!(highest_active_clock(&clocks), Ok(number(2_100.0)));
    assert!(active_clock_texts("0: 500Mhz").is_err());
}

#[test]
fn accepts_only_primary_drm_node_names() {
    assert!(drm_node_name("card0"));
    assert!(drm_node_name("renderD128"));
    assert!(!drm_node_name("card0-DP-1"));
    assert!(!drm_node_name("card"));
}

#[test]
fn parses_numbered_hwmon_attributes_strictly() {
    assert_eq!(
        numbered_attribute("temp12_input", "temp", "_input"),
        Some(12)
    );
    assert_eq!(
        numbered_attribute("temperature_input", "temp", "_input"),
        None
    );
}

#[test]
fn rejects_oversized_and_non_utf8_sysfs_values() {
    assert_eq!(
        attribute_text(vec![b'x'; 65_536 + 1]),
        Err(TextFault::TooLong)
    );
    assert_eq!(attribute_text(vec![0xff]), Err(TextFault::NotUtf8));
    assert_eq!(attribute_text(b" 42\n".to_vec()), Ok("42".to_string()));
}

#[test]
fn uevent_values_are_found_by_key() {
    assert_eq!(
        uevent_value("DRIVER=amdgpu\nPCI_CLASS=30000\n", "DRIVER"),
        Some("amdgpu".to_string())
    );
    assert_eq!(uevent_value("DRIVER=amdgpu\n", "MODALIAS"), None);
}

#[test]
fn pci_addresses_are_recognised() {
    assert!(looks_like_pci_address("0000:03:00.0"));
    assert!(!looks_like_pci_address("0000:03:00"));
    assert!(!looks_like_pci_address("simple-framebuffer.0"));
}

#[test]
fn drivers_tell_what_a_device_is() {
    for driver in [
        "simpledrm",
        "simple-framebuffer",
        "efi-framebuffer",
        "vkms",
        "vgem",
    ] {
        assert!(is_software_driver(&Some(driver.to_string())), "{driver}");
    }
    assert_eq!(gpu_kind(&Some("qxl".to_string())), GpuKind::Virtual);
    assert_eq!(gpu_kind(&Some("asahi".to_string())), GpuKind::Integrated);
    assert_eq!(gpu_kind(&Some("amdgpu".to_string())), GpuKind::Unknown);
    assert!(!is_software_driver(&Some("amdgpu".to_string())));
    assert!(!is_software_driver(&None));
}

fn entry(name: &str) -> SysEntry {
    SysEntry {
        name: name.into(),
        is_file: true,
        present: true,
    }
}

fn bare_facts(path: &str, relative: &str) -> DeviceFacts {
    DeviceFacts {
        device_path: path.into(),
        relative_path: relative.into(),
        pci_address: None,
        drm_nodes: SortedSet::new(),
        driver_module: None,
        driver_link: None,
        module_version: None,
        physical_function: None,
        attributes: SortedMap::new(),
        hwmon: Vec::new(),
        cards: Vec::new(),
        tiles: Vec::new(),
        clocks_present: SortedSet::new(),
    }
}

fn set(facts: &mut DeviceFacts, name: &str, value: &str) {
    facts.attributes.insert(name.to_string(), value.to_string());
}

const AMD: &str = "/sys/devices/pci0000:00/0000:03:00.0";

fn amd_facts() -> DeviceFacts {
    let mut facts = bare_facts(AMD, "devices/pci0000:00/0000:03:00.0");
    facts.pci_address = Some("0000:03:00.0".into());
    facts.drm_nodes.insert("card0".to_string());
    for (name, value) in [
        ("class", "0x030000"),
        ("vendor", "0x1002"),
        ("device", "0x744c"),
        ("subsystem_vendor", "0x1da2"),
        ("subsystem_device", "0xe471"),
        ("uevent", "DRIVER=amdgpu"),
        ("gpu_busy_percent", "42"),
        ("mem_busy_percent", "13"),
        ("mem_info_vram_total", "25769803776"),
        ("mem_info_vram_used", "4294967296"),
        ("mem_info_gtt_total", "17179869184"),
        ("mem_info_gtt_used", "1073741824"),
        ("pp_dpm_sclk", "0: 500Mhz\n1: 2100Mhz *"),
        ("pp_dpm_mclk", "0: 96Mhz\n1: 1249Mhz *"),
    ] {
        set(&mut facts, name, value);
    }
    let mut labels = SortedMap::new();
    labels.insert("temp1_label".to_string(), "edge".to_string());
    labels.insert("temp2_label".to_string(), "junction".to_string());
    facts.hwmon.push(HwmonDirectory {
        path: format!("{AMD}/hwmon/hwmon0"),
        chip: "amdgpu".into(),
        entries: [
            "name",
            "temp1_input",
            "temp1_label",
            "temp2_input",
            "temp2_label",
            "power1_average",
            "fan1_input",
        ]
        .into_iter()
        .map(entry)
        .collect(),
        labels,
    });
    facts
}

/// What the paths of the fixture hold.
fn contents(path: &str) -> &'static str {
    match path.rsplit('/').next().unwrap() {
        "gpu_busy_percent" => "42",
        "mem_busy_percent" => "13",
        "mem_info_vram_used" => "4294967296",
        "mem_info_gtt_used" => "1073741824",
        "pp_dpm_sclk" => "0: 500Mhz\n1: 2100Mhz *",
        "pp_dpm_mclk" => "0: 96Mhz\n1: 1249Mhz *",
        "temp1_input" => "51000",
        "temp2_input" => "72000",
        "power1_average" => "220000000",
        "fan1_input" => "1600",
        other => panic!("unexpected path {other}"),
    }
}

fn fixture_reading(source: &MetricSource) -> SourceReading {
    let unit = source.reader.unit();
    let parts: Vec<PathReading> = source
        .reader
        .paths()
        .iter()
        .map(|path| part(contents(path), unit))
        .collect();
    let clocks = match &source.reader {
        MetricReader::ActiveDpmMhz(path) => active_clock_texts(contents(path))
            .unwrap()
            .iter()
            .map(|text| text.trim().parse::<f64>().ok().map(number))
            .collect(),
        _ => Vec::new(),
    };
    SourceReading {
        parts,
        duty_text: String::new(),
        clocks,
    }
}

fn amd_record() -> LinuxDeviceRecord {
    let mut facts = amd_facts();
    let groups = plan_device(&mut facts, false).expect("a device");
    let readings = groups
        .iter()
        .map(|group| group.sources.iter().map(fixture_reading).collect())
        .collect();
    build_record(&facts, groups, &readings)
}

#[test]
fn unions_pci_and_drm_inventory_and_detects_amd_capabilities() {
    let roots = LinuxRoots::new("/sys", "/proc", "/dev");
    let discovery = collect_devices(
        &roots,
        &Listing::Entries {
            entries: vec![PciEntry {
                name: "0000:03:00.0".into(),
                device_path: Some(AMD.into()),
                class: Some("0x030000".into()),
            }],
            truncated: false,
        },
        &Listing::Entries {
            entries: vec![DrmEntry {
                node: "card0".into(),
                device_path: Some(AMD.into()),
            }],
            truncated: false,
        },
    );
    assert_eq!(discovery.devices.len(), 1);
    assert_eq!(
        discovery.devices[0].pci_address,
        Some("0000:03:00.0".to_string())
    );
    assert_eq!(discovery.devices[0].drm_nodes.len(), 1);

    let record = amd_record();
    assert_eq!(record.provider_device_id, "0000:03:00.0");
    assert_eq!(record.observation.vendor, GpuVendor::Amd);
    assert_eq!(
        record.observation.memory.dedicated_total_bytes,
        Some(25_769_803_776)
    );
    assert!(record
        .observation
        .capabilities
        .supports(MetricKey::UtilizationOverall));
    assert!(record
        .observation
        .capabilities
        .supports(MetricKey::TemperatureHotspotCelsius));
}

#[test]
fn non_display_pci_functions_are_not_gpus() {
    let roots = LinuxRoots::host();
    let discovery = collect_devices(
        &roots,
        &Listing::Entries {
            entries: vec![PciEntry {
                name: "0000:04:00.0".into(),
                device_path: Some("/sys/devices/pci0000:00/0000:04:00.0".into()),
                class: Some("0x020000".into()),
            }],
            truncated: false,
        },
        &Listing::Entries {
            entries: Vec::new(),
            truncated: false,
        },
    );
    assert!(discovery.devices.is_empty());
}

/// The device that a link of the fixture resolves to, where it lies below the root.
fn resolved(target: &str, root: &str) -> Option<String> {
    is_below(&target.as_bytes().to_vec(), &root.as_bytes().to_vec()).then_some(target.to_string())
}

#[test]
fn ignores_pci_symlinks_that_escape_the_injected_sysfs_root() {
    let roots = LinuxRoots::new("/fixture/sys", "/fixture/proc", "/fixture/dev");
    let discover = |target: &str| {
        collect_devices(
            &roots,
            &Listing::Entries {
                entries: vec![PciEntry {
                    name: "0000:01:00.0".into(),
                    device_path: resolved(target, &roots.sys),
                    class: Some("0x030000".into()),
                }],
                truncated: false,
            },
            &Listing::Missing,
        )
    };
    assert!(discover("/fixture/outside-sysfs-device").devices.is_empty());
    assert!(discover("/fixture/sys-device").devices.is_empty());
    assert_eq!(discover("/fixture/sys/devices/inside").devices.len(), 1);
}

#[test]
fn rejects_symlinked_attributes_outside_the_trusted_device_directory() {
    let device = b"/fixture/root/device".to_vec();
    assert_eq!(
        check_within(&b"/fixture/outside".to_vec(), &device),
        Err(FaultKind::PermissionDenied)
    );
    assert_eq!(
        check_within(&b"/fixture/root/device/value".to_vec(), &device),
        Ok(())
    );
}

#[test]
fn limits_tile_and_gt_directory_enumeration() {
    let attempts: Vec<Option<ChildEntry>> = (0..=MAX_CHILD_DEVICE_ENTRIES)
        .map(|index| {
            Some(ChildEntry {
                name: format!("tile{index}"),
                directory: Some(format!("{AMD}/tiles/tile{index}")),
            })
        })
        .collect();
    let (entries, truncated) = bound_entries(attempts, MAX_CHILD_DEVICE_ENTRIES);
    assert!(truncated);
    assert_eq!(
        child_directories(&entries, "tile").len(),
        MAX_CHILD_DEVICE_ENTRIES
    );
}

#[test]
fn bounds_directory_enumeration_attempts() {
    let attempts: Vec<Option<u32>> = (0..5).map(Some).collect();
    let (entries, truncated) = bound_entries(attempts, 4);
    assert_eq!(entries, vec![0, 1, 2, 3]);
    assert!(truncated);
    let (entries, truncated) = bound_entries(vec![Some(1), None, Some(2)], 4);
    assert_eq!(entries, vec![1, 2]);
    assert!(!truncated);
}

#[test]
fn intel_inventory_does_not_claim_unsupported_global_utilization() {
    let mut facts = bare_facts(
        "/sys/devices/pci0000:00/0000:00:02.0",
        "devices/pci0000:00/0000:00:02.0",
    );
    facts.pci_address = Some("0000:00:02.0".into());
    set(&mut facts, "class", "0x030000");
    set(&mut facts, "vendor", "0x8086");
    set(&mut facts, "device", "0x46a6");
    set(&mut facts, "uevent", "DRIVER=i915");
    let groups = plan_device(&mut facts, false).expect("a device");
    let readings = groups.iter().map(|_| Vec::new()).collect();
    let record = build_record(&facts, groups, &readings);
    assert_eq!(record.observation.vendor, GpuVendor::Intel);
    assert!(!record
        .observation
        .capabilities
        .supports(MetricKey::UtilizationOverall));
}

#[test]
fn software_drm_adapters_are_filtered_unless_requested() {
    let facts = || {
        let mut facts = bare_facts(
            "/sys/devices/platform/simple-framebuffer.0",
            "devices/platform/simple-framebuffer.0",
        );
        facts.drm_nodes.insert("card0".to_string());
        facts.cards.push(CardFacts {
            card: "card0".into(),
            gts: Vec::new(),
        });
        set(&mut facts, "uevent", "DRIVER=simpledrm");
        facts
    };
    assert!(plan_device(&mut facts(), false).is_none());
    assert!(plan_device(&mut facts(), true).is_some());
}

#[test]
fn hwmon_labels_name_their_sensors() {
    let facts = amd_facts();
    let sources = discover(facts.hwmon, GpuVendor::Amd);
    let keys: Vec<MetricKey> = sources.iter().map(|source| source.key).collect();
    assert!(keys.contains(&MetricKey::TemperatureEdgeCelsius));
    assert!(keys.contains(&MetricKey::TemperatureHotspotCelsius));
    assert!(keys.contains(&MetricKey::PowerDrawWatts));
    assert!(keys.contains(&MetricKey::FanRpm));
    assert!(!keys.contains(&MetricKey::TemperatureMemoryCelsius));
}

fn installed() -> LinuxSysfsProvider {
    let mut provider = LinuxSysfsProvider::new(false);
    let observations = provider.install(InventoryResult {
        records: vec![amd_record()],
        warnings: Vec::new(),
        sysfs_available: true,
    });
    assert_eq!(observations.len(), 1);
    provider
}

/// A device that is idle and tells nothing but that.
fn idle_record() -> LinuxDeviceRecord {
    let mut facts = bare_facts(AMD, "devices/pci0000:00/0000:03:00.0");
    facts.pci_address = Some("0000:03:00.0".into());
    for (name, value) in [
        ("class", "0x030000"),
        ("vendor", "0x1002"),
        ("device", "0x744c"),
        ("uevent", "DRIVER=amdgpu"),
        ("gpu_busy_percent", "0"),
    ] {
        set(&mut facts, name, value);
    }
    let groups = plan_device(&mut facts, false).expect("a device");
    let readings = groups
        .iter()
        .map(|group| group.sources.iter().map(idle_reading).collect())
        .collect();
    build_record(&facts, groups, &readings)
}

fn idle_reading(source: &MetricSource) -> SourceReading {
    assert_eq!(source.reader.paths(), vec![format!("{AMD}/gpu_busy_percent")]);
    reading(vec![part("0", Unit::One)])
}

fn sample_idle(device_exists: bool) -> ProviderSample {
    let mut provider = LinuxSysfsProvider::new(false);
    let gpu = correlate(provider.install(InventoryResult {
        records: vec![idle_record()],
        warnings: Vec::new(),
        sysfs_available: true,
    }))
    .remove(0);
    let record = provider.record_for(&gpu).expect("the record");
    let readings: Vec<GroupReading> = record
        .metric_sources
        .iter()
        .map(|group| GroupReading {
            device_exists,
            readings: if device_exists {
                group.sources.iter().map(idle_reading).collect()
            } else {
                Vec::new()
            },
        })
        .collect();
    sample_record(
        record,
        &readings,
        &SampleRequest::default(),
        &gpu.identity.id,
        7,
    )
}

#[test]
fn zero_busy_is_an_available_metric() {
    let sample = sample_idle(true);
    let utilization = sample
        .metrics
        .iter()
        .find(|metric| metric.metric == MetricKey::UtilizationOverall)
        .expect("utilization");
    assert!(matches!(utilization.value, MetricValue::Number(value) if value == number(0.0)));
}

#[test]
fn disappearing_device_is_reported_as_device_lost() {
    let sample = sample_idle(false);
    assert_eq!(sample.unavailable.len(), 1);
    assert_eq!(sample.unavailable[0].reason, UnavailableReason::DeviceLost);
    assert!(sample.metrics.is_empty());
}

#[test]
fn every_source_of_a_device_is_sampled() {
    let provider = installed();
    let gpu = correlate(vec![amd_record().observation]).remove(0);
    let record = provider.record_for(&gpu).expect("the record");
    let readings: Vec<GroupReading> = record
        .metric_sources
        .iter()
        .map(|group| GroupReading {
            device_exists: true,
            readings: group
                .sources
                .iter()
                .map(|source| {
                    if group.key == MetricKey::UtilizationOverall {
                        reading(vec![part("0", Unit::One)])
                    } else {
                        fixture_reading(source)
                    }
                })
                .collect(),
        })
        .collect();
    let sample = sample_record(
        record,
        &readings,
        &SampleRequest::default(),
        &gpu.identity.id,
        7,
    );
    let utilization = sample
        .metrics
        .iter()
        .find(|metric| metric.metric == MetricKey::UtilizationOverall)
        .expect("utilization");
    assert!(matches!(utilization.value, MetricValue::Number(value) if value == number(0.0)));
    let clock = sample
        .metrics
        .iter()
        .find(|metric| metric.metric == MetricKey::ClockGraphicsMhz)
        .expect("clock");
    assert!(matches!(clock.value, MetricValue::Number(value) if value == number(2100.0)));
    let power = sample
        .metrics
        .iter()
        .find(|metric| metric.metric == MetricKey::PowerDrawWatts)
        .expect("power");
    assert!(matches!(power.value, MetricValue::Number(value) if value == number(220.0)));
    assert!(sample.unavailable.is_empty());
}

#[test]
fn the_linux_provider_reports_what_it_found() {
    let provider = installed();
    let diagnostic = provider.diagnostic();
    assert!(diagnostic.loaded);
    assert_eq!(diagnostic.devices_matched, 1);
    assert_eq!(diagnostic.reason, None);
    let gpu = correlate(vec![amd_record().observation]).remove(0);
    assert!(provider
        .capabilities(&gpu)
        .supports(MetricKey::UtilizationOverall));
    assert_eq!(LinuxSysfsProvider::metadata().id, "linux-sysfs");
}

#[test]
fn paths_lie_below_whole_components() {
    let below = |path: &str, root: &str| {
        is_below(&path.as_bytes().to_vec(), &root.as_bytes().to_vec())
    };
    let rest = |path: &str, root: &str| {
        rest_below(&path.as_bytes().to_vec(), &root.as_bytes().to_vec())
            .map(|rest| String::from_utf8(rest).unwrap())
    };
    for (path, root) in [
        ("/sys/devices/gpu", "/sys"),
        ("/sys/devices/gpu", "/sys/"),
        ("/sys", "/sys"),
        ("/systems", "/sys"),
        ("/etc/passwd", "/sys"),
        ("sys/devices", "/sys"),
        ("/", "/sys"),
        ("/sys//a/./b/", "/sys"),
        ("./a", "a"),
        ("a/./b", "a"),
        ("a", ""),
    ] {
        assert_eq!(
            below(path, root),
            std::path::Path::new(path).starts_with(root),
            "{path} below {root}"
        );
        assert_eq!(
            rest(path, root),
            std::path::Path::new(path)
                .strip_prefix(root)
                .ok()
                .map(|rest| rest.display().to_string()),
            "{path} without {root}"
        );
    }
    assert!(below("/sys/devices/gpu/vendor", "/sys/devices/gpu"));
    assert!(!below("/etc/vendor", "/sys/devices/gpu"));
    assert_eq!(rest("/sys/devices/gpu", "/sys"), Some("devices/gpu".to_string()));
}

#[test]
fn a_reading_has_a_clock_for_each_active_state() {
    let reader = MetricReader::ActiveDpmMhz("/pp_dpm_sclk".into());
    let text = "0: 500Mhz\n1: 2100Mhz *";
    let with_clocks = |clocks: Vec<Option<Binary64>>| SourceReading {
        parts: vec![part(text, Unit::One)],
        duty_text: String::new(),
        clocks,
    };
    assert!(reader.fits(&with_clocks(vec![Some(number(2_100.0))])));
    assert!(!reader.fits(&with_clocks(Vec::new())));
    assert!(!reader.fits(&with_clocks(vec![Some(number(1.0)), Some(number(2.0))])));
    assert!(!reader.fits(&reading(Vec::new())));
}

#[test]
fn sources_go_by_the_given_vendor_and_driver() {
    let found = |vendor: GpuVendor, driver: Option<String>| {
        discover_device_sources(&mut amd_facts(), vendor, &driver)
            .iter()
            .any(|source| source.key == MetricKey::UtilizationOverall)
    };
    assert!(found(GpuVendor::Amd, None));
    assert!(found(GpuVendor::Unknown, Some("amdgpu".into())));
    assert!(!found(GpuVendor::Intel, Some("i915".into())));
}
