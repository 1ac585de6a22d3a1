use let_smi_core::correlation::{correlate, normalize_pci_address};
use let_smi_core::{
    CapabilitySet, DeviceObservation, GpuVendor, MetricKey, PciIdentity, WindowsIdentity,
};

fn observation(provider: &str, device_id: &str) -> DeviceObservation {
    let mut observation =
        DeviceObservation::new(provider, device_id, GpuVendor::Amd, "Radeon RX 7900 XTX");
    observation.pci = Some(PciIdentity {
        address: Some("0000:03:00.0".into()),
        vendor_id: 0x1002,
        device_id: 0x744c,
        subsystem_vendor_id: None,
        subsystem_device_id: None,
    });
    observation
}

#[test]
fn merges_the_same_pci_device_field_by_field() {
    let mut sysfs = observation("linux-sysfs", "card0");
    sysfs.capabilities = CapabilitySet::new(vec![MetricKey::TemperatureCoreCelsius]);
    let mut vendor = observation("amd-linux", "amd-0");
    vendor.uuid = Some("GPU-abc".into());
    vendor.capabilities = CapabilitySet::new(vec![MetricKey::UtilizationOverall]);

    let devices = correlate(vec![sysfs, vendor]);
    assert_eq!(devices.len(), 1);
    assert!(devices[0]
        .capability_set
        .supports(MetricKey::TemperatureCoreCelsius));
    assert!(devices[0]
        .capability_set
        .supports(MetricKey::UtilizationOverall));
    assert_eq!(devices[0].identity.uuid, Some("GPU-abc".to_string()));
}

#[test]
fn stable_id_does_not_depend_on_enumeration_order() {
    let first = observation("linux-sysfs", "card0");
    let second = observation("amd-linux", "amd-0");
    let left = correlate(vec![first.duplicate(), second.duplicate()]);
    let right = correlate(vec![second, first]);
    assert_eq!(left[0].identity.id, right[0].identity.id);
}

#[test]
fn identical_names_do_not_merge_without_an_explicit_ordinal() {
    let mut first = observation("provider-a", "a");
    let mut second = observation("provider-b", "b");
    first.pci = None;
    second.pci = None;

    assert_eq!(correlate(vec![first, second]).len(), 2);
}

#[test]
fn unknown_observation_cannot_bridge_conflicting_vendors() {
    let mut unknown = DeviceObservation::new("generic", "u", GpuVendor::Unknown, "GPU");
    unknown.uuid = Some("shared".into());
    let mut amd = DeviceObservation::new("amd", "a", GpuVendor::Amd, "AMD GPU");
    amd.uuid = Some("shared".into());
    let mut nvidia = DeviceObservation::new("nvidia", "n", GpuVendor::Nvidia, "NVIDIA GPU");
    nvidia.uuid = Some("shared".into());

    let devices = correlate(vec![unknown, amd, nvidia]);
    assert_eq!(devices.len(), 2);
    assert!(devices
        .iter()
        .any(|gpu| gpu.identity.vendor == GpuVendor::Amd));
    assert!(devices
        .iter()
        .any(|gpu| gpu.identity.vendor == GpuVendor::Nvidia));
}
