//! The temperature of the graphics device, from the system management controller.
use crate::binary64::Binary64;
use crate::float_arithmetic::{lemma_integer_positive, nearest_bits};
use crate::json::Json;
use crate::merge::{absences, text_view, values, AbsenceModel, ValueModel};
use crate::model::{
    CanonicalGpu, CapabilitySet, DeviceObservation, GpuKind, GpuVendor, MacosIdentity,
    MemoryTopology, MetricKey, MetricObservation, MetricQuality, MetricValue, ProviderDiagnostic,
    ProviderSample, SampleRequest, StaticMemoryInfo, TimestampMs, UnavailableObservation,
};
use crate::provider::ProviderMetadata;
use crate::providers::macos::metal_inventory::{registry_string, registry_text};
use crate::providers::macos::smc_protocol::{
    is_gpu_temperature, is_gpu_temperature_key, is_plausible, passing, KeyInfo, SmcFailure,
    SmcFailureModel, TemperatureSensor, MAX_GPU_TEMPERATURE_KEYS,
};
use crate::sorted_map::{lists_keys, SortedSet};
use crate::text::{
    chars_of, contains, decimal, decimal_text, extend_text, has, lower, lowered, owned, string_of,
};
use vstd::prelude::*;

verus! {

/// The name of the provider.
pub open spec fn smc_name() -> Seq<char> {
    "apple-smc"@
}

/// The search for sensors among the keys of the controller.
pub struct SensorScan {
    sensors: Vec<TemperatureSensor>,
}

impl View for SensorScan {
    type V = Seq<TemperatureSensor>;

    closed spec fn view(&self) -> Seq<TemperatureSensor> {
        self.sensors@
    }
}

/// The sensors that a search found or that are known by name.
pub open spec fn found_sensors(
    scanned: Seq<TemperatureSensor>,
    known: Seq<TemperatureSensor>,
) -> Set<TemperatureSensor> {
    Set::new(
        |sensor: TemperatureSensor|
            scanned.contains(sensor) || (known.contains(sensor) && is_gpu_temperature(
                sensor.key,
                sensor.info,
            )),
    )
}

/// As many sensors as are read.
pub open spec fn first_read(all: Seq<TemperatureSensor>) -> Seq<TemperatureSensor> {
    if all.len() < MAX_GPU_TEMPERATURE_KEYS {
        all
    } else {
        all.take(MAX_GPU_TEMPERATURE_KEYS as int)
    }
}

/// The list holds the first members of a set, in their order, as many as are read.
pub open spec fn lists_first(list: Seq<TemperatureSensor>, set: Set<TemperatureSensor>) -> bool {
    exists|all: Seq<TemperatureSensor>|
        lists_keys::<TemperatureSensor>(all, set) && list == #[trigger] first_read(all)
}

impl SensorScan {
    pub fn new() -> (scan: Self)
        ensures
            scan@ == Seq::<TemperatureSensor>::empty(),
    {
        SensorScan { sensors: Vec::new() }
    }

    /// There are as many sensors as are read.
    pub fn is_full(&self) -> (full: bool)
        ensures
            full == (self@.len() >= MAX_GPU_TEMPERATURE_KEYS),
    {
        self.sensors.len() >= MAX_GPU_TEMPERATURE_KEYS
    }

    /// One more key, which may be a sensor.
    pub fn offer(&mut self, key: u32, info: KeyInfo)
        ensures
            final(self)@ == if old(self)@.len() < MAX_GPU_TEMPERATURE_KEYS && is_gpu_temperature(
                key,
                info,
            ) {
                old(self)@.push(TemperatureSensor { key, info })
            } else {
                old(self)@
            },
    {
        if self.sensors.len() < MAX_GPU_TEMPERATURE_KEYS && is_gpu_temperature_key(key, info) {
            self.sensors.push(TemperatureSensor { key, info });
        }
    }

    /// The sensors to be read: those that were found, and those that are known by name, each
    /// once, in the order of their keys.
    pub fn finish(self, known: &Vec<TemperatureSensor>) -> (sensors: Vec<TemperatureSensor>)
        ensures
            lists_first(sensors@, found_sensors(self@, known@)),
    {
        let mut set: SortedSet<TemperatureSensor> = SortedSet::new();
        let scanned = self.sensors;
        let mut i: usize = 0;
        while i < scanned.len()
            invariant
                i <= scanned.len(),
                forall|s: TemperatureSensor|
                    set@.contains(s) <==> scanned@.take(i as int).contains(s),
            decreases scanned.len() - i,
        {
            let ghost before = scanned@.take(i as int);
            set.insert(scanned[i]);
            assert(scanned@.take(i + 1) == before.push(scanned@[i as int]));
            assert forall|s: TemperatureSensor|
                set@.contains(s) <==> scanned@.take(i + 1).contains(s) by {
                lemma_contains_push(before, scanned@[i as int], s);
            }
            i = i + 1;
        }
        assert(scanned@.take(i as int) == scanned@);
        let mut k: usize = 0;
        while k < known.len()
            invariant
                k <= known.len(),
                forall|s: TemperatureSensor|
                    set@.contains(s) <==> scanned@.contains(s) || (known@.take(
                        k as int,
                    ).contains(s) && is_gpu_temperature(s.key, s.info)),
            decreases known.len() - k,
        {
            let sensor = known[k];
            let ghost before = known@.take(k as int);
            if is_gpu_temperature_key(sensor.key, sensor.info) {
                set.insert(sensor);
            }
            assert(known@.take(k + 1) == before.push(sensor));
            assert forall|s: TemperatureSensor|
                before.push(sensor).contains(s) <==> before.contains(s) || s == sensor by {
                lemma_contains_push(before, sensor, s);
            }
            k = k + 1;
        }
        assert(known@.take(k as int) == known@);
        assert(set@ =~= found_sensors(scanned@, known@));
        let mut sensors: Vec<TemperatureSensor> = Vec::new();
        let mut n: usize = 0;
        let count: usize = set.len();
        while n < count && n < MAX_GPU_TEMPERATURE_KEYS
            invariant
                n <= count == set.members().len(),
                n <= MAX_GPU_TEMPERATURE_KEYS,
                sensors@ == set.members().take(n as int),
            decreases count - n,
        {
            let sensor = *set.at(n);
            sensors.push(sensor);
            n = n + 1;
            assert(sensors@ == set.members().take(n as int));
        }
        proof {
            let all = set.members();
            assert(lists_keys::<TemperatureSensor>(all, set@));
            assert(sensors@ == first_read(all));
        }
        sensors
    }
}

proof fn lemma_contains_push(list: Seq<TemperatureSensor>, last: TemperatureSensor, s: TemperatureSensor)
    ensures
        list.push(last).contains(s) <==> list.contains(s) || s == last,
{
    let longer = list.push(last);
    if longer.contains(s) {
        let i = choose|i: int| 0 <= i < longer.len() && longer[i] == s;
        if i < list.len() {
            assert(list[i] == s);
        }
    }
    if list.contains(s) {
        let i = choose|i: int| 0 <= i < list.len() && list[i] == s;
        assert(longer[i] == s);
    }
    if s == last {
        assert(longer[list.len() as int] == s);
    }
}

/// The vendor that the name of a device gives away.
pub open spec fn sensor_vendor(name: Seq<char>) -> GpuVendor {
    let name = lower(name);
    if contains(name, "apple"@) {
        GpuVendor::Apple
    } else if contains(name, "intel"@) {
        GpuVendor::Intel
    } else if contains(name, "amd"@) || contains(name, "radeon"@) {
        GpuVendor::Amd
    } else if contains(name, "nvidia"@) || contains(name, "geforce"@) {
        GpuVendor::Nvidia
    } else {
        GpuVendor::Unknown
    }
}

pub fn vendor_from_name(name: &str) -> (vendor: GpuVendor)
    ensures
        vendor == sensor_vendor(name@),
{
    let chars = chars_of(name);
    let name = lowered(&chars);
    if has(&name, "apple") {
        GpuVendor::Apple
    } else if has(&name, "intel") {
        GpuVendor::Intel
    } else if has(&name, "amd") || has(&name, "radeon") {
        GpuVendor::Amd
    } else if has(&name, "nvidia") || has(&name, "geforce") {
        GpuVendor::Nvidia
    } else {
        GpuVendor::Unknown
    }
}

/// The sum of the temperatures of sensors.
pub open spec fn temperature_sum(readings: Seq<Binary64>) -> Binary64
    decreases readings.len(),
{
    if readings.len() == 0 {
        Binary64 { bits: 0 }
    } else {
        temperature_sum(readings.drop_last()).plus(readings.last())
    }
}

/// No reading is negative; it may be no number.
pub open spec fn none_negative(readings: Seq<Binary64>) -> bool {
    forall|i: int| 0 <= i < readings.len() ==> !(#[trigger] readings[i]).is_negative()
}

/// Every reading is a number.
pub open spec fn all_finite(readings: Seq<Binary64>) -> bool {
    forall|i: int| 0 <= i < readings.len() ==> (#[trigger] readings[i]).finite()
}

/// The temperature that sensors give together: their arithmetic mean, where there is a sensor and
/// all readings are numbers. The reading of one sensor is the device's own, a mean is an
/// estimate.
pub fn aggregate_temperature(readings: &Vec<Binary64>) -> (result: Option<
    (Binary64, MetricQuality),
>)
    requires
        none_negative(readings@),
    ensures
        match result {
            Some((value, quality)) => {
                &&& readings@.len() > 0 && all_finite(readings@)
                &&& value == temperature_sum(readings@).over(
                    Binary64 {
                        bits: nearest_bits(readings@.len()) as u64,
                    },
                )
                &&& quality == if readings@.len() == 1 {
                    MetricQuality::Direct
                } else {
                    MetricQuality::Estimated
                }
            },
            None => readings@.len() == 0 || !all_finite(readings@),
        },
{
    if readings.len() == 0 {
        return None;
    }
    let mut sum = Binary64 { bits: 0 };
    let mut i: usize = 0;
    assert(readings@.take(0) == Seq::<Binary64>::empty());
    while i < readings.len()
        invariant
            i <= readings.len(),
            none_negative(readings@),
            sum.countable(),
            sum == temperature_sum(readings@.take(i as int)),
            forall|k: int| 0 <= k < i ==> (#[trigger] readings@[k]).finite(),
        decreases readings.len() - i,
    {
        assert(readings@.take(i + 1).drop_last() == readings@.take(i as int));
        if !readings[i].is_finite() {
            assert(!readings@[i as int].finite());
            return None;
        }
        assert(!readings@[i as int].is_negative());
        sum = sum.sum_with(readings[i]);
        i = i + 1;
    }
    assert(readings@.take(i as int) == readings@);
    let count = Binary64::from_u64(readings.len() as u64);
    proof {
        lemma_integer_positive(readings@.len());
    }
    let quality = if readings.len() == 1 {
        MetricQuality::Direct
    } else {
        MetricQuality::Estimated
    };
    Some((sum.quotient_by(count), quality))
}

/// A device that Metal lists.
#[derive(Debug)]
pub struct ListedDevice {
    pub name: String,
    pub registry_id: u64,
}

/// The device can be the one that the sensors belong to.
pub open spec fn is_eligible(device: ListedDevice, apple_silicon: bool) -> bool {
    !apple_silicon || contains(lower(device.name@), "apple"@)
}

/// The places of the devices that the sensors can belong to, among the first `n`.
pub open spec fn eligible_places(devices: Seq<ListedDevice>, apple_silicon: bool, n: int) -> Seq<int>
    decreases n,
{
    if n <= 0 {
        Seq::empty()
    } else if is_eligible(devices[n - 1], apple_silicon) {
        eligible_places(devices, apple_silicon, n - 1).push(n - 1)
    } else {
        eligible_places(devices, apple_silicon, n - 1)
    }
}

fn eligible(devices: &Vec<ListedDevice>, apple_silicon: bool) -> (places: Vec<usize>)
    ensures
        places@.map_values(|place: usize| place as int) == eligible_places(
            devices@,
            apple_silicon,
            devices@.len() as int,
        ),
        forall|k: int| 0 <= k < places@.len() ==> (#[trigger] places@[k]) < devices@.len(),
{
    let mut places: Vec<usize> = Vec::new();
    let mut i: usize = 0;
    assert(places@.map_values(|place: usize| place as int) == Seq::<int>::empty());
    while i < devices.len()
        invariant
            i <= devices.len(),
            places@.map_values(|place: usize| place as int) == eligible_places(
                devices@,
                apple_silicon,
                i as int,
            ),
            forall|k: int| 0 <= k < places@.len() ==> (#[trigger] places@[k]) < devices@.len(),
        decreases devices.len() - i,
    {
        let chars = chars_of(devices[i].name.as_str());
        let name = lowered(&chars);
        if !apple_silicon || has(&name, "apple") {
            let ghost held = places@.map_values(|place: usize| place as int);
            places.push(i);
            assert(places@.map_values(|place: usize| place as int) == held.push(i as int));
        }
        i = i + 1;
    }
    places
}

/// The state of the provider.
#[derive(Debug)]
pub struct AppleSmcProvider {
    pub connected: bool,
    pub sensors: Vec<TemperatureSensor>,
    pub initialization_failure: Option<SmcFailure>,
    pub inventory_message: Option<String>,
    pub matched_devices: usize,
}

/// What is observed of the device that the sensors belong to.
pub open spec fn is_smc_observation(
    o: DeviceObservation,
    device: ListedDevice,
    has_sensors: bool,
) -> bool {
    &&& o.provider@ == smc_name()
    &&& o.provider_device_id@ == registry_text(device.registry_id)
    &&& o.vendor == sensor_vendor(device.name@)
    &&& o.name@ == device.name@
    &&& o.architecture is None
    &&& o.driver_version is None
    &&& o.firmware_version is None
    &&& o.kind == GpuKind::Unknown
    &&& o.uuid is None
    &&& o.pci is None
    &&& o.windows is None
    &&& o.macos matches Some(identity) && identity.registry_entry_id is None && text_view(
        identity.metal_registry_id,
    ) == Some(registry_text(device.registry_id))
    &&& o.parent_provider_device_id is None
    &&& o.partition is None
    &&& o.memory == StaticMemoryInfo {
        topology: MemoryTopology::Unknown,
        dedicated_total_bytes: None,
        shared_total_bytes: None,
        unified_total_bytes: None,
    }
    &&& o.capabilities.metric_set() == if has_sensors {
        Set::empty().insert(MetricKey::TemperatureCoreCelsius)
    } else {
        Set::empty()
    }
    &&& o.capabilities.vendor_extensions@ == Set::<Seq<char>>::empty()
    &&& o.identity_priority == 10
    &&& o.enumeration_ordinal is None
    &&& o.vendor_info@ == Map::<Seq<char>, Json>::empty()
}

/// What is answered for a device: its temperature, or why there is none.
pub open spec fn tells_temperature(
    sample: ProviderSample,
    readings: Seq<Result<Binary64, SmcFailure>>,
    device_id: Seq<char>,
    sampled_at: TimestampMs,
) -> bool {
    let read = good_readings(readings);
    &&& sample.processes is None
    &&& if read.len() > 0 {
        &&& sample.unavailable@.len() == 0
        &&& values(sample.metrics@) == seq![
            ValueModel {
                device_id,
                metric: MetricKey::TemperatureCoreCelsius,
                value: MetricValue::Number(
                    temperature_sum(read).over(Binary64 { bits: nearest_bits(read.len()) as u64 }),
                ),
                source: smc_name(),
                quality: if read.len() == 1 {
                    MetricQuality::Direct
                } else {
                    MetricQuality::Estimated
                },
                sampled_at,
                interval_ms: None,
                definition: Some(
                    if read.len() == 1 {
                        "AppleSMC GPU die temperature"@
                    } else {
                        "arithmetic mean of "@ + decimal(read.len())
                            + " AppleSMC GPU die temperature sensors"@
                    },
                ),
            },
        ]
    } else {
        &&& sample.metrics@.len() == 0
        &&& absences(sample.unavailable@) == seq![
            AbsenceModel {
                device_id,
                metric: MetricKey::TemperatureCoreCelsius,
                reason: first_fault(readings).reason,
                source: Some(smc_name()),
                message: Some(first_fault(readings).message),
            },
        ]
    }
}

/// The readings that are there.
pub open spec fn good_readings(readings: Seq<Result<Binary64, SmcFailure>>) -> Seq<Binary64>
    decreases readings.len(),
{
    if readings.len() == 0 {
        Seq::empty()
    } else {
        let before = good_readings(readings.drop_last());
        match readings.last() {
            Ok(value) => before.push(value),
            Err(fault) => before,
        }
    }
}

/// Why the first sensor that could not be read could not be read.
pub open spec fn first_fault(readings: Seq<Result<Binary64, SmcFailure>>) -> SmcFailureModel
    decreases readings.len(),
{
    if readings.len() == 0 {
        passing("AppleSMC returned no GPU temperature readings"@)
    } else {
        match readings[0] {
            Ok(value) => first_fault(readings.skip(1)),
            Err(fault) => fault@,
        }
    }
}

/// Every reading is a temperature that a device can have.
pub open spec fn all_plausible(readings: Seq<Result<Binary64, SmcFailure>>) -> bool {
    forall|i: int|
        0 <= i < readings.len() ==> (#[trigger] readings[i] matches Ok(value) ==> is_plausible(
            value.bits as int,
        ))
}

fn collect_readings(readings: &Vec<Result<Binary64, SmcFailure>>) -> (read: Vec<Binary64>)
    requires
        all_plausible(readings@),
    ensures
        read@ == good_readings(readings@),
        forall|k: int| 0 <= k < read@.len() ==> is_plausible((#[trigger] read@[k]).bits as int),
{
    let mut read: Vec<Binary64> = Vec::new();
    let mut i: usize = 0;
    while i < readings.len()
        invariant
            i <= readings.len(),
            all_plausible(readings@),
            read@ == good_readings(readings@.take(i as int)),
            forall|k: int| 0 <= k < read@.len() ==> is_plausible((#[trigger] read@[k]).bits as int),
        decreases readings.len() - i,
    {
        assert(readings@.take(i + 1).drop_last() == readings@.take(i as int));
        assert(readings@.take(i + 1).last() == readings@[i as int]);
        if let Ok(value) = &readings[i] {
            read.push(*value);
        }
        i = i + 1;
    }
    assert(readings@.take(i as int) == readings@);
    read
}

fn find_fault(readings: &Vec<Result<Binary64, SmcFailure>>) -> (fault: SmcFailure)
    ensures
        fault@ == first_fault(readings@),
{
    let mut i: usize = 0;
    assert(readings@.skip(0) == readings@);
    while i < readings.len()
        invariant
            i <= readings.len(),
            first_fault(readings@) == first_fault(readings@.skip(i as int)),
        decreases readings.len() - i,
    {
        assert(readings@.skip(i as int)[0] == readings@[i as int]);
        assert(readings@.skip(i as int).skip(1) == readings@.skip(i + 1));
        if let Err(fault) = &readings[i] {
            return fault.duplicate();
        }
        i = i + 1;
    }
    SmcFailure::temporary("AppleSMC returned no GPU temperature readings")
}

impl AppleSmcProvider {
    /// The provider of a controller that was opened, with the sensors that were found.
    pub fn opened(sensors: Vec<TemperatureSensor>, warning: Option<String>) -> (provider: Self)
        ensures
            provider.connected,
            provider.sensors == sensors,
            provider.initialization_failure is None,
            provider.inventory_message == warning,
            provider.matched_devices == 0,
    {
        AppleSmcProvider {
            connected: true,
            sensors,
            initialization_failure: None,
            inventory_message: warning,
            matched_devices: 0,
        }
    }

    /// The provider of a controller that could not be opened.
    pub fn closed_with(failure: SmcFailure) -> (provider: Self)
        ensures
            !provider.connected,
            provider.sensors@.len() == 0,
            provider.initialization_failure == Some(failure),
            provider.inventory_message is None,
            provider.matched_devices == 0,
    {
        AppleSmcProvider {
            connected: false,
            sensors: Vec::new(),
            initialization_failure: Some(failure),
            inventory_message: None,
            matched_devices: 0,
        }
    }

    /// The device that the sensors belong to. One group of sensors is not given to several
    /// devices.
    pub fn observe(&mut self, devices: &Vec<ListedDevice>, apple_silicon: bool) -> (observations:
        Vec<DeviceObservation>)
        ensures
            final(self).connected == old(self).connected,
            final(self).sensors == old(self).sensors,
            final(self).initialization_failure == old(self).initialization_failure,
            ({
                let places = eligible_places(devices@, apple_silicon, devices@.len() as int);
                let has_sensors = old(self).connected && old(self).sensors@.len() > 0;
                if places.len() == 1 {
                    &&& observations@.len() == 1
                    &&& is_smc_observation(observations@[0], devices@[places[0]], has_sensors)
                    &&& final(self).matched_devices == 1
                    &&& if old(self).connected && !has_sensors && old(
                        self,
                    ).inventory_message is None {
                        text_view(final(self).inventory_message) == Some(
                            "AppleSMC exposed no supported Tg*/TG* temperature keys"@,
                        )
                    } else {
                        final(self).inventory_message == old(self).inventory_message
                    }
                } else {
                    &&& observations@.len() == 0
                    &&& final(self).matched_devices == 0
                    &&& if places.len() > 1 {
                        text_view(final(self).inventory_message) == Some(
                            "AppleSMC GPU temperature is ambiguous on a multi-GPU Mac"@,
                        )
                    } else {
                        final(self).inventory_message == old(self).inventory_message
                    }
                }
            }),
    {
        let mut observations: Vec<DeviceObservation> = Vec::new();
        let places = eligible(devices, apple_silicon);
        if places.len() != 1 {
            self.matched_devices = 0;
            if places.len() > 1 {
                self.inventory_message =
                Some(owned("AppleSMC GPU temperature is ambiguous on a multi-GPU Mac"));
            }
            return observations;
        }
        assert(places@.map_values(|place: usize| place as int)[0] == places@[0] as int);
        let device = &devices[places[0]];
        let registry_id = registry_string(device.registry_id);
        let vendor = vendor_from_name(device.name.as_str());
        let mut o = DeviceObservation::new(
            "apple-smc",
            registry_id.as_str(),
            vendor,
            device.name.as_str(),
        );
        o.identity_priority = 10;
        o.macos =
        Some(MacosIdentity { registry_entry_id: None, metal_registry_id: Some(registry_id) });
        if self.connected && self.sensors.len() > 0 {
            o.capabilities.insert(MetricKey::TemperatureCoreCelsius);
        } else if self.connected && self.inventory_message.is_none() {
            self.inventory_message =
            Some(owned("AppleSMC exposed no supported Tg*/TG* temperature keys"));
        }
        self.matched_devices = 1;
        observations.push(o);
        observations
    }

    pub fn diagnostic(&self) -> (diagnostic: ProviderDiagnostic)
        ensures
            diagnostic.id@ == smc_name(),
            diagnostic.loaded == self.connected,
            diagnostic.version is None,
            diagnostic.devices_matched == self.matched_devices,
            match self.initialization_failure {
                Some(failure) => diagnostic.reason == Some(failure.reason) && text_view(
                    diagnostic.message,
                ) == Some(failure.message@),
                None => diagnostic.reason is None && diagnostic.message == self.inventory_message,
            },
    {
        let (reason, message) = match &self.initialization_failure {
            Some(failure) => (Some(failure.reason), Some(failure.message.clone())),
            None => (None, self.inventory_message.clone()),
        };
        ProviderDiagnostic {
            id: owned("apple-smc"),
            loaded: self.connected,
            version: None,
            devices_matched: self.matched_devices,
            reason,
            message,
        }
    }

    /// The provider has observed the device.
    pub open spec fn knows(device: &CanonicalGpu) -> bool {
        device.provider_device_ids@.contains_key(smc_name())
    }

    fn has_observed(device: &CanonicalGpu) -> (known: bool)
        ensures
            known == Self::knows(device),
    {
        device.provider_device_ids.contains_key(&owned("apple-smc"))
    }

    pub fn capabilities(&self, device: &CanonicalGpu) -> (capabilities: CapabilitySet)
        ensures
            capabilities.metric_set() == if Self::knows(device) && self.connected
                && self.sensors@.len() > 0 {
                Set::empty().insert(MetricKey::TemperatureCoreCelsius)
            } else {
                Set::empty()
            },
            capabilities.vendor_extensions@ == Set::<Seq<char>>::empty(),
    {
        let mut capabilities = CapabilitySet::default();
        if Self::has_observed(device) && self.connected && self.sensors.len() > 0 {
            capabilities.insert(MetricKey::TemperatureCoreCelsius);
        }
        capabilities
    }

    /// Whether the sensors are to be read for a sample of a device.
    pub fn reads_for(&self, device: &CanonicalGpu, request: &SampleRequest) -> (reads: bool)
        ensures
            reads == (Self::knows(device) && request.asks_for(MetricKey::TemperatureCoreCelsius)
                && self.connected),
    {
        Self::has_observed(device) && request.wants(MetricKey::TemperatureCoreCelsius)
            && self.connected
    }

    /// What the readings of the sensors say of a device.
    pub fn answer(
        &self,
        device: &CanonicalGpu,
        request: &SampleRequest,
        readings: &Vec<Result<Binary64, SmcFailure>>,
        sampled_at: TimestampMs,
    ) -> (sample: ProviderSample)
        requires
            all_plausible(readings@),
        ensures
            if Self::knows(device) && request.asks_for(MetricKey::TemperatureCoreCelsius)
                && self.connected {
                tells_temperature(sample, readings@, device.identity.id@, sampled_at)
            } else {
                &&& sample.metrics@.len() == 0
                &&& sample.unavailable@.len() == 0
                &&& sample.processes is None
            },
    {
        if !self.reads_for(device, request) {
            return ProviderSample::default();
        }
        let read = collect_readings(readings);
        assert(all_finite(read@) && none_negative(read@)) by {
            assert forall|k: int| 0 <= k < read@.len() implies (#[trigger] read@[k]).finite()
                && !read@[k].is_negative() by {
                assert(is_plausible(read@[k].bits as int));
            }
        }
        match aggregate_temperature(&read) {
            None => {
                let failure = find_fault(readings);
                let account = UnavailableObservation {
                    device_id: device.identity.id.clone(),
                    metric: MetricKey::TemperatureCoreCelsius,
                    reason: failure.reason,
                    source: Some(owned("apple-smc")),
                    message: Some(failure.message),
                };
                let mut unavailable: Vec<UnavailableObservation> = Vec::new();
                unavailable.push(account);
                assert(absences(unavailable@) == seq![account@]);
                ProviderSample { metrics: Vec::new(), unavailable, processes: None }
            },
            Some((temperature, quality)) => {
                let definition = if read.len() == 1 {
                    owned("AppleSMC GPU die temperature")
                } else {
                    let mut text = chars_of("arithmetic mean of ");
                    let number = decimal_text(read.len() as u64);
                    extend_text(&mut text, number.as_str());
                    extend_text(&mut text, " AppleSMC GPU die temperature sensors");
                    string_of(&text)
                };
                let observation = MetricObservation {
                    device_id: device.identity.id.clone(),
                    metric: MetricKey::TemperatureCoreCelsius,
                    value: MetricValue::Number(temperature),
                    source: owned("apple-smc"),
                    quality,
                    sampled_at,
                    interval_ms: None,
                    definition: Some(definition),
                };
                let mut metrics: Vec<MetricObservation> = Vec::new();
                metrics.push(observation);
                assert(values(metrics@) == seq![observation@]);
                ProviderSample { metrics, unavailable: Vec::new(), processes: None }
            },
        }
    }

    pub fn metadata() -> (metadata: ProviderMetadata)
        ensures
            metadata.id@ == smc_name(),
            metadata.specificity == 85,
            metadata.reliability == 80,
            forall|key: MetricKey|
                metadata.priority(key) == if key == MetricKey::TemperatureCoreCelsius {
                    20i16
                } else {
                    0i16
                },
    {
        ProviderMetadata::new("apple-smc", 85, 80).prefer(MetricKey::TemperatureCoreCelsius, 20)
    }

    pub fn shutdown(&mut self)
        ensures
            !final(self).connected,
            final(self).sensors == old(self).sensors,
            final(self).initialization_failure == old(self).initialization_failure,
            final(self).inventory_message == old(self).inventory_message,
            final(self).matched_devices == old(self).matched_devices,
    {
        self.connected = false;
    }
}

} // verus!
