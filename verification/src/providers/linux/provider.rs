//! The provider of what sysfs shows.
use crate::json::{Json, JsonModel};
use crate::merge::{absences, values, AbsenceModel, ValueModel};
use crate::model::{
    CanonicalGpu, CapabilitySet, DeviceObservation, MetricKey, MetricObservation,
    ProviderDiagnostic, ProviderSample, SampleRequest, TimestampMs, UnavailableObservation,
    UnavailableReason,
};
use crate::provider::ProviderMetadata;
use crate::providers::linux::inventory::{
    provider_name, vendor_info, LinuxDeviceRecord, SourceGroup,
};
use crate::providers::linux::metric::{
    error_views, outcome, select_error, worst_error, MetricReadError, MetricSource, ReadErrorModel,
    SourceReading,
};
use crate::sorted_map::{lists_keys, SortedMap};
use crate::text::{chars_of, enumerate_texts, enumerated, extend_text, owned, string_of};
use vstd::prelude::*;

verus! {

/// What was read of the sources of one metric.
pub struct GroupReading {
    /// The directory of the device was there.
    pub device_exists: bool,
    /// One for each source that was read, in the order of the sources.
    pub readings: Vec<SourceReading>,
}

/// The errors of the first `n` sources of a group. A source that was not read has none.
pub open spec fn source_errors(
    sources: Seq<MetricSource>,
    readings: Seq<SourceReading>,
    device: Seq<char>,
    n: int,
) -> Seq<ReadErrorModel>
    decreases n,
{
    if n <= 0 {
        Seq::empty()
    } else {
        let before = source_errors(sources, readings, device, n - 1);
        if was_read(sources[n - 1], readings, n - 1) {
            match outcome(sources[n - 1].reader@, readings[n - 1], device) {
                Err(error) => before.push(error),
                Ok(value) => before,
            }
        } else {
            before
        }
    }
}

/// A source was read, path by path.
pub open spec fn was_read(source: MetricSource, readings: Seq<SourceReading>, s: int) -> bool {
    s < readings.len() && source.reader.is_read_by(readings[s])
}

/// The first of the sources from `s` on that gives a value, their number where none does.
pub open spec fn first_working(
    sources: Seq<MetricSource>,
    readings: Seq<SourceReading>,
    device: Seq<char>,
    s: int,
) -> int
    decreases sources.len() - s,
{
    if s >= sources.len() {
        s
    } else if was_read(sources[s], readings, s) && outcome(
        sources[s].reader@,
        readings[s],
        device,
    ) is Ok {
        s
    } else {
        first_working(sources, readings, device, s + 1)
    }
}

/// What the readings of a group mean for its metric.
pub enum GroupOutcome {
    Value(ValueModel),
    Absent(AbsenceModel),
    Nothing,
}

/// The account of a metric that is missing.
pub open spec fn linux_absence(
    device_id: Seq<char>,
    metric: MetricKey,
    reason: UnavailableReason,
    message: Seq<char>,
) -> AbsenceModel {
    AbsenceModel {
        device_id,
        metric,
        reason,
        source: Some(provider_name()),
        message: Some(message),
    }
}

/// What the readings of a group mean for its metric: the first source that gives a value counts,
/// else the worst of the errors.
#[verifier::opaque]
pub open spec fn group_outcome(
    record: LinuxDeviceRecord,
    group: SourceGroup,
    reading: GroupReading,
    device_id: Seq<char>,
    sampled_at: TimestampMs,
) -> GroupOutcome {
    let device = record.device_path@;
    let sources = group.sources@;
    let readings = reading.readings@;
    if !reading.device_exists {
        GroupOutcome::Absent(
            linux_absence(
                device_id,
                group.key,
                UnavailableReason::DeviceLost,
                "Linux GPU sysfs device "@ + device + " disappeared"@,
            ),
        )
    } else {
        let at = first_working(sources, readings, device, 0);
        if at < sources.len() {
            GroupOutcome::Value(
                ValueModel {
                    device_id,
                    metric: group.key,
                    value: outcome(sources[at].reader@, readings[at], device)->Ok_0,
                    source: provider_name(),
                    quality: sources[at].quality,
                    sampled_at,
                    interval_ms: None,
                    definition: Some(sources[at].definition@),
                },
            )
        } else {
            match worst_error(source_errors(sources, readings, device, sources.len() as int)) {
                Some(error) => GroupOutcome::Absent(
                    linux_absence(device_id, group.key, error.reason, error.message),
                ),
                None => GroupOutcome::Nothing,
            }
        }
    }
}

/// The reading of a group, where it was read.
pub open spec fn reading_at(readings: Seq<GroupReading>, g: int) -> Option<GroupReading> {
    if g < readings.len() {
        Some(readings[g])
    } else {
        None
    }
}

/// The values of the wanted metrics among the first `n` groups.
pub open spec fn sampled_values(
    record: LinuxDeviceRecord,
    readings: Seq<GroupReading>,
    request: SampleRequest,
    device_id: Seq<char>,
    sampled_at: TimestampMs,
    n: int,
) -> Seq<ValueModel>
    decreases n,
{
    if n <= 0 {
        Seq::empty()
    } else {
        let before = sampled_values(record, readings, request, device_id, sampled_at, n - 1);
        let group = record.metric_sources@[n - 1];
        match reading_at(readings, n - 1) {
            Some(reading) if request.asks_for(group.key) => match group_outcome(
                record,
                group,
                reading,
                device_id,
                sampled_at,
            ) {
                GroupOutcome::Value(value) => before.push(value),
                _ => before,
            },
            _ => before,
        }
    }
}

/// The accounts of the wanted metrics among the first `n` groups that are missing.
pub open spec fn sampled_absences(
    record: LinuxDeviceRecord,
    readings: Seq<GroupReading>,
    request: SampleRequest,
    device_id: Seq<char>,
    sampled_at: TimestampMs,
    n: int,
) -> Seq<AbsenceModel>
    decreases n,
{
    if n <= 0 {
        Seq::empty()
    } else {
        let before = sampled_absences(record, readings, request, device_id, sampled_at, n - 1);
        let group = record.metric_sources@[n - 1];
        match reading_at(readings, n - 1) {
            Some(reading) if request.asks_for(group.key) => match group_outcome(
                record,
                group,
                reading,
                device_id,
                sampled_at,
            ) {
                GroupOutcome::Absent(absence) => before.push(absence),
                _ => before,
            },
            _ => before,
        }
    }
}

enum GroupResult {
    Value(MetricObservation),
    Absent(UnavailableObservation),
    Nothing,
}

impl GroupResult {
    spec fn model(&self) -> GroupOutcome {
        match self {
            GroupResult::Value(value) => GroupOutcome::Value(value@),
            GroupResult::Absent(absence) => GroupOutcome::Absent(absence@),
            GroupResult::Nothing => GroupOutcome::Nothing,
        }
    }
}

fn sample_group(
    record: &LinuxDeviceRecord,
    group: &SourceGroup,
    reading: &GroupReading,
    device_id: &String,
    sampled_at: TimestampMs,
) -> (result: GroupResult)
    ensures
        result.model() == group_outcome(*record, *group, *reading, device_id@, sampled_at),
{
    reveal(group_outcome);
    let device = record.device_path.as_str();
    if !reading.device_exists {
        let mut message = chars_of("Linux GPU sysfs device ");
        extend_text(&mut message, device);
        extend_text(&mut message, " disappeared");
        return GroupResult::Absent(
            UnavailableObservation {
                device_id: device_id.clone(),
                metric: group.key,
                reason: UnavailableReason::DeviceLost,
                source: Some(owned("linux-sysfs")),
                message: Some(string_of(&message)),
            },
        );
    }
    let ghost sources = group.sources@;
    let ghost readings = reading.readings@;
    let mut errors: Vec<MetricReadError> = Vec::new();
    let mut s: usize = 0;
    assert(error_views(errors@) == Seq::<ReadErrorModel>::empty());
    while s < group.sources.len()
        invariant
            s <= group.sources.len(),
            device@ == record.device_path@,
            reading.device_exists,
            sources == group.sources@,
            readings == reading.readings@,
            first_working(sources, readings, device@, 0) == first_working(
                sources,
                readings,
                device@,
                s as int,
            ),
            error_views(errors@) == source_errors(sources, readings, device@, s as int),
        decreases group.sources.len() - s,
    {
        let source = &group.sources[s];
        if s < reading.readings.len() {
            if source.reader.fits(&reading.readings[s]) {
                match source.read(&reading.readings[s], device) {
                    Ok(value) => {
                        reveal(group_outcome);
                        return GroupResult::Value(
                            MetricObservation {
                                device_id: device_id.clone(),
                                metric: group.key,
                                value,
                                source: owned("linux-sysfs"),
                                quality: source.quality,
                                sampled_at,
                                interval_ms: None,
                                definition: Some(source.definition.clone()),
                            },
                        );
                    },
                    Err(error) => {
                        let ghost held = error_views(errors@);
                        errors.push(error);
                        assert(error_views(errors@) == held.push(error@));
                    },
                }
            }
        }
        s = s + 1;
    }
    match select_error(&errors) {
        Some(error) => GroupResult::Absent(
            UnavailableObservation {
                device_id: device_id.clone(),
                metric: group.key,
                reason: error.reason,
                source: Some(owned("linux-sysfs")),
                message: Some(error.message),
            },
        ),
        None => GroupResult::Nothing,
    }
}

/// A sample of a device, from what was read of its sources.
pub fn sample_record(
    record: &LinuxDeviceRecord,
    readings: &Vec<GroupReading>,
    request: &SampleRequest,
    device_id: &String,
    sampled_at: TimestampMs,
) -> (sample: ProviderSample)
    ensures
        values(sample.metrics@) == sampled_values(
            *record,
            readings@,
            *request,
            device_id@,
            sampled_at,
            record.metric_sources@.len() as int,
        ),
        absences(sample.unavailable@) == sampled_absences(
            *record,
            readings@,
            *request,
            device_id@,
            sampled_at,
            record.metric_sources@.len() as int,
        ),
        sample.processes is None,
{
    let mut sample = ProviderSample::default();
    let mut g: usize = 0;
    assert(values(sample.metrics@) == Seq::<ValueModel>::empty());
    assert(absences(sample.unavailable@) == Seq::<AbsenceModel>::empty());
    while g < record.metric_sources.len()
        invariant
            g <= record.metric_sources.len(),
            sample.processes is None,
            values(sample.metrics@) == sampled_values(
                *record,
                readings@,
                *request,
                device_id@,
                sampled_at,
                g as int,
            ),
            absences(sample.unavailable@) == sampled_absences(
                *record,
                readings@,
                *request,
                device_id@,
                sampled_at,
                g as int,
            ),
        decreases record.metric_sources.len() - g,
    {
        let group = &record.metric_sources[g];
        if g < readings.len() && request.wants(group.key) {
            let ghost held = values(sample.metrics@);
            let ghost lost = absences(sample.unavailable@);
            match sample_group(record, group, &readings[g], device_id, sampled_at) {
                GroupResult::Value(value) => {
                    sample.metrics.push(value);
                    assert(values(sample.metrics@) == held.push(value@));
                },
                GroupResult::Absent(absence) => {
                    sample.unavailable.push(absence);
                    assert(absences(sample.unavailable@) == lost.push(absence@));
                },
                GroupResult::Nothing => {},
            }
        }
        g = g + 1;
    }
    sample
}

/// What a look at sysfs has brought.
pub struct InventoryResult {
    pub records: Vec<LinuxDeviceRecord>,
    pub warnings: Vec<String>,
    pub sysfs_available: bool,
}

/// The provider's state.
pub struct LinuxSysfsProvider {
    pub include_software_adapters: bool,
    records: SortedMap<String, LinuxDeviceRecord>,
    loaded: bool,
    devices_matched: usize,
    reason: Option<UnavailableReason>,
    message: Option<String>,
}

impl LinuxSysfsProvider {
    pub closed spec fn known(&self) -> Map<Seq<char>, LinuxDeviceRecord> {
        self.records@
    }

    pub closed spec fn state(&self) -> (bool, usize, Option<UnavailableReason>, Option<Seq<char>>) {
        (self.loaded, self.devices_matched, self.reason, crate::merge::text_view(self.message))
    }

    pub closed spec fn with_software(&self) -> bool {
        self.include_software_adapters
    }

    pub fn new(include_software_adapters: bool) -> (provider: Self)
        ensures
            provider.with_software() == include_software_adapters,
            provider.known() == Map::<Seq<char>, LinuxDeviceRecord>::empty(),
            provider.state() == (true, 0usize, None::<UnavailableReason>, None::<Seq<char>>),
    {
        LinuxSysfsProvider {
            include_software_adapters,
            records: SortedMap::new(),
            loaded: true,
            devices_matched: 0,
            reason: None,
            message: None,
        }
    }

    /// The records by the provider's names for the devices; the last one where a name repeats.
    pub open spec fn by_name(records: Seq<LinuxDeviceRecord>) -> Map<
        Seq<char>,
        LinuxDeviceRecord,
    >
        decreases records.len(),
    {
        if records.len() == 0 {
            Map::empty()
        } else {
            Self::by_name(records.drop_last()).insert(
                records.last().provider_device_id@,
                records.last(),
            )
        }
    }

    /// Takes over what a look at sysfs has brought, and gives the observations of the devices.
    pub fn install(&mut self, inventory: InventoryResult) -> (observations: Vec<DeviceObservation>)
        ensures
            final(self).with_software() == old(self).with_software(),
            final(self).known() == Self::by_name(inventory.records@),
            observations@.len() == inventory.records@.len(),
            forall|i: int|
                0 <= i < observations@.len() ==> (#[trigger] observations@[i]).says_same(
                    &inventory.records@[i].observation,
                ),
            final(self).state().0 == inventory.sysfs_available,
            final(self).state().1 == final(self).known().dom().len(),
            final(self).state().2 == if inventory.sysfs_available {
                None
            } else {
                Some(UnavailableReason::TemporarilyUnavailable)
            },
            final(self).state().3 == if !inventory.sysfs_available {
                Some("PCI and DRM sysfs roots were unavailable"@)
            } else if inventory.warnings@.len() == 0 {
                None
            } else {
                Some(enumerated(inventory.warnings@.map_values(|w: String| w@)))
            },
    {
        let InventoryResult { records, warnings, sysfs_available } = inventory;
        let ghost all = records@;
        let mut rest = records;
        let mut map: SortedMap<String, LinuxDeviceRecord> = SortedMap::new();
        let mut observations: Vec<DeviceObservation> = Vec::new();
        let ghost mut n: int = 0;
        assert(all.take(0) == Seq::<LinuxDeviceRecord>::empty());
        assert(all.skip(0) == all);
        while rest.len() > 0
            invariant
                0 <= n <= all.len(),
                rest@ == all.skip(n),
                map@ == Self::by_name(all.take(n)),
                observations.len() == n,
                self.include_software_adapters == old(self).include_software_adapters,
                forall|i: int|
                    0 <= i < n ==> (#[trigger] observations@[i]).says_same(&all[i].observation),
            decreases rest.len(),
        {
            assert(all.take(n + 1).drop_last() == all.take(n));
            assert(all.take(n + 1).last() == rest@[0]);
            let record = rest.remove(0);
            observations.push(record.observation.duplicate());
            map.insert(record.provider_device_id.clone(), record);
            proof {
                assert(rest@ == all.skip(n + 1));
                n = n + 1;
            }
        }
        assert(all.take(n) == all);
        let count: usize = map.len();
        proof {
            lemma_listing_counts(map.keys(), map@.dom());
        }
        self.records = map;
        self.loaded = sysfs_available;
        self.devices_matched = count;
        self.reason =
        if sysfs_available {
            None
        } else {
            Some(UnavailableReason::TemporarilyUnavailable)
        };
        self.message =
        if !sysfs_available {
            Some(owned("PCI and DRM sysfs roots were unavailable"))
        } else if warnings.len() == 0 {
            None
        } else {
            Some(enumerate_texts(&warnings))
        };
        observations
    }

    pub fn diagnostic(&self) -> (diagnostic: ProviderDiagnostic)
        ensures
            diagnostic.id@ == provider_name(),
            diagnostic.version is Some,
            diagnostic.version->0@ == "linux-kernel-sysfs"@,
            self.state() == (
                diagnostic.loaded,
                diagnostic.devices_matched,
                diagnostic.reason,
                crate::merge::text_view(diagnostic.message),
            ),
    {
        ProviderDiagnostic {
            id: owned("linux-sysfs"),
            loaded: self.loaded,
            version: Some(owned("linux-kernel-sysfs")),
            devices_matched: self.devices_matched,
            reason: self.reason,
            message: self.message.clone(),
        }
    }

    /// The record that speaks of a device.
    pub open spec fn record_of(&self, device: &CanonicalGpu) -> Option<LinuxDeviceRecord> {
        if device.provider_device_ids@.contains_key(provider_name()) && self.known().contains_key(
            device.provider_device_ids@[provider_name()]@,
        ) {
            Some(self.known()[device.provider_device_ids@[provider_name()]@])
        } else {
            None
        }
    }

    pub fn record_for(&self, device: &CanonicalGpu) -> (record: Option<&LinuxDeviceRecord>)
        ensures
            match record {
                Some(record) => self.record_of(device) == Some(*record),
                None => self.record_of(device) is None,
            },
    {
        match device.provider_device_ids.get(&owned("linux-sysfs")) {
            None => None,
            Some(name) => self.records.get(name),
        }
    }

    pub fn capabilities(&self, device: &CanonicalGpu) -> (capabilities: CapabilitySet)
        ensures
            match self.record_of(device) {
                Some(record) => {
                    &&& capabilities.metric_set() == record.observation.capabilities.metric_set()
                    &&& capabilities.vendor_extensions@
                        == record.observation.capabilities.vendor_extensions@
                },
                None => {
                    &&& capabilities.metric_set() == Set::<MetricKey>::empty()
                    &&& capabilities.vendor_extensions@ == Set::<Seq<char>>::empty()
                },
            },
    {
        match self.record_for(device) {
            Some(record) => record.observation.capabilities.duplicate(),
            None => CapabilitySet::default(),
        }
    }

    pub fn vendor_info(&self, device: &CanonicalGpu) -> (value: Json)
        ensures
            match self.record_of(device) {
                Some(record) => value@ == JsonModel::Object(
                    seq![
                        (
                            "linux"@,
                            if record.observation.vendor_info@.contains_key("linux"@) {
                                record.observation.vendor_info@["linux"@]@
                            } else {
                                JsonModel::Null
                            },
                        ),
                    ],
                ),
                None => value@ == JsonModel::Null,
            },
    {
        match self.record_for(device) {
            Some(record) => vendor_info(record),
            None => Json::Null,
        }
    }

    /// How the values of sysfs are weighed.
    pub fn metadata() -> (metadata: ProviderMetadata)
        ensures
            metadata.id@ == provider_name(),
            metadata.specificity == 65,
            metadata.reliability == 90,
            metadata.metric_priorities@ == sysfs_priorities(),
    {
        let metadata = ProviderMetadata::new("linux-sysfs", 65, 90);
        let metadata = metadata.prefer(MetricKey::UtilizationOverall, 10);
        let metadata = metadata.prefer(MetricKey::MemoryBandwidthUtilizationPercent, 10);
        let metadata = metadata.prefer(MetricKey::MemoryDedicatedUsedBytes, 10);
        let metadata = metadata.prefer(MetricKey::MemorySharedUsedBytes, 10);
        let metadata = metadata.prefer(MetricKey::TemperatureCoreCelsius, 8);
        let metadata = metadata.prefer(MetricKey::TemperatureEdgeCelsius, 10);
        let metadata = metadata.prefer(MetricKey::TemperatureHotspotCelsius, 10);
        let metadata = metadata.prefer(MetricKey::TemperatureMemoryCelsius, 10);
        let metadata = metadata.prefer(MetricKey::PowerDrawWatts, 8);
        let metadata = metadata.prefer(MetricKey::PowerLimitWatts, 8);
        let metadata = metadata.prefer(MetricKey::PowerEnergyJoules, 8);
        let metadata = metadata.prefer(MetricKey::ClockGraphicsMhz, 8);
        let metadata = metadata.prefer(MetricKey::ClockMemoryMhz, 8);
        let metadata = metadata.prefer(MetricKey::FanPercent, 8);
        metadata.prefer(MetricKey::FanRpm, 8)
    }
}

/// For which metrics sysfs is preferred, and how much.
pub open spec fn sysfs_priorities() -> Map<MetricKey, i16> {
    Map::<MetricKey, i16>::empty().insert(MetricKey::UtilizationOverall, 10).insert(
        MetricKey::MemoryBandwidthUtilizationPercent,
        10,
    ).insert(MetricKey::MemoryDedicatedUsedBytes, 10).insert(
        MetricKey::MemorySharedUsedBytes,
        10,
    ).insert(MetricKey::TemperatureCoreCelsius, 8).insert(
        MetricKey::TemperatureEdgeCelsius,
        10,
    ).insert(MetricKey::TemperatureHotspotCelsius, 10).insert(
        MetricKey::TemperatureMemoryCelsius,
        10,
    ).insert(MetricKey::PowerDrawWatts, 8).insert(MetricKey::PowerLimitWatts, 8).insert(
        MetricKey::PowerEnergyJoules,
        8,
    ).insert(MetricKey::ClockGraphicsMhz, 8).insert(MetricKey::ClockMemoryMhz, 8).insert(
        MetricKey::FanPercent,
        8,
    ).insert(MetricKey::FanRpm, 8)
}

proof fn lemma_listing_counts(keys: Seq<Seq<char>>, dom: Set<Seq<char>>)
    requires
        lists_keys::<String>(keys, dom),
    ensures
        keys.len() == dom.len(),
{
    assert forall|i: int, j: int| 0 <= i < keys.len() && 0 <= j < keys.len() && i != j implies keys[i]
        != keys[j] by {
        crate::text::lemma_text_less_irreflexive(keys[i]);
    }
    keys.unique_seq_to_set();
    assert(keys.to_set() == dom);
}

} // verus!
