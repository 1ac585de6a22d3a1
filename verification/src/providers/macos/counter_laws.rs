//! What the counters and sensors of macOS mean, stated on what they give.
use crate::binary64::{Binary64, INFINITY};
use crate::float_laws::{double, law_one_divides_everything, law_zero_adds_nothing};
use crate::json::{JsonModel, JsonNumber};
use crate::merge::values;
use crate::error::ErrorModel;
use crate::model::{
    CanonicalGpu, DeviceObservation, GpuKind, GpuVendor, MetricKey, MetricQuality, MetricValue,
    ProviderSample, TimestampMs, UnavailableReason,
};
use crate::providers::macos::ioreport::{
    awaiting, counter_metrics, delta_fault, delta_sums, major_of, until_zero, with_channel,
    ChannelModel, ChannelReading, DeltaSums,
};
use crate::providers::macos::ioreport_provider::{
    is_report_observation, is_reported, passing_error,
};
use crate::providers::macos::metal_inventory::{
    metal_info, newest_apple_family, MetalDevice,
};
use crate::providers::macos::smc::{
    eligible_places, first_fault, first_read, good_readings, is_eligible, is_smc_observation,
    tells_temperature, temperature_sum, ListedDevice,
};
use crate::providers::macos::smc_protocol::{
    common_keys, four_bytes, four_characters, reply_fault, SmcFailure, TemperatureSensor,
};
use crate::text::{contains, decimal, digits, lower, padded_digits, starts_with};
use crate::text_laws::{
    law_characters_are_found_where_they_first_stand, law_written_numbers_are_read_back,
};
use vstd::prelude::*;

verus! {

/// The major version is the number before the first point.
pub proof fn law_the_major_version_comes_first(n: u32, rest: Seq<char>)
    ensures
        major_of(decimal(n as nat) + seq!['.'] + rest) == Some(n),
        major_of(decimal(n as nat)) == Some(n),
{
    let number = decimal(n as nat);
    let text = number + seq!['.'] + rest;
    lemma_no_point(n as nat);
    assert(text[number.len() as int] == '.');
    assert forall|j: int| 0 <= j < number.len() implies #[trigger] text[j] != '.' by {
        assert(text[j] == number[j]);
    }
    law_characters_are_found_where_they_first_stand(text, '.', number.len() as int);
    assert(text.take(number.len() as int) =~= number);
    law_characters_are_found_where_they_first_stand(number, '.', number.len() as int);
    assert(number.take(number.len() as int) =~= number);
    law_written_numbers_are_read_back(n as nat, 10, u32::MAX as nat);
}

proof fn lemma_no_point(value: nat)
    ensures
        forall|i: int| 0 <= i < digits(value, 10).len() ==> #[trigger] digits(value, 10)[i] != '.',
    decreases value,
{
    let text = digits(value, 10);
    if value < 10 {
        assert(('0' as u8) + value <= 255);
    } else {
        lemma_no_point(value / 10);
        let before = digits(value / 10, 10);
        assert forall|i: int| 0 <= i < text.len() implies #[trigger] text[i] != '.' by {
            if i < before.len() {
                assert(text[i] == before[i]);
            } else {
                assert(('0' as u8) + value % 10 <= 255);
            }
        }
    }
}

/// A text in a buffer ends before the first zero; without a zero there is none.
pub proof fn law_texts_end_at_the_first_zero(text: Seq<u8>, rest: Seq<u8>)
    requires
        forall|i: int| 0 <= i < text.len() ==> #[trigger] text[i] != 0,
    ensures
        until_zero(text + seq![0u8] + rest) == Some(text),
        until_zero(text) is None,
    decreases text.len(),
{
    let whole = text + seq![0u8] + rest;
    if text.len() == 0 {
        assert(whole[0] == 0);
        assert(text =~= Seq::<u8>::empty());
    } else {
        assert(text[0] != 0);
        let shorter = text.skip(1);
        assert(whole.skip(1) =~= shorter + seq![0u8] + rest);
        assert forall|i: int| 0 <= i < shorter.len() implies #[trigger] shorter[i] != 0 by {
            assert(text[i + 1] != 0);
        }
        law_texts_end_at_the_first_zero(shorter, rest);
        assert(seq![text[0]] + shorter =~= text);
    }
}

/// The counters add up one after the other; the first that cannot be read ends the sum with its
/// own words.
pub proof fn law_counters_add_up_in_order(
    channels: Seq<ChannelModel>,
    readings: Seq<Result<ChannelReading, String>>,
    n: int,
)
    requires
        0 <= n < channels.len(),
        channels.len() == readings.len(),
    ensures
        delta_sums(channels, readings, 0) == Ok::<DeltaSums, Seq<char>>(
            DeltaSums { active: 0, total: 0, energy: Binary64 { bits: 0 } },
        ),
        delta_sums(channels, readings, n) is Err ==> delta_sums(channels, readings, n + 1)
            == delta_sums(channels, readings, n),
        delta_sums(channels, readings, n) is Ok && readings[n] is Err ==> delta_sums(
            channels,
            readings,
            n + 1,
        ) == Err::<DeltaSums, Seq<char>>(readings[n]->Err_0@),
        delta_sums(channels, readings, n) is Ok && readings[n] is Ok ==> delta_sums(
            channels,
            readings,
            n + 1,
        ) == with_channel(delta_sums(channels, readings, n)->Ok_0, channels[n], readings[n]->Ok_0),
{
}

/// The difference of two samples counts where it holds as many counters as are read, and no more
/// than 256.
pub proof fn law_differences_hold_every_counter(channels: int, readings: int)
    requires
        0 <= channels,
        0 <= readings,
    ensures
        delta_fault(channels, readings) is None <==> channels == readings && readings <= 256,
{
}

/// Counters of states give how busy the device is, counters of energy its power and its energy.
pub proof fn law_counters_give_their_metrics(channels: Seq<ChannelModel>)
    ensures
        counter_metrics(channels).contains(MetricKey::UtilizationOverall) <==> exists|i: int|
            0 <= i < channels.len() && (#[trigger] channels[i]).group == "GPU Stats"@,
        counter_metrics(channels).contains(MetricKey::PowerDrawWatts) <==> exists|i: int|
            0 <= i < channels.len() && (#[trigger] channels[i]).group == "Energy Model"@
                && channels[i].name == "GPU Energy"@,
        counter_metrics(channels).contains(MetricKey::PowerEnergyJoules)
            <==> counter_metrics(channels).contains(MetricKey::PowerDrawWatts),
        forall|k: int|
            0 <= k < counter_metrics(channels).len() ==> (#[trigger] counter_metrics(channels)[k])
                == MetricKey::UtilizationOverall || counter_metrics(channels)[k]
                == MetricKey::PowerDrawWatts || counter_metrics(channels)[k]
                == MetricKey::PowerEnergyJoules,
{
    let keys = counter_metrics(channels);
    let states = crate::providers::macos::ioreport::some_states(channels);
    let energy = crate::providers::macos::ioreport::some_energy(channels);
    if states {
        assert(keys[0] == MetricKey::UtilizationOverall);
    }
    if energy {
        let at: int = if states {
            1
        } else {
            0
        };
        assert(keys[at] == MetricKey::PowerDrawWatts);
        assert(keys[at + 1] == MetricKey::PowerEnergyJoules);
    }
    if exists|i: int| 0 <= i < channels.len() && (#[trigger] channels[i]).group == "GPU Stats"@ {
        let i = choose|i: int|
            0 <= i < channels.len() && (#[trigger] channels[i]).group == "GPU Stats"@;
        assert(crate::providers::macos::ioreport::tells_states(channels[i]));
    }
    if exists|i: int|
        0 <= i < channels.len() && (#[trigger] channels[i]).group == "Energy Model"@
            && channels[i].name == "GPU Energy"@ {
        let i = choose|i: int|
            0 <= i < channels.len() && (#[trigger] channels[i]).group == "Energy Model"@
                && channels[i].name == "GPU Energy"@;
        assert(crate::providers::macos::ioreport::tells_energy(channels[i]));
    }
}

/// After the first sample each metric awaits the second one.
pub proof fn law_first_samples_await_the_second(
    keys: Seq<MetricKey>,
    device_id: Seq<char>,
    k: int,
)
    requires
        0 <= k < keys.len(),
    ensures
        awaiting(keys, device_id).len() == keys.len(),
        awaiting(keys, device_id)[k].metric == keys[k],
        awaiting(keys, device_id)[k].device_id == device_id,
        awaiting(keys, device_id)[k].reason == UnavailableReason::FirstSample,
        awaiting(keys, device_id)[k].source == Some("apple-ioreport"@),
{
}

/// The counters belong to the device of Apple that the provider has observed.
pub proof fn law_counters_belong_to_apple(
    device: CanonicalGpu,
    o: DeviceObservation,
    name: Option<String>,
    channels: Seq<ChannelModel>,
)
    requires
        is_report_observation(o, name, channels),
    ensures
        is_reported(&device) <==> device.identity.vendor == GpuVendor::Apple
            && device.provider_device_ids@.contains_key("apple-ioreport"@),
        o.provider@ == "apple-ioreport"@,
        o.provider_device_id@ == "apple-gpu"@,
        o.vendor == GpuVendor::Apple,
        o.kind == GpuKind::Integrated,
        name is Some ==> o.name@ == name->0@,
        name is None ==> o.name@ == "Apple GPU"@,
        o.identity_priority == 60,
        o.enumeration_ordinal == Some(0u32),
        o.uuid is None && o.pci is None && o.windows is None && o.macos is None,
        forall|key: MetricKey|
            o.capabilities.metric_set().contains(key) <==> #[trigger] counter_metrics(
                channels,
            ).contains(key),
{
}

/// The controller's answer counts where the call went through, the answer has its 80 bytes and the
/// controller says that all is well. A key that is not found may come back; every other failure
/// stays.
pub proof fn law_answers_of_the_controller_are_judged(status: u32, size: usize, result: u8)
    ensures
        reply_fault(status, size, result) is None <==> status == 0 && size == 80 && result == 0,
        reply_fault(status, size, result) is Some && reply_fault(status, size, result)->0.reason
            == UnavailableReason::TemporarilyUnavailable <==> status == 0 && size == 80 && result
            == 0x84,
        reply_fault(status, size, result) is Some && reply_fault(status, size, result)->0.reason
            != UnavailableReason::TemporarilyUnavailable ==> reply_fault(
            status,
            size,
            result,
        )->0.reason == UnavailableReason::ProviderError,
        status != 0 ==> reply_fault(status, size, result)->0.message
            == "AppleSMC request failed with IOKit status "@ + ("0x"@ + digits(status as nat, 16)),
{
}

/// Four characters and their number stand for each other.
pub proof fn law_keys_are_their_characters(a: u8, b: u8, c: u8, d: u8)
    ensures
        four_characters(a, b, c, d) <= u32::MAX,
        four_bytes(four_characters(a, b, c, d) as u32) == seq![a, b, c, d],
{
    let value = four_characters(a, b, c, d) as int;
    assert(value / 0x100_0000 == a);
    assert(value / 0x1_0000 % 0x100 == b);
    assert(value / 0x100 % 0x100 == c);
    assert(value % 0x100 == d);
    assert(four_bytes(value as u32) =~= seq![a, b, c, d]);
}

/// The keys that are tried by name are `Tg0f`, `Tg0j`, `TG0P` and `TG0D`.
pub proof fn law_common_keys_are_tried_by_name(k: int)
    requires
        0 <= k < 4,
    ensures
        ({
            let text = four_bytes(common_keys()[k] as u32);
            &&& common_keys().len() == 4
            &&& text[0] == 0x54
            &&& text[2] == 0x30
            &&& text[1] == if k < 2 {
                0x67u8
            } else {
                0x47u8
            }
            &&& k == 0 ==> text[3] == 0x66
            &&& k == 1 ==> text[3] == 0x6a
            &&& k == 2 ==> text[3] == 0x50
            &&& k == 3 ==> text[3] == 0x44
        }),
{
    law_keys_are_their_characters(0x54, 0x67, 0x30, 0x66);
    law_keys_are_their_characters(0x54, 0x67, 0x30, 0x6a);
    law_keys_are_their_characters(0x54, 0x47, 0x30, 0x50);
    law_keys_are_their_characters(0x54, 0x47, 0x30, 0x44);
}

/// No more than 64 sensors are read, the first ones.
pub proof fn law_the_first_sensors_are_read(all: Seq<TemperatureSensor>, k: int)
    requires
        0 <= k < first_read(all).len(),
    ensures
        first_read(all).len() <= 64,
        all.len() <= 64 ==> first_read(all) == all,
        first_read(all)[k] == all[k],
{
    if all.len() == 64 {
        assert(all.take(64) =~= all);
    }
}

/// The readings that count are those that came, in their order.
pub proof fn law_readings_that_came_count(
    readings: Seq<Result<Binary64, SmcFailure>>,
    next: Result<Binary64, SmcFailure>,
)
    ensures
        good_readings(Seq::empty()).len() == 0,
        next is Ok ==> good_readings(readings.push(next)) == good_readings(readings).push(
            next->Ok_0,
        ),
        next is Err ==> good_readings(readings.push(next)) == good_readings(readings),
{
    assert(readings.push(next).drop_last() == readings);
}

/// Where no reading came, the failure of the first sensor is told.
pub proof fn law_the_first_failure_is_told(
    readings: Seq<Result<Binary64, SmcFailure>>,
    fault: SmcFailure,
    rest: Seq<Result<Binary64, SmcFailure>>,
)
    requires
        forall|i: int| 0 <= i < readings.len() ==> (#[trigger] readings[i]) is Ok,
    ensures
        first_fault(
            readings + seq![Err::<Binary64, SmcFailure>(fault)] + rest,
        ).reason == fault.reason,
        first_fault(
            readings + seq![Err::<Binary64, SmcFailure>(fault)] + rest,
        ).message == fault.message@,
        first_fault(readings).reason == UnavailableReason::TemporarilyUnavailable,
    decreases readings.len(),
{
    let whole = readings + seq![Err::<Binary64, SmcFailure>(fault)] + rest;
    if readings.len() == 0 {
        assert(whole[0] == Err::<Binary64, SmcFailure>(fault));
    } else {
        assert(readings[0] is Ok);
        let shorter = readings.skip(1);
        assert(whole[0] == readings[0]);
        assert(whole.skip(1) =~= shorter + seq![Err::<Binary64, SmcFailure>(fault)] + rest);
        assert forall|i: int| 0 <= i < shorter.len() implies (#[trigger] shorter[i]) is Ok by {
            assert(readings[i + 1] is Ok);
        }
        law_the_first_failure_is_told(shorter, fault, rest);
    }
}

/// The reading of a single sensor is the temperature of the device as it stands.
pub proof fn law_one_sensor_is_the_temperature(
    sample: ProviderSample,
    value: Binary64,
    device_id: Seq<char>,
    sampled_at: TimestampMs,
)
    requires
        tells_temperature(
            sample,
            seq![Ok::<Binary64, SmcFailure>(value)],
            device_id,
            sampled_at,
        ),
        value.bits < INFINITY,
    ensures
        sample.metrics@.len() == 1,
        sample.metrics@[0].value == MetricValue::Number(value),
        sample.metrics@[0].metric == MetricKey::TemperatureCoreCelsius,
        sample.metrics@[0].quality == MetricQuality::Direct,
        sample.metrics@[0].source@ == "apple-smc"@,
        sample.metrics@[0].device_id@ == device_id,
        sample.metrics@[0].sampled_at == sampled_at,
        sample.unavailable@.len() == 0,
{
    let readings = seq![Ok::<Binary64, SmcFailure>(value)];
    let none = Seq::<Result<Binary64, SmcFailure>>::empty();
    assert(readings.drop_last() =~= none);
    assert(good_readings(none) =~= Seq::<Binary64>::empty());
    let read = good_readings(readings);
    assert(read =~= seq![value]);
    assert(read.drop_last() =~= Seq::<Binary64>::empty());
    assert(temperature_sum(read.drop_last()) == Binary64 { bits: 0 });
    law_zero_adds_nothing(value);
    law_one_divides_everything(value);
    assert(double(1) == Binary64 { bits: crate::float_arithmetic::nearest_bits(1) as u64 });
    let told = values(sample.metrics@);
    assert(told.len() == sample.metrics@.len());
    assert(told[0] == sample.metrics@[0]@);
}

/// The temperature of several sensors is their sum over their number, and an estimate.
pub proof fn law_several_sensors_give_their_mean(
    sample: ProviderSample,
    readings: Seq<Result<Binary64, SmcFailure>>,
    device_id: Seq<char>,
    sampled_at: TimestampMs,
)
    requires
        tells_temperature(sample, readings, device_id, sampled_at),
        good_readings(readings).len() > 1,
    ensures
        sample.metrics@.len() == 1,
        sample.metrics@[0].value == MetricValue::Number(
            temperature_sum(good_readings(readings)).over(double(good_readings(readings).len())),
        ),
        sample.metrics@[0].metric == MetricKey::TemperatureCoreCelsius,
        sample.metrics@[0].quality == MetricQuality::Estimated,
        sample.unavailable@.len() == 0,
{
    let told = values(sample.metrics@);
    assert(told.len() == sample.metrics@.len());
    assert(told[0] == sample.metrics@[0]@);
}

/// The device of the sensors is known by its registry identifier.
pub proof fn law_sensor_devices_are_known_by_registry(
    o: DeviceObservation,
    device: ListedDevice,
    has_sensors: bool,
)
    requires
        is_smc_observation(o, device, has_sensors),
    ensures
        o.provider@ == "apple-smc"@,
        o.provider_device_id@ == padded_digits(device.registry_id as nat, 16, 16),
        o.macos is Some,
        o.macos->0.metal_registry_id is Some,
        o.macos->0.metal_registry_id->0@ == padded_digits(device.registry_id as nat, 16, 16),
        o.name@ == device.name@,
        o.capabilities.metric_set().contains(MetricKey::TemperatureCoreCelsius) <==> has_sensors,
        o.identity_priority == 10,
{
}

/// On Apple silicon the sensors can only belong to a device of Apple, else to any.
pub proof fn law_eligible_devices_are_listed(
    devices: Seq<ListedDevice>,
    apple_silicon: bool,
    n: int,
    i: int,
)
    requires
        0 <= n <= devices.len(),
    ensures
        eligible_places(devices, apple_silicon, n).contains(i) <==> 0 <= i < n && (!apple_silicon
            || contains(lower(devices[i].name@), "apple"@)),
    decreases n,
{
    if n > 0 {
        law_eligible_devices_are_listed(devices, apple_silicon, n - 1, i);
        let before = eligible_places(devices, apple_silicon, n - 1);
        let now = eligible_places(devices, apple_silicon, n);
        if before.contains(i) {
            let k = choose|k: int| 0 <= k < before.len() && before[k] == i;
            assert(now[k] == i);
        }
        if now.contains(i) && !before.contains(i) {
            let k = choose|k: int| 0 <= k < now.len() && now[k] == i;
            if k < before.len() {
                assert(before[k] == i);
            }
        }
        if i == n - 1 && is_eligible(devices[i], apple_silicon) {
            assert(now[now.len() - 1] == i);
        }
    }
}

/// The newest family of Apple devices is the last of its kind among the names.
pub proof fn law_the_newest_family_is_the_last(names: Seq<Seq<char>>, k: int)
    requires
        0 <= k < names.len(),
        starts_with(names[k], "apple"@),
        forall|j: int| k < j < names.len() ==> !starts_with(#[trigger] names[j], "apple"@),
    ensures
        newest_apple_family(names) == Some(names[k]),
    decreases names.len(),
{
    let n = names.len();
    if k < n - 1 {
        assert(!starts_with(names[n - 1], "apple"@));
        let rest = names.drop_last();
        assert(rest[k] == names[k]);
        assert forall|j: int| k < j < rest.len() implies !starts_with(
            #[trigger] rest[j],
            "apple"@,
        ) by {
            assert(rest[j] == names[j]);
        }
        law_the_newest_family_is_the_last(rest, k);
    }
}

/// The vendor data of a Metal device holds its registry identifier, its working set and, where it
/// shares the memory of an Apple host, that memory.
pub proof fn law_metal_data_is_told_by_name(device: MetalDevice, host_memory: Option<u64>)
    ensures
        ({
            let told = metal_info(device, host_memory);
            let apple = contains(lower(device.name@), "apple"@);
            &&& told.contains_key("metalRegistryId"@) && told["metalRegistryId"@]
                == JsonModel::Text(padded_digits(device.registry_id as nat, 16, 16))
            &&& told.contains_key("recommendedMaxWorkingSetBytes"@)
                && told["recommendedMaxWorkingSetBytes"@] == JsonModel::Number(
                JsonNumber::Unsigned(device.recommended_max_working_set_bytes),
            )
            &&& told.contains_key("unifiedMemoryTotalBytes"@) <==> apple && device.unified_memory
                && host_memory is Some
            &&& apple && device.unified_memory && host_memory is Some
                ==> told["unifiedMemoryTotalBytes"@] == JsonModel::Number(
                JsonNumber::Unsigned(host_memory->0),
            )
        }),
{
    reveal_strlit("metalRegistryId");
    reveal_strlit("recommendedMaxWorkingSetBytes");
    reveal_strlit("metalGpuFamilies");
    reveal_strlit("gpuFamily");
    reveal_strlit("unifiedMemoryTotalBytes");
    assert("metalRegistryId"@.len() == 15 && "recommendedMaxWorkingSetBytes"@.len() == 29);
    assert("metalGpuFamilies"@.len() == 16 && "gpuFamily"@.len() == 9);
    assert("unifiedMemoryTotalBytes"@.len() == 23);
}

/// A sample of the counters that failed is told in its own words, as a matter of time.
pub proof fn law_failed_samples_of_counters_pass(words: Seq<char>)
    ensures
        passing_error(words) == (ErrorModel::Provider {
            provider: "apple-ioreport"@,
            reason: UnavailableReason::TemporarilyUnavailable,
            message: words,
        }),
{
}

} // verus!
