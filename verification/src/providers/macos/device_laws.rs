//! What the devices and sensors of macOS tell, stated on their names and bytes.
use crate::binary64::{Binary64, SIGN};
use crate::float_arithmetic::rounded_bits;
use crate::model::{DeviceObservation, GpuKind, GpuVendor, MemoryTopology};
use crate::providers::macos::ioreport_provider::elapsed_between;
use crate::providers::macos::metal_inventory::{
    apple_families, family_names, is_metal_observation, metal_kind, named_vendor, MetalDevice, MetalFamilies,
    MetalLocation,
};
use crate::providers::macos::smc::{
    is_eligible, sensor_vendor, temperature_sum, ListedDevice,
};
use crate::providers::macos::smc_protocol::{
    is_gpu_temperature, is_plausible, stored_temperature, KeyInfo,
};
use crate::text::{contains, lower, named, padded_digits};
use vstd::prelude::*;

verus! {

/// A temperature in the old form is a signed word of two bytes, the higher one first, in parts of
/// two hundred and fifty-six.
pub proof fn law_fixed_point_temperatures_are_parts_of_256(info: KeyInfo, bytes: Seq<u8>)
    requires
        bytes.len() == 32,
        info.data_size == 2,
        info.data_type == 0x7370_3738,
    ensures
        ({
            let word = bytes[0] * 256 + bytes[1];
            &&& word < 32_768 ==> (stored_temperature(info, bytes) matches Ok(bits) && bits
                == rounded_bits(word as nat, 256, 1074))
            &&& word >= 32_768 ==> (stored_temperature(info, bytes) matches Ok(bits) && bits
                == SIGN + rounded_bits((65_536 - word) as nat, 256, 1074))
        }),
{
    let word = bytes[0] * 256 + bytes[1];
    vstd::arithmetic::power2::lemma2_to64();
    if word < 32_768 {
        crate::float_laws::lemma_denominator(word as nat, 1, 1066, 8);
    } else {
        crate::float_laws::lemma_denominator((65_536 - word) as nat, 1, 1066, 8);
    }
}

/// A temperature in the new form is a single-precision number of four bytes, the lowest one
/// first: a fraction of twenty-three bits behind a one, times a power of two.
pub proof fn law_float_temperatures_are_single_precision(info: KeyInfo, bytes: Seq<u8>)
    requires
        bytes.len() == 32,
        info.data_size == 4,
        info.data_type == 0x666c_7420,
    ensures
        ({
            let bits = bytes[0] + 256 * bytes[1] + 65_536 * bytes[2] + 16_777_216 * bytes[3];
            let magnitude = bits % 0x8000_0000;
            let exponent = magnitude / 0x80_0000;
            let fraction = magnitude % 0x80_0000;
            &&& exponent == 255 <==> stored_temperature(info, bytes) is Err
            &&& 0 < exponent < 255 && bits < 0x8000_0000 ==> (stored_temperature(
                info,
                bytes,
            ) matches Ok(value) && value == rounded_bits(
                (0x80_0000 + fraction) as nat,
                1,
                924 + exponent,
            ))
            &&& 0 < exponent < 255 && bits >= 0x8000_0000 ==> (stored_temperature(
                info,
                bytes,
            ) matches Ok(value) && value == SIGN + rounded_bits(
                (0x80_0000 + fraction) as nat,
                1,
                924 + exponent,
            ))
        }),
{
}

/// A sensor is that of the device where its key starts with `Tg` and holds a float, or with `TG`
/// and holds the old form.
pub proof fn law_sensors_are_told_by_key_and_form(key: u32, info: KeyInfo)
    ensures
        is_gpu_temperature(key, info) <==> (key / 65_536 == 0x5467 && info.data_type == 0x666c_7420
            && info.data_size == 4) || (key / 65_536 == 0x5447 && info.data_type == 0x7370_3738
            && info.data_size == 2),
{
}

/// A plausible temperature lies between one and one hundred and fifty degrees.
pub proof fn law_plausible_temperatures_are_moderate(bits: int)
    ensures
        is_plausible(bits) <==> crate::float_arithmetic::nearest_bits(1) <= bits
            <= crate::float_arithmetic::nearest_bits(150),
{
    vstd::arithmetic::power2::lemma2_to64();
    vstd::arithmetic::power2::lemma2_to64_rest();
    crate::float_laws::lemma_bits_by(1, 52);
    crate::float_laws::lemma_bits_by(150, 45);
}

/// The sum of temperatures is that of all of them, one after the other.
pub proof fn law_temperatures_add_up(readings: Seq<Binary64>, next: Binary64)
    ensures
        temperature_sum(readings.push(next)) == temperature_sum(readings).plus(next),
        temperature_sum(Seq::empty()) == (Binary64 { bits: 0 }),
{
    assert(readings.push(next).drop_last() =~= readings);
}

/// On Apple silicon the sensors belong to Apple devices alone.
pub proof fn law_sensors_belong_to_eligible_devices(device: ListedDevice, apple_silicon: bool)
    ensures
        is_eligible(device, apple_silicon) <==> !apple_silicon || contains(
            lower(device.name@),
            "apple"@,
        ),
{
}

/// The vendor of a device is told by its name. Apple counts before the others.
pub proof fn law_names_tell_the_vendor(name: Seq<char>)
    ensures
        ({
            let plain = lower(name);
            let apple = contains(plain, "apple"@);
            let nvidia = contains(plain, "nvidia"@) || contains(plain, "geforce"@);
            let amd = contains(plain, "amd"@) || contains(plain, "radeon"@);
            let intel = contains(plain, "intel"@);
            &&& apple ==> named_vendor(name) == GpuVendor::Apple && sensor_vendor(name)
                == GpuVendor::Apple
            &&& !apple && nvidia ==> named_vendor(name) == GpuVendor::Nvidia
            &&& !apple && !nvidia && amd ==> named_vendor(name) == GpuVendor::Amd
            &&& !apple && !nvidia && !amd && intel ==> named_vendor(name) == GpuVendor::Intel
                && sensor_vendor(name) == GpuVendor::Intel
            &&& !apple && !nvidia && !amd && !intel ==> named_vendor(name) == GpuVendor::Unknown
                && sensor_vendor(name) == GpuVendor::Unknown
            &&& !apple && !intel && amd ==> sensor_vendor(name) == GpuVendor::Amd
            &&& !apple && !intel && !amd && nvidia ==> sensor_vendor(name) == GpuVendor::Nvidia
            &&& !apple && intel ==> sensor_vendor(name) == GpuVendor::Intel
        }),
{
}

/// A device that can be taken away is external, one that shares its memory or saves power is
/// integrated, and one in a slot is discrete.
pub proof fn law_metal_tells_the_kind(device: MetalDevice)
    ensures
        device.removable || device.location == MetalLocation::External <==> metal_kind(device)
            == GpuKind::External,
        !device.removable && device.location != MetalLocation::External && (device.unified_memory
            || device.low_power) <==> metal_kind(device) == GpuKind::Integrated,
        !device.removable && device.location == MetalLocation::Slot && !device.unified_memory
            && !device.low_power <==> metal_kind(device) == GpuKind::Discrete,
{
}

/// An observation of Metal tells the name, the registry identifier in sixteen digits, and the
/// memory that the device shares with the host.
pub proof fn law_metal_observations_tell_the_device(
    o: DeviceObservation,
    device: MetalDevice,
    ordinal: int,
    host_memory: Option<u64>,
)
    requires
        is_metal_observation(o, device, ordinal, host_memory),
    ensures
        o.provider@ == "macos-metal"@,
        o.name@ == device.name@,
        o.macos is Some,
        o.macos->0.metal_registry_id is Some,
        o.macos->0.metal_registry_id->0@ == padded_digits(device.registry_id as nat, 16, 16),
        o.provider_device_id@ == padded_digits(device.registry_id as nat, 16, 16),
        o.macos->0.registry_entry_id is None,
        device.unified_memory ==> o.memory.unified_total_bytes == host_memory && o.memory.topology
            == MemoryTopology::Unified,
        !device.unified_memory ==> o.memory.unified_total_bytes is None && o.memory.topology
            == MemoryTopology::Dedicated,
        o.memory.dedicated_total_bytes is None,
        contains(lower(device.name@), "apple"@) ==> o.vendor == GpuVendor::Apple
            && o.architecture is Some && o.architecture->0@ == device.name@,
        0 <= ordinal <= u32::MAX ==> o.enumeration_ordinal == Some(ordinal as u32),
{
}

/// A family is named exactly where it is supported.
pub proof fn law_families_are_told_by_name(families: MetalFamilies)
    ensures
        ({
            let names = family_names(families);
            &&& families.apple1 ==> names.contains("apple1"@)
            &&& families.apple2 ==> names.contains("apple2"@)
            &&& families.apple3 ==> names.contains("apple3"@)
            &&& families.apple4 ==> names.contains("apple4"@)
            &&& families.apple5 ==> names.contains("apple5"@)
            &&& families.apple6 ==> names.contains("apple6"@)
            &&& families.apple7 ==> names.contains("apple7"@)
            &&& families.apple8 ==> names.contains("apple8"@)
            &&& families.apple9 ==> names.contains("apple9"@)
            &&& families.mac1 ==> names.contains("mac1"@)
            &&& families.mac2 ==> names.contains("mac2"@)
            &&& families.metal3 ==> names.contains("metal3"@)
            &&& families.metal4 ==> names.contains("metal4"@)
            &&& names.len() == count_flags(families)
        }),
{
    lemma_apple_families(families);
    let p8 = apple_families(families);
    let p9 = p8 + named(families.mac1, "mac1"@);
    lemma_named(p8, families.mac1, "mac1"@);
    let p10 = p9 + named(families.mac2, "mac2"@);
    lemma_named(p9, families.mac2, "mac2"@);
    let p11 = p10 + named(families.metal3, "metal3"@);
    lemma_named(p10, families.metal3, "metal3"@);
    let p12 = p11 + named(families.metal4, "metal4"@);
    lemma_named(p11, families.metal4, "metal4"@);
    assert(family_names(families) == p12);
    assert(families.apple1 ==> p12.contains("apple1"@)) by {
        lemma_listed(p12, "apple1"@);
    }
    assert(families.apple2 ==> p12.contains("apple2"@)) by {
        lemma_listed(p12, "apple2"@);
    }
    assert(families.apple3 ==> p12.contains("apple3"@)) by {
        lemma_listed(p12, "apple3"@);
    }
    assert(families.apple4 ==> p12.contains("apple4"@)) by {
        lemma_listed(p12, "apple4"@);
    }
    assert(families.apple5 ==> p12.contains("apple5"@)) by {
        lemma_listed(p12, "apple5"@);
    }
    assert(families.apple6 ==> p12.contains("apple6"@)) by {
        lemma_listed(p12, "apple6"@);
    }
    assert(families.apple7 ==> p12.contains("apple7"@)) by {
        lemma_listed(p12, "apple7"@);
    }
    assert(families.apple8 ==> p12.contains("apple8"@)) by {
        lemma_listed(p12, "apple8"@);
    }
    assert(families.apple9 ==> p12.contains("apple9"@)) by {
        lemma_listed(p12, "apple9"@);
    }
    assert(families.mac1 ==> p12.contains("mac1"@)) by {
        lemma_listed(p12, "mac1"@);
    }
    assert(families.mac2 ==> p12.contains("mac2"@)) by {
        lemma_listed(p12, "mac2"@);
    }
    assert(families.metal3 ==> p12.contains("metal3"@)) by {
        lemma_listed(p12, "metal3"@);
    }
    assert(families.metal4 ==> p12.contains("metal4"@)) by {
        lemma_listed(p12, "metal4"@);
    }
}

proof fn lemma_apple_families(families: MetalFamilies)
    ensures
        ({
            let names = apple_families(families);
            &&& families.apple1 ==> listed(names, "apple1"@)
            &&& families.apple2 ==> listed(names, "apple2"@)
            &&& families.apple3 ==> listed(names, "apple3"@)
            &&& families.apple4 ==> listed(names, "apple4"@)
            &&& families.apple5 ==> listed(names, "apple5"@)
            &&& families.apple6 ==> listed(names, "apple6"@)
            &&& families.apple7 ==> listed(names, "apple7"@)
            &&& families.apple8 ==> listed(names, "apple8"@)
            &&& families.apple9 ==> listed(names, "apple9"@)
            &&& names.len() == count_apples(families)
        }),
{
    let p0 = named(families.apple1, "apple1"@);
    lemma_first_named(families.apple1, "apple1"@);
    let p1 = p0 + named(families.apple2, "apple2"@);
    lemma_named(p0, families.apple2, "apple2"@);
    let p2 = p1 + named(families.apple3, "apple3"@);
    lemma_named(p1, families.apple3, "apple3"@);
    let p3 = p2 + named(families.apple4, "apple4"@);
    lemma_named(p2, families.apple4, "apple4"@);
    let p4 = p3 + named(families.apple5, "apple5"@);
    lemma_named(p3, families.apple5, "apple5"@);
    let p5 = p4 + named(families.apple6, "apple6"@);
    lemma_named(p4, families.apple6, "apple6"@);
    let p6 = p5 + named(families.apple7, "apple7"@);
    lemma_named(p5, families.apple7, "apple7"@);
    let p7 = p6 + named(families.apple8, "apple8"@);
    lemma_named(p6, families.apple8, "apple8"@);
    let p8 = p7 + named(families.apple9, "apple9"@);
    lemma_named(p7, families.apple9, "apple9"@);
    assert(apple_families(families) == p8);
}

/// The name is among the names.
#[verifier::opaque]
pub open spec fn listed(names: Seq<Seq<char>>, name: Seq<char>) -> bool {
    names.contains(name)
}

pub proof fn lemma_listed(names: Seq<Seq<char>>, name: Seq<char>)
    ensures
        listed(names, name) == names.contains(name),
{
    reveal(listed);
}

pub proof fn lemma_first_named(flag: bool, name: Seq<char>)
    ensures
        flag ==> listed(named(flag, name), name),
        named(flag, name).len() == count(flag),
{
    reveal(listed);
    if flag {
        assert(named(flag, name)[0] == name);
    }
}

pub proof fn lemma_named(before: Seq<Seq<char>>, flag: bool, name: Seq<char>)
    ensures
        forall|other: Seq<char>| #[trigger]
            listed(before, other) ==> listed(before + named(flag, name), other),
        flag ==> listed(before + named(flag, name), name),
        (before + named(flag, name)).len() == before.len() + count(flag),
{
    reveal(listed);
    let after = before + named(flag, name);
    assert forall|other: Seq<char>| #[trigger] listed(before, other) implies listed(
        after,
        other,
    ) by {
        let i = choose|i: int| 0 <= i < before.len() && before[i] == other;
        assert(after[i] == other);
    }
    if flag {
        assert(after[before.len() as int] == name);
    }
}

/// One where the flag is set.
pub open spec fn count(flag: bool) -> int {
    if flag {
        1
    } else {
        0
    }
}

/// How many of the families of Apple are supported.
pub open spec fn count_apples(families: MetalFamilies) -> int {
    count(families.apple1) + count(families.apple2) + count(families.apple3) + count(
        families.apple4,
    ) + count(families.apple5) + count(families.apple6) + count(families.apple7) + count(
        families.apple8,
    ) + count(families.apple9)
}

/// How many families are supported.
pub open spec fn count_flags(families: MetalFamilies) -> int {
    count_apples(families) + count(families.mac1) + count(families.mac2) + count(families.metal3)
        + count(families.metal4)
}

/// The time between two samples is their difference, and never nothing.
pub proof fn law_time_between_samples_is_their_difference(before: u64, now: u64)
    ensures
        before < now ==> elapsed_between(before, now) == now - before,
        before >= now ==> elapsed_between(before, now) == 1,
{
}

} // verus!
