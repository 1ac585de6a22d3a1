//! What the counters of IOReport mean.
use crate::binary64::{Binary64, BILLION, HUNDRED, INFINITY, MILLION, THOUSAND};
use crate::float_arithmetic::{lemma_integer_positive, nearest_bits};
use crate::merge::{absences, values, AbsenceModel, ValueModel};
use crate::model::{
    MetricKey, MetricObservation, MetricQuality, MetricValue, ProviderSample, TimestampMs,
    UnavailableObservation, UnavailableReason,
};
use crate::text::{
    chars_of, decimal, decimal_text, extend, extend_text, index_of, joined, owned, parse_number,
    position_of, raised, read_number, same, same_text, slice_of, string_of, trim, trimmed, upper,
    utf8_text, CharClass,
};
use vstd::prelude::*;
use vstd::utf8::{decode_utf8, valid_utf8};

verus! {

/// The latest major version of macOS on which the counters were validated.
pub const MAX_VALIDATED_MACOS_MAJOR: u32 = 27;

pub const MAX_IOREPORT_DICTIONARY_ENTRIES: usize = 4_096;

/// The most channels that are looked through.
pub const MAX_IOREPORT_CHANNELS: usize = 65_536;

/// The most channels that are read.
pub const MAX_SELECTED_IOREPORT_CHANNELS: usize = 256;

/// The most states of a channel that are read.
pub const MAX_IOREPORT_STATES: usize = 256;

pub const MAX_CF_STRING_UNITS: usize = 4_096;

pub const MAX_CF_STRING_BYTES: usize = 16_384;

pub const MAX_SYSCTL_VERSION_BYTES: usize = 256;

/// The name of the provider.
pub open spec fn ioreport_name() -> Seq<char> {
    "apple-ioreport"@
}

/// A counter.
#[derive(Debug)]
pub struct Channel {
    pub group: String,
    pub subgroup: String,
    pub name: String,
    pub unit: String,
}

/// A counter by its contents.
pub struct ChannelModel {
    pub group: Seq<char>,
    pub subgroup: Seq<char>,
    pub name: Seq<char>,
    pub unit: Seq<char>,
}

impl View for Channel {
    type V = ChannelModel;

    open spec fn view(&self) -> ChannelModel {
        ChannelModel {
            group: self.group@,
            subgroup: self.subgroup@,
            name: self.name@,
            unit: self.unit@,
        }
    }
}

pub open spec fn channel_models(channels: Seq<Channel>) -> Seq<ChannelModel> {
    channels.map_values(|channel: Channel| channel@)
}

/// The counter tells how long the device was in which state.
pub open spec fn tells_states(channel: ChannelModel) -> bool {
    channel.group == "GPU Stats"@
}

/// The counter tells how much energy the device took.
pub open spec fn tells_energy(channel: ChannelModel) -> bool {
    channel.group == "Energy Model"@ && channel.name == "GPU Energy"@
}

/// The counter is read.
pub open spec fn is_selected(channel: ChannelModel) -> bool {
    (tells_states(channel) && channel.subgroup == "GPU Performance States"@) || tells_energy(
        channel,
    )
}

impl Channel {
    pub fn is_state_channel(&self) -> (holds: bool)
        ensures
            holds == tells_states(self@),
    {
        same_text(self.group.as_str(), "GPU Stats")
    }

    pub fn is_energy_channel(&self) -> (holds: bool)
        ensures
            holds == tells_energy(self@),
    {
        let group = same_text(self.group.as_str(), "Energy Model");
        let name = same_text(self.name.as_str(), "GPU Energy");
        group && name
    }
}

pub fn is_gpu_channel(channel: &Channel) -> (holds: bool)
    ensures
        holds == is_selected(channel@),
{
    let subgroup = same_text(channel.subgroup.as_str(), "GPU Performance States");
    (channel.is_state_channel() && subgroup) || channel.is_energy_channel()
}

/// In a state of this name the device works.
pub open spec fn works_in(name: Seq<char>) -> bool {
    let state = upper(trim(CharClass::White, name));
    state != "OFF"@ && state != "IDLE"@ && state != "DOWN"@
}

pub fn is_active_state(name: &str) -> (active: bool)
    ensures
        active == works_in(name@),
{
    let chars = chars_of(name);
    let inner = trimmed(CharClass::White, &chars);
    let state = raised(&inner);
    let off = same(&state, "OFF");
    let idle = same(&state, "IDLE");
    let down = same(&state, "DOWN");
    !off && !idle && !down
}

/// The divisor that makes joules of a unit.
pub open spec fn unit_divisor(unit: Seq<char>) -> Option<Binary64> {
    let unit = trim(CharClass::White, unit);
    if unit == "mJ"@ {
        Some(Binary64 { bits: THOUSAND })
    } else if unit == "uJ"@ || unit == "\u{b5}J"@ {
        Some(Binary64 { bits: MILLION })
    } else if unit == "nJ"@ {
        Some(Binary64 { bits: BILLION })
    } else {
        None
    }
}

pub fn energy_to_joules(value: Binary64, unit: &str) -> (joules: Result<Binary64, String>)
    ensures
        match joules {
            Ok(joules) => {
                &&& unit_divisor(unit@) is Some
                &&& if value.nan() {
                    joules.nan()
                } else {
                    joules == value.divided_by(unit_divisor(unit@)->0)
                }
                &&& value.countable() ==> joules == value.over(unit_divisor(unit@)->0)
                    && joules.countable()
            },
            Err(words) => unit_divisor(unit@) is None && words@
                == "unsupported IOReport energy unit "@ + trim(CharClass::White, unit@),
        },
{
    let chars = chars_of(unit);
    let inner = trimmed(CharClass::White, &chars);
    let divisor: u64 = if same(&inner, "mJ") {
        THOUSAND
    } else if same(&inner, "uJ") || same(&inner, "\u{b5}J") {
        MILLION
    } else if same(&inner, "nJ") {
        BILLION
    } else {
        let mut text = chars_of("unsupported IOReport energy unit ");
        extend(&mut text, &inner);
        return Err(string_of(&text));
    };
    if !value.is_finite() {
        return Ok(value);
    }
    if value.bits < INFINITY {
        return Ok(value.quotient_by(Binary64::from_bits(divisor)));
    }
    Ok(value.divide(Binary64::from_bits(divisor)))
}

/// What is said of a number of entries that is larger than any sensible one.
pub open spec fn too_many(label: Seq<char>, count: int, maximum: usize) -> Seq<char> {
    label + " count "@ + decimal(count as nat) + " exceeds the "@ + decimal(maximum as nat)
        + "-entry safety limit"@
}

fn too_many_text(label: &str, count: u64, maximum: usize) -> (text: String)
    ensures
        text@ == too_many(label@, count as int, maximum),
{
    let mut text = chars_of(label);
    extend_text(&mut text, " count ");
    let number = decimal_text(count);
    extend_text(&mut text, number.as_str());
    extend_text(&mut text, " exceeds the ");
    let number = decimal_text(maximum as u64);
    extend_text(&mut text, number.as_str());
    extend_text(&mut text, "-entry safety limit");
    string_of(&text)
}

/// A number of entries, where it can be believed.
pub fn checked_cf_count(label: &str, count: i64, maximum: usize) -> (result: Result<i64, String>)
    ensures
        match result {
            Ok(kept) => kept == count && 0 <= count <= maximum,
            Err(words) => if count < 0 {
                words@ == label@ + " returned a negative or oversized count"@
            } else {
                count > maximum && words@ == too_many(label@, count as int, maximum)
            },
        },
{
    if count < 0 {
        return Err(joined(label, " returned a negative or oversized count"));
    }
    if count as u64 > maximum as u64 {
        return Err(too_many_text(label, count as u64, maximum));
    }
    Ok(count)
}

/// A number of entries, where it can be believed.
pub fn checked_i32_count(label: &str, count: i32, maximum: usize) -> (result: Result<usize, String>)
    ensures
        match result {
            Ok(kept) => kept == count && 0 <= count <= maximum,
            Err(words) => if count < 0 {
                words@ == label@ + " returned a negative count"@
            } else {
                count > maximum && words@ == too_many(label@, count as int, maximum)
            },
        },
{
    if count < 0 {
        return Err(joined(label, " returned a negative count"));
    }
    if count as u64 > maximum as u64 {
        return Err(too_many_text(label, count as u64, maximum));
    }
    Ok(count as usize)
}

/// The bytes before the first zero, where there is one.
pub open spec fn until_zero(bytes: Seq<u8>) -> Option<Seq<u8>>
    decreases bytes.len(),
{
    if bytes.len() == 0 {
        None
    } else if bytes[0] == 0 {
        Some(Seq::empty())
    } else {
        match until_zero(bytes.skip(1)) {
            Some(rest) => Some(seq![bytes[0]] + rest),
            None => None,
        }
    }
}

/// The first number of a version.
pub open spec fn major_of(text: Seq<char>) -> Option<u32> {
    match read_number(text.take(index_of(text, '.')), 10, u32::MAX as nat) {
        Ok(major) => Some(major as u32),
        Err(fault) => None,
    }
}

/// The major version that a text with a zero at its end names.
pub open spec fn stored_major(bytes: Seq<u8>) -> Option<u32> {
    match until_zero(bytes) {
        Some(text) => if valid_utf8(text) {
            major_of(decode_utf8(text))
        } else {
            None
        },
        None => None,
    }
}

spec fn bytes_after(read: Seq<u8>, rest: Option<Seq<u8>>) -> Option<Seq<u8>> {
    match rest {
        Some(rest) => Some(read + rest),
        None => None,
    }
}

/// Reads the major version of the system.
pub fn parse_macos_major(bytes: &Vec<u8>) -> (major: Option<u32>)
    ensures
        major == stored_major(bytes@),
{
    let mut text: Vec<u8> = Vec::new();
    let mut i: usize = 0;
    proof {
        assert(bytes@.skip(0) == bytes@);
        if let Some(rest) = until_zero(bytes@) {
            assert(Seq::<u8>::empty() + rest == rest);
        }
    }
    while i < bytes.len() && bytes[i] != 0
        invariant
            i <= bytes.len(),
            until_zero(bytes@) == bytes_after(text@, until_zero(bytes@.skip(i as int))),
        decreases bytes.len() - i,
    {
        let ghost rest = bytes@.skip(i as int);
        assert(rest[0] == bytes@[i as int]);
        assert(rest.skip(1) == bytes@.skip(i + 1));
        proof {
            if let Some(more) = until_zero(rest.skip(1)) {
                assert(text@ + (seq![rest[0]] + more) == text@.push(rest[0]) + more);
            }
        }
        text.push(bytes[i]);
        i = i + 1;
    }
    if i >= bytes.len() {
        assert(bytes@.skip(i as int).len() == 0);
        return None;
    }
    assert(bytes@.skip(i as int)[0] == 0);
    assert(text@ + Seq::<u8>::empty() == text@);
    match utf8_text(text) {
        None => None,
        Some(version) => {
            proof {
                vstd::utf8::encode_utf8_decode_utf8(version@);
            }
            let chars = chars_of(version.as_str());
            let end: usize = position_of(&chars, '.', 0);
            assert(chars@.skip(0) == chars@);
            let first = slice_of(&chars, 0, end);
            assert(first@ == chars@.take(index_of(chars@, '.')));
            match parse_number(&first, 10, u32::MAX as u64) {
                Ok(major) => Some(major as u32),
                Err(_) => None,
            }
        },
    }
}

/// The counters are used on this version of the system.
pub fn check_version(major: Option<u32>) -> (result: Result<(), String>)
    ensures
        match result {
            Ok(_) => !(major matches Some(major) && major > MAX_VALIDATED_MACOS_MAJOR),
            Err(words) => major matches Some(major) && major > MAX_VALIDATED_MACOS_MAJOR && words@
                == "IOReport is disabled on unvalidated macOS major version "@ + decimal(
                major as nat,
            ),
        },
{
    if let Some(major) = major {
        if major > MAX_VALIDATED_MACOS_MAJOR {
            let number = decimal_text(major as u64);
            return Err(
                joined(
                    "IOReport is disabled on unvalidated macOS major version ",
                    number.as_str(),
                ),
            );
        }
    }
    Ok(())
}

/// The search for counters to be read.
pub struct ChannelScan {
    channels: Vec<Channel>,
}

impl View for ChannelScan {
    type V = Seq<ChannelModel>;

    closed spec fn view(&self) -> Seq<ChannelModel> {
        channel_models(self.channels@)
    }
}

/// A counter whose unit has no blanks around it.
pub open spec fn tidied(channel: ChannelModel) -> ChannelModel {
    ChannelModel { unit: trim(CharClass::White, channel.unit), ..channel }
}

impl ChannelScan {
    pub fn new() -> (scan: Self)
        ensures
            scan@ == Seq::<ChannelModel>::empty(),
    {
        let scan = ChannelScan { channels: Vec::new() };
        assert(scan@ == Seq::<ChannelModel>::empty());
        scan
    }

    /// One more counter; says whether it is read.
    pub fn offer(&mut self, channel: Channel) -> (selected: Result<bool, String>)
        ensures
            match selected {
                Ok(true) => is_selected(channel@) && final(self)@ == old(self)@.push(
                    tidied(channel@),
                ) && old(self)@.len() < MAX_SELECTED_IOREPORT_CHANNELS,
                Ok(false) => !is_selected(channel@) && final(self)@ == old(self)@,
                Err(words) => {
                    &&& is_selected(channel@)
                    &&& old(self)@.len() >= MAX_SELECTED_IOREPORT_CHANNELS
                    &&& final(self)@ == old(self)@
                    &&& words@ == "IOReport selected more than 256 GPU channels"@
                },
            },
    {
        if !is_gpu_channel(&channel) {
            return Ok(false);
        }
        assert(self@.len() == self.channels@.len());
        if self.channels.len() >= MAX_SELECTED_IOREPORT_CHANNELS {
            return Err(owned("IOReport selected more than 256 GPU channels"));
        }
        let ghost held = self@;
        let chars = chars_of(channel.unit.as_str());
        let inner = trimmed(CharClass::White, &chars);
        let Channel { group, subgroup, name, unit: _ } = channel;
        let tidy = Channel { group, subgroup, name, unit: string_of(&inner) };
        self.channels.push(tidy);
        assert(self@ == held.push(tidy@));
        Ok(true)
    }

    /// The counters to be read.
    pub fn finish(self) -> (channels: Result<Vec<Channel>, String>)
        ensures
            match channels {
                Ok(channels) => channel_models(channels@) == self@ && self@.len() > 0,
                Err(words) => self@.len() == 0 && words@
                    == "no supported GPU IOReport channels were found"@,
            },
    {
        assert(self@.len() == self.channels@.len());
        if self.channels.len() == 0 {
            return Err(owned("no supported GPU IOReport channels were found"));
        }
        Ok(self.channels)
    }
}

/// How long the device was in a state.
#[derive(Debug)]
pub struct StateReading {
    pub name: String,
    pub residency: i64,
}

/// What a counter says: its states, or its number.
#[derive(Debug)]
pub struct ChannelReading {
    pub states: Vec<StateReading>,
    pub value: i64,
}

/// What was added up.
pub struct DeltaSums {
    pub active: int,
    pub total: int,
    pub energy: Binary64,
}

/// The sums after the first `n` states of a counter.
pub open spec fn with_states(sums: DeltaSums, states: Seq<StateReading>, n: int) -> Result<
    DeltaSums,
    Seq<char>,
>
    decreases n,
{
    if n <= 0 {
        Ok(sums)
    } else {
        match with_states(sums, states, n - 1) {
            Err(words) => Err(words),
            Ok(before) => if states[n - 1].residency < 0 {
                Err("IOReport returned negative state residency"@)
            } else {
                Ok(
                    DeltaSums {
                        active: before.active + if works_in(states[n - 1].name@) {
                            states[n - 1].residency as int
                        } else {
                            0
                        },
                        total: before.total + states[n - 1].residency,
                        energy: before.energy,
                    },
                )
            },
        }
    }
}

/// The sums after one more counter.
pub open spec fn with_channel(
    sums: DeltaSums,
    channel: ChannelModel,
    reading: ChannelReading,
) -> Result<DeltaSums, Seq<char>> {
    if tells_states(channel) {
        if reading.states@.len() > MAX_IOREPORT_STATES {
            Err(
                too_many(
                    "IOReport state array"@,
                    reading.states@.len() as int,
                    MAX_IOREPORT_STATES,
                ),
            )
        } else {
            with_states(sums, reading.states@, reading.states@.len() as int)
        }
    } else if tells_energy(channel) {
        if reading.value < 0 {
            Err("IOReport returned negative GPU energy"@)
        } else {
            match unit_divisor(channel.unit) {
                None => Err(
                    "unsupported IOReport energy unit "@ + trim(CharClass::White, channel.unit),
                ),
                Some(divisor) => {
                    let raw = Binary64 { bits: nearest_bits(reading.value as nat) as u64 };
                    let energy = sums.energy.plus(raw.over(divisor));
                    if energy.bits == INFINITY {
                        Err("IOReport GPU energy overflowed"@)
                    } else {
                        Ok(DeltaSums { energy, ..sums })
                    }
                },
            }
        }
    } else {
        Ok(sums)
    }
}

/// The sums of the first `n` counters. What could not be read ends the sums.
pub open spec fn delta_sums(
    channels: Seq<ChannelModel>,
    readings: Seq<Result<ChannelReading, String>>,
    n: int,
) -> Result<DeltaSums, Seq<char>>
    decreases n,
{
    if n <= 0 {
        Ok(DeltaSums { active: 0, total: 0, energy: Binary64 { bits: 0 } })
    } else {
        match delta_sums(channels, readings, n - 1) {
            Err(words) => Err(words),
            Ok(before) => match readings[n - 1] {
                Err(words) => Err(words@),
                Ok(reading) => with_channel(before, channels[n - 1], reading),
            },
        }
    }
}

proof fn lemma_states_fault_stays(sums: DeltaSums, states: Seq<StateReading>, n: int, m: int)
    requires
        n <= m,
        with_states(sums, states, n) is Err,
    ensures
        with_states(sums, states, m) == with_states(sums, states, n),
    decreases m - n,
{
    if n < m {
        lemma_states_fault_stays(sums, states, n, m - 1);
    }
}

proof fn lemma_delta_fault_stays(
    channels: Seq<ChannelModel>,
    readings: Seq<Result<ChannelReading, String>>,
    n: int,
    m: int,
)
    requires
        n <= m,
        delta_sums(channels, readings, n) is Err,
    ensures
        delta_sums(channels, readings, m) == delta_sums(channels, readings, n),
    decreases m - n,
{
    if n < m {
        lemma_delta_fault_stays(channels, readings, n, m - 1);
    }
}

/// What was added up, in machine integers.
struct Sums {
    active: u128,
    total: u128,
    energy: Binary64,
}

impl View for Sums {
    type V = DeltaSums;

    closed spec fn view(&self) -> DeltaSums {
        DeltaSums { active: self.active as int, total: self.total as int, energy: self.energy }
    }
}

fn add_states(sums: Sums, states: &Vec<StateReading>) -> (result: Result<Sums, String>)
    requires
        states@.len() <= MAX_IOREPORT_STATES,
        sums.active <= sums.total < 0x1_0000_0000_0000_0000_0000_0000,
    ensures
        match result {
            Ok(after) => with_states(sums@, states@, states@.len() as int) == Ok::<
                DeltaSums,
                Seq<char>,
            >(after@) && after.active <= after.total <= sums.total + states@.len() * i64::MAX
                && after.energy == sums.energy,
            Err(words) => with_states(sums@, states@, states@.len() as int) == Err::<
                DeltaSums,
                Seq<char>,
            >(words@),
        },
{
    let mut active: u128 = sums.active;
    let mut total: u128 = sums.total;
    let mut i: usize = 0;
    while i < states.len()
        invariant
            i <= states.len() <= MAX_IOREPORT_STATES,
            active <= total <= sums.total + i * i64::MAX,
            sums.total < 0x1_0000_0000_0000_0000_0000_0000,
            with_states(sums@, states@, i as int) == Ok::<DeltaSums, Seq<char>>(
                DeltaSums { active: active as int, total: total as int, energy: sums.energy },
            ),
        decreases states.len() - i,
    {
        if states[i].residency < 0 {
            proof {
                lemma_states_fault_stays(sums@, states@, i + 1, states@.len() as int);
            }
            return Err(owned("IOReport returned negative state residency"));
        }
        let residency: u128 = states[i].residency as u128;
        assert((i + 1) * i64::MAX == i * i64::MAX + i64::MAX) by (nonlinear_arith);
        assert(i * i64::MAX <= 256 * i64::MAX) by (nonlinear_arith)
            requires
                i <= 256,
        ;
        total = total + residency;
        if is_active_state(states[i].name.as_str()) {
            active = active + residency;
        }
        i = i + 1;
    }
    Ok(Sums { active, total, energy: sums.energy })
}

fn add_energy(sums: Sums, channel: &Channel, value: i64) -> (result: Result<Sums, String>)
    requires
        tells_energy(channel@),
        !tells_states(channel@),
        sums.energy.countable(),
    ensures
        forall|reading: ChannelReading| #[trigger]
            reading.value == value ==> match result {
                Ok(after) => with_channel(sums@, channel@, reading) == Ok::<DeltaSums, Seq<char>>(
                    after@,
                ),
                Err(words) => with_channel(sums@, channel@, reading) == Err::<
                    DeltaSums,
                    Seq<char>,
                >(words@),
            },
        result matches Ok(after) ==> after.energy.bits < INFINITY && after.active == sums.active
            && after.total == sums.total,
{
    if value < 0 {
        return Err(owned("IOReport returned negative GPU energy"));
    }
    let raw = Binary64::from_u64(value as u64);
    match energy_to_joules(raw, channel.unit.as_str()) {
        Err(words) => Err(words),
        Ok(joules) => {
            let energy = sums.energy.sum_with(joules);
            if energy.bits == INFINITY {
                return Err(owned("IOReport GPU energy overflowed"));
            }
            Ok(Sums { active: sums.active, total: sums.total, energy })
        },
    }
}

fn add_channels(channels: &Vec<Channel>, readings: &Vec<Result<ChannelReading, String>>) -> (result:
    Result<Sums, String>)
    requires
        channels@.len() == readings@.len(),
        channels@.len() <= MAX_SELECTED_IOREPORT_CHANNELS,
    ensures
        match result {
            Ok(sums) => delta_sums(
                channel_models(channels@),
                readings@,
                readings@.len() as int,
            ) == Ok::<DeltaSums, Seq<char>>(sums@) && sums.active <= sums.total
                < 0x1_0000_0000_0000_0000_0000_0000 && sums.energy.bits < INFINITY,
            Err(words) => delta_sums(
                channel_models(channels@),
                readings@,
                readings@.len() as int,
            ) == Err::<DeltaSums, Seq<char>>(words@),
        },
{
    let ghost models = channel_models(channels@);
    let ghost count = readings@.len() as int;
    let mut sums = Sums { active: 0, total: 0, energy: Binary64 { bits: 0 } };
    let mut i: usize = 0;
    while i < readings.len()
        invariant
            i <= readings.len() <= MAX_SELECTED_IOREPORT_CHANNELS,
            channels@.len() == readings@.len(),
            count == readings@.len(),
            models == channel_models(channels@),
            delta_sums(models, readings@, i as int) == Ok::<DeltaSums, Seq<char>>(sums@),
            sums.active <= sums.total <= i * 0x100 * i64::MAX,
            sums.energy.bits < INFINITY,
        decreases readings.len() - i,
    {
        assert(models[i as int] == channels@[i as int]@);
        proof {
            lemma_total_bound(i as int);
        }
        match &readings[i] {
            Err(words) => {
                proof {
                    lemma_delta_fault_stays(models, readings@, i + 1, count);
                }
                return Err(words.clone());
            },
            Ok(reading) => {
                let channel = &channels[i];
                let next = if channel.is_state_channel() {
                    if reading.states.len() > MAX_IOREPORT_STATES {
                        Err(
                            too_many_text(
                                "IOReport state array",
                                reading.states.len() as u64,
                                MAX_IOREPORT_STATES,
                            ),
                        )
                    } else {
                        add_states(sums, &reading.states)
                    }
                } else if channel.is_energy_channel() {
                    add_energy(sums, channel, reading.value)
                } else {
                    Ok(sums)
                };
                match next {
                    Err(words) => {
                        proof {
                            lemma_delta_fault_stays(models, readings@, i + 1, count);
                        }
                        return Err(words);
                    },
                    Ok(after) => {
                        sums = after;
                    },
                }
            },
        }
        i = i + 1;
    }
    proof {
        lemma_total_bound(i as int);
    }
    Ok(sums)
}

proof fn lemma_total_bound(i: int)
    requires
        0 <= i <= 256,
    ensures
        i * 0x100 * i64::MAX < 0x1_0000_0000_0000_0000_0000_0000,
        (i + 1) * 0x100 * i64::MAX == i * 0x100 * i64::MAX + 0x100 * i64::MAX,
{
    assert(i * 0x100 * i64::MAX <= 256 * 0x100 * i64::MAX) by (nonlinear_arith)
        requires
            0 <= i <= 256,
    ;
    assert((i + 1) * 0x100 * i64::MAX == i * 0x100 * i64::MAX + 0x100 * i64::MAX)
        by (nonlinear_arith);
}

/// A time in seconds.
pub open spec fn seconds(nanos: u64) -> Binary64 {
    (Binary64 { bits: nearest_bits((nanos / 1_000_000_000) as nat) as u64 }).plus(
        (Binary64 { bits: nearest_bits((nanos % 1_000_000_000) as nat) as u64 }).over(
            Binary64 { bits: BILLION },
        ),
    )
}

fn seconds_of(nanos: u64) -> (value: Binary64)
    ensures
        value == seconds(nanos),
        value.countable(),
{
    let whole = Binary64::from_u64(nanos / 1_000_000_000);
    let part = Binary64::from_u64(nanos % 1_000_000_000);
    whole.sum_with(part.quotient_by(Binary64::from_bits(BILLION)))
}

/// The part of the time in which the device worked, in percent.
pub open spec fn busy_percent(active: int, total: int) -> Binary64 {
    (Binary64 { bits: nearest_bits(active as nat) as u64 }).over(
        Binary64 { bits: nearest_bits(total as nat) as u64 },
    ).times(Binary64 { bits: HUNDRED })
}

/// A value of the provider.
pub open spec fn ioreport_value(
    device_id: Seq<char>,
    metric: MetricKey,
    value: Binary64,
    definition: Seq<char>,
    elapsed: u64,
    sampled_at: TimestampMs,
) -> ValueModel {
    ValueModel {
        device_id,
        metric,
        value: MetricValue::Number(value),
        source: ioreport_name(),
        quality: MetricQuality::Derived,
        sampled_at,
        interval_ms: Some(elapsed / 1_000_000),
        definition: Some(definition),
    }
}

/// How busy the device was, where the counters tell.
pub open spec fn busy_values(
    sums: DeltaSums,
    device_id: Seq<char>,
    elapsed: u64,
    sampled_at: TimestampMs,
) -> Seq<ValueModel> {
    if sums.total > 0 {
        seq![
            ioreport_value(
                device_id,
                MetricKey::UtilizationOverall,
                busy_percent(sums.active, sums.total),
                "Apple IOReport non-idle GPU state residency over the sampling interval"@,
                elapsed,
                sampled_at,
            ),
        ]
    } else {
        Seq::empty()
    }
}

/// How much energy and power the device took, where the counters tell.
pub open spec fn energy_values(
    channels: Seq<ChannelModel>,
    sums: DeltaSums,
    device_id: Seq<char>,
    elapsed: u64,
    sampled_at: TimestampMs,
) -> Seq<ValueModel> {
    if some_energy(channels) && seconds(elapsed).bits > 0 {
        seq![
            ioreport_value(
                device_id,
                MetricKey::PowerEnergyJoules,
                sums.energy,
                "GPU energy delta reported by Apple IOReport"@,
                elapsed,
                sampled_at,
            ),
            ioreport_value(
                device_id,
                MetricKey::PowerDrawWatts,
                sums.energy.over(seconds(elapsed)),
                "GPU energy delta divided by the monotonic sampling interval"@,
                elapsed,
                sampled_at,
            ),
        ]
    } else {
        Seq::empty()
    }
}

/// Some counter tells states.
pub open spec fn some_states(channels: Seq<ChannelModel>) -> bool {
    exists|i: int| 0 <= i < channels.len() && tells_states(#[trigger] channels[i])
}

/// Some counter tells energy.
pub open spec fn some_energy(channels: Seq<ChannelModel>) -> bool {
    exists|i: int| 0 <= i < channels.len() && tells_energy(#[trigger] channels[i])
}

pub fn has_utilization(channels: &Vec<Channel>) -> (holds: bool)
    ensures
        holds == some_states(channel_models(channels@)),
{
    let ghost models = channel_models(channels@);
    let mut i: usize = 0;
    while i < channels.len()
        invariant
            i <= channels.len(),
            models == channel_models(channels@),
            forall|k: int| 0 <= k < i ==> !tells_states(#[trigger] models[k]),
        decreases channels.len() - i,
    {
        if channels[i].is_state_channel() {
            assert(tells_states(models[i as int]));
            return true;
        }
        i = i + 1;
    }
    false
}

pub fn has_power(channels: &Vec<Channel>) -> (holds: bool)
    ensures
        holds == some_energy(channel_models(channels@)),
{
    let ghost models = channel_models(channels@);
    let mut i: usize = 0;
    while i < channels.len()
        invariant
            i <= channels.len(),
            models == channel_models(channels@),
            forall|k: int| 0 <= k < i ==> !tells_energy(#[trigger] models[k]),
        decreases channels.len() - i,
    {
        if channels[i].is_energy_channel() {
            assert(tells_energy(models[i as int]));
            return true;
        }
        i = i + 1;
    }
    false
}

fn observation(
    device_id: &String,
    metric: MetricKey,
    value: Binary64,
    definition: &str,
    elapsed: u64,
    sampled_at: TimestampMs,
) -> (o: MetricObservation)
    ensures
        o@ == ioreport_value(device_id@, metric, value, definition@, elapsed, sampled_at),
{
    MetricObservation {
        device_id: device_id.clone(),
        metric,
        value: MetricValue::Number(value),
        source: owned("apple-ioreport"),
        quality: MetricQuality::Derived,
        sampled_at,
        interval_ms: Some(elapsed / 1_000_000),
        definition: Some(owned(definition)),
    }
}

/// The number of counters that the difference of two samples holds, where it is that of the
/// counters that are read.
pub open spec fn delta_fault(channels: int, readings: int) -> Option<Seq<char>> {
    if readings > MAX_SELECTED_IOREPORT_CHANNELS {
        Some(too_many("IOReport delta channel array"@, readings, MAX_SELECTED_IOREPORT_CHANNELS))
    } else if readings != channels {
        Some("IOReport delta channel count changed"@)
    } else {
        None
    }
}

/// What the difference of two samples says of the device, after a time in nanoseconds.
pub fn parse_delta(
    channels: &Vec<Channel>,
    readings: &Vec<Result<ChannelReading, String>>,
    device_id: &String,
    elapsed: u64,
    sampled_at: TimestampMs,
) -> (result: Result<ProviderSample, String>)
    ensures
        match result {
            Err(words) => match delta_fault(channels@.len() as int, readings@.len() as int) {
                Some(expected) => words@ == expected,
                None => delta_sums(
                    channel_models(channels@),
                    readings@,
                    readings@.len() as int,
                ) == Err::<DeltaSums, Seq<char>>(words@),
            },
            Ok(sample) => {
                &&& delta_fault(channels@.len() as int, readings@.len() as int) is None
                &&& delta_sums(channel_models(channels@), readings@, readings@.len() as int) is Ok
                &&& values(sample.metrics@) == busy_values(
                    delta_sums(channel_models(channels@), readings@, readings@.len() as int)->Ok_0,
                    device_id@,
                    elapsed,
                    sampled_at,
                ) + energy_values(
                    channel_models(channels@),
                    delta_sums(channel_models(channels@), readings@, readings@.len() as int)->Ok_0,
                    device_id@,
                    elapsed,
                    sampled_at,
                )
                &&& sample.unavailable@.len() == 0
                &&& sample.processes is None
            },
        },
{
    if readings.len() > MAX_SELECTED_IOREPORT_CHANNELS {
        return Err(
            too_many_text(
                "IOReport delta channel array",
                readings.len() as u64,
                MAX_SELECTED_IOREPORT_CHANNELS,
            ),
        );
    }
    if readings.len() != channels.len() {
        return Err(owned("IOReport delta channel count changed"));
    }
    let sums = match add_channels(channels, readings) {
        Ok(sums) => sums,
        Err(words) => return Err(words),
    };
    let mut metrics: Vec<MetricObservation> = Vec::new();
    if sums.total > 0 {
        let active = Binary64::from_ratio(sums.active, 1);
        let total = Binary64::from_ratio(sums.total, 1);
        proof {
            lemma_integer_positive(sums.total as nat);
        }
        let share = active.quotient_by(total);
        let percent = share.product_with(Binary64::from_bits(HUNDRED));
        metrics.push(
            observation(
                device_id,
                MetricKey::UtilizationOverall,
                percent,
                "Apple IOReport non-idle GPU state residency over the sampling interval",
                elapsed,
                sampled_at,
            ),
        );
    }
    assert(values(metrics@) == busy_values(sums@, device_id@, elapsed, sampled_at));
    let ghost busy = values(metrics@);
    let time = seconds_of(elapsed);
    if has_power(channels) && time.bits > 0 {
        metrics.push(
            observation(
                device_id,
                MetricKey::PowerEnergyJoules,
                sums.energy,
                "GPU energy delta reported by Apple IOReport",
                elapsed,
                sampled_at,
            ),
        );
        metrics.push(
            observation(
                device_id,
                MetricKey::PowerDrawWatts,
                sums.energy.quotient_by(time),
                "GPU energy delta divided by the monotonic sampling interval",
                elapsed,
                sampled_at,
            ),
        );
    }
    assert(values(metrics@) == busy + energy_values(
        channel_models(channels@),
        sums@,
        device_id@,
        elapsed,
        sampled_at,
    ));
    Ok(ProviderSample { metrics, unavailable: Vec::new(), processes: None })
}

/// The metrics that the counters give.
pub open spec fn counter_metrics(channels: Seq<ChannelModel>) -> Seq<MetricKey> {
    (if some_states(channels) {
        seq![MetricKey::UtilizationOverall]
    } else {
        Seq::empty()
    }) + (if some_energy(channels) {
        seq![MetricKey::PowerDrawWatts, MetricKey::PowerEnergyJoules]
    } else {
        Seq::empty()
    })
}

pub fn capability_keys(channels: &Vec<Channel>) -> (keys: Vec<MetricKey>)
    ensures
        keys@ == counter_metrics(channel_models(channels@)),
{
    let mut keys: Vec<MetricKey> = Vec::new();
    if has_utilization(channels) {
        keys.push(MetricKey::UtilizationOverall);
    }
    if has_power(channels) {
        keys.push(MetricKey::PowerDrawWatts);
        keys.push(MetricKey::PowerEnergyJoules);
    }
    assert(keys@ == counter_metrics(channel_models(channels@)));
    keys
}

/// That metrics await a second sample.
pub open spec fn awaiting(keys: Seq<MetricKey>, device_id: Seq<char>) -> Seq<AbsenceModel> {
    keys.map_values(
        |key: MetricKey|
            AbsenceModel {
                device_id,
                metric: key,
                reason: UnavailableReason::FirstSample,
                source: Some(ioreport_name()),
                message: Some("IOReport needs two counter samples to calculate a delta"@),
            },
    )
}

/// What the first sample says: every metric awaits the second one.
pub fn first_sample(channels: &Vec<Channel>, device_id: &String) -> (sample: ProviderSample)
    ensures
        sample.metrics@.len() == 0,
        absences(sample.unavailable@) == awaiting(
            counter_metrics(channel_models(channels@)),
            device_id@,
        ),
        sample.processes is None,
{
    let keys = capability_keys(channels);
    let ghost expected = awaiting(keys@, device_id@);
    let mut unavailable: Vec<UnavailableObservation> = Vec::new();
    let mut i: usize = 0;
    while i < keys.len()
        invariant
            i <= keys.len(),
            expected == awaiting(keys@, device_id@),
            absences(unavailable@) == expected.take(i as int),
        decreases keys.len() - i,
    {
        let account = UnavailableObservation {
            device_id: device_id.clone(),
            metric: keys[i],
            reason: UnavailableReason::FirstSample,
            source: Some(owned("apple-ioreport")),
            message: Some(owned("IOReport needs two counter samples to calculate a delta")),
        };
        let ghost held = absences(unavailable@);
        unavailable.push(account);
        assert(absences(unavailable@) == held.push(account@));
        assert(expected.take(i + 1) == expected.take(i as int).push(expected[i as int]));
        i = i + 1;
    }
    assert(absences(unavailable@) == expected);
    ProviderSample { metrics: Vec::new(), unavailable, processes: None }
}

} // verus!
