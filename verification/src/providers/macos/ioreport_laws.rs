//! What holds of the values that the counters of IOReport give.
use crate::binary64::{Binary64, BILLION, HUNDRED, INFINITY};
use crate::float_arithmetic::{
    lemma_integer_bound, lemma_quotient_positive, lemma_small_part_vanishes, lemma_sum_positive,
    nearest_bits, rounded_bits,
};
use crate::float_laws::{
    double, law_named_doubles_are_their_numbers, law_one_divides_everything,
    law_products_are_exact, law_quotients_are_nearest, law_zero_adds_nothing, lemma_bits_by,
};
use crate::float_order::{lemma_exponent_monotone, lemma_lower, lemma_monotone, lemma_not_negative};
use crate::model::{MetricKey, MetricQuality, MetricValue, TimestampMs};
use crate::providers::macos::ioreport::{
    busy_percent, busy_values, delta_sums, energy_values, is_selected, seconds, some_energy,
    tells_energy, tells_states, with_channel, with_states, Channel, ChannelModel, ChannelReading,
    DeltaSums, StateReading, MAX_SELECTED_IOREPORT_CHANNELS,
};
use crate::text::{trim, upper, CharClass};
use vstd::arithmetic::power2::pow2;
use vstd::prelude::*;

verus! {

/// The bits of one.
pub const ONE: u64 = 0x3ff0_0000_0000_0000;

/// An integer above zero is at least one, and its exponent is moderate.
proof fn lemma_integer_range(n: nat)
    requires
        0 < n < 0x1_0000_0000_0000_0000_0000_0000,
    ensures
        ONE <= nearest_bits(n) <= 1119 * 0x10_0000_0000_0000,
{
    vstd::arithmetic::power2::lemma2_to64();
    lemma_integer_bound(n);
    lemma_lower(n, 1, 1074, 0);
}

/// Any time that has passed is more than no seconds.
proof fn lemma_seconds_positive(elapsed: u64)
    requires
        elapsed > 0,
    ensures
        0 < seconds(elapsed).bits <= INFINITY,
{
    let w = (elapsed / 1_000_000_000) as nat;
    let p = (elapsed % 1_000_000_000) as nat;
    let whole = Binary64 { bits: nearest_bits(w) as u64 };
    let part = Binary64 { bits: nearest_bits(p) as u64 };
    let billion = Binary64 { bits: BILLION };
    lemma_integer_bound(w);
    lemma_integer_bound(p);
    if p > 0 {
        lemma_integer_range(p);
        lemma_quotient_positive(part, billion);
    } else {
        assert(part.significand() == 0);
        assert(part.over(billion).bits == 0);
    }
    if w > 0 {
        lemma_integer_range(w);
    }
    lemma_sum_positive(whole, part.over(billion));
}

/// Where no energy was taken in some time, both energy and power are there, and are zero.
pub proof fn law_no_energy_is_zero_power(
    channels: Seq<ChannelModel>,
    sums: DeltaSums,
    device_id: Seq<char>,
    elapsed: u64,
    sampled_at: TimestampMs,
)
    requires
        some_energy(channels),
        sums.energy.bits == 0,
        elapsed > 0,
    ensures
        ({
            let list = energy_values(channels, sums, device_id, elapsed, sampled_at);
            &&& list.len() == 2
            &&& list[0].metric == MetricKey::PowerEnergyJoules
            &&& list[0].value == MetricValue::Number(Binary64 { bits: 0 })
            &&& list[1].metric == MetricKey::PowerDrawWatts
            &&& list[1].value == MetricValue::Number(Binary64 { bits: 0 })
        }),
{
    lemma_seconds_positive(elapsed);
    assert(sums.energy.significand() == 0);
    assert(sums.energy.over(seconds(elapsed)).bits == 0);
}

/// A value divided by itself, times a power of two.
proof fn lemma_power_ratio(d: nat, exponent: int, room: nat)
    requires
        d > 0,
        room <= 52,
        exponent >= 52 - room,
        (exponent + room - 51) * 0x10_0000_0000_0000 < INFINITY,
    ensures
        rounded_bits(d * pow2(room), d, exponent) == (exponent + room - 51) * 0x10_0000_0000_0000,
    decreases 52 - room,
{
    vstd::arithmetic::power2::lemma2_to64();
    vstd::arithmetic::power2::lemma2_to64_rest();
    vstd::arithmetic::power2::lemma_pow2_pos(room);
    let p = pow2(room);
    let n = d * p;
    assert(n > 0) by (nonlinear_arith)
        requires
            n == d * p,
            d > 0,
            p > 0,
    ;
    if room == 52 {
        assert(n == 0x10_0000_0000_0000 * d) by (nonlinear_arith)
            requires
                n == d * p,
                p == 0x10_0000_0000_0000,
        ;
        vstd::arithmetic::div_mod::lemma_fundamental_div_mod_converse(
            n as int,
            d as int,
            0x10_0000_0000_0000,
            0,
        );
    } else {
        vstd::arithmetic::power2::lemma_pow2_strictly_increases(room, 52);
        assert(n < 0x10_0000_0000_0000 * d) by (nonlinear_arith)
            requires
                n == d * p,
                p < 0x10_0000_0000_0000,
                d > 0,
        ;
        vstd::arithmetic::power2::lemma_pow2_unfold(room + 1);
        let q = pow2(room + 1);
        assert(2 * n == d * q) by (nonlinear_arith)
            requires
                n == d * p,
                q == 2 * p,
        ;
        lemma_power_ratio(d, exponent - 1, room + 1);
    }
}

/// The quotient of an integer by one that is no smaller is at most one.
proof fn lemma_share(active: nat, total: nat)
    requires
        active <= total < 0x1_0000_0000_0000_0000_0000_0000,
        total > 0,
    ensures
        ({
            let x = Binary64 { bits: nearest_bits(active) as u64 };
            let y = Binary64 { bits: nearest_bits(total) as u64 };
            0 <= x.over(y).bits <= ONE
        }),
{
    vstd::arithmetic::power2::lemma2_to64();
    let x = Binary64 { bits: nearest_bits(active) as u64 };
    let y = Binary64 { bits: nearest_bits(total) as u64 };
    lemma_integer_bound(active);
    lemma_integer_range(total);
    lemma_monotone(active, total, 1, 1074);
    let n = x.significand();
    let d = y.significand();
    let e = x.exponent() - y.exponent() + 1074;
    lemma_not_negative(n, d, e);
    if active == 0 {
        assert(n == 0);
    } else {
        lemma_integer_range(active);
        if x.exponent() == y.exponent() {
            assert(n <= d);
            lemma_monotone(n, d, d, 1074);
            assert(d * pow2(0) == d) by (nonlinear_arith)
                requires
                    pow2(0) == 1,
            ;
            lemma_power_ratio(d, 1074, 0);
        } else {
            assert(n <= d * 2);
            assert(d * pow2(1) == d * 2) by (nonlinear_arith)
                requires
                    pow2(1) == 2,
            ;
            lemma_monotone(n, d * 2, d, e);
            lemma_power_ratio(d, e, 1);
        }
    }
}

/// At most one, times one hundred, is at most one hundred.
proof fn lemma_hundredfold(share: Binary64)
    requires
        share.bits <= ONE,
    ensures
        share.times(Binary64 { bits: HUNDRED }).bits <= HUNDRED,
{
    let hundred = Binary64 { bits: HUNDRED };
    let m = hundred.significand();
    let n = share.significand() * m;
    let e = share.exponent() + hundred.exponent() - 1074;
    assert(m == 0x19_0000_0000_0000);
    assert(hundred.exponent() == 1028);
    vstd::arithmetic::power2::lemma2_to64();
    vstd::arithmetic::power2::lemma2_to64_rest();
    lemma_not_negative(n, 1, e);
    lemma_small_part_vanishes(0, m, 53, 975, 0);
    assert(rounded_bits(0 + m * pow2(53), 1, 975) == HUNDRED);
    assert(share.times(hundred).bits == rounded_bits(n, 1, e));
    if share.exponent() == 1022 {
        assert(share.bits == ONE);
        assert(n == 0 + m * pow2(52)) by (nonlinear_arith)
            requires
                n == share.significand() * m,
                share.significand() == 0x10_0000_0000_0000,
                pow2(52) == 0x10_0000_0000_0000,
        ;
        lemma_small_part_vanishes(0, m, 52, 976, 0);
        assert(rounded_bits(n, 1, 976) == HUNDRED);
    } else {
        assert(share.exponent() <= 1021);
        assert(n <= 0 + m * pow2(53)) by (nonlinear_arith)
            requires
                n == share.significand() * m,
                share.significand() < 0x20_0000_0000_0000,
                pow2(53) == 0x20_0000_0000_0000,
        ;
        lemma_monotone(n, 0 + m * pow2(53), 1, 975);
        lemma_exponent_monotone(n, 1, 975, (975 - e) as nat);
    }
}

/// The part of the time in which the device worked is a percentage.
pub proof fn law_busy_percent_is_a_percentage(active: int, total: int)
    requires
        0 <= active <= total < 0x1_0000_0000_0000_0000_0000_0000,
        total > 0,
    ensures
        busy_percent(active, total).percent(),
{
    lemma_share(active as nat, total as nat);
    let x = Binary64 { bits: nearest_bits(active as nat) as u64 };
    let y = Binary64 { bits: nearest_bits(total as nat) as u64 };
    lemma_hundredfold(x.over(y));
}

proof fn lemma_states_grow(sums: DeltaSums, states: Seq<StateReading>, n: int)
    requires
        0 <= n <= states.len(),
        with_states(sums, states, n) is Ok,
        0 <= sums.active <= sums.total,
    ensures
        ({
            let after = with_states(sums, states, n)->Ok_0;
            0 <= after.active <= after.total <= sums.total + n * i64::MAX
        }),
    decreases n,
{
    if n > 0 {
        lemma_states_grow(sums, states, n - 1);
        assert(n * i64::MAX == (n - 1) * i64::MAX + i64::MAX) by (nonlinear_arith);
    }
}

proof fn lemma_sums_grow(
    channels: Seq<ChannelModel>,
    readings: Seq<Result<ChannelReading, String>>,
    n: int,
)
    requires
        0 <= n <= readings.len(),
        delta_sums(channels, readings, n) is Ok,
    ensures
        ({
            let sums = delta_sums(channels, readings, n)->Ok_0;
            0 <= sums.active <= sums.total <= n * (256 * i64::MAX)
        }),
    decreases n,
{
    if n > 0 {
        lemma_sums_grow(channels, readings, n - 1);
        let before = delta_sums(channels, readings, n - 1)->Ok_0;
        assert(n * (256 * i64::MAX) == (n - 1) * (256 * i64::MAX) + 256 * i64::MAX)
            by (nonlinear_arith);
        let reading = readings[n - 1]->Ok_0;
        if tells_states(channels[n - 1]) {
            let count = reading.states@.len() as int;
            lemma_states_grow(before, reading.states@, count);
            assert(count * i64::MAX <= 256 * i64::MAX) by (nonlinear_arith)
                requires
                    count <= 256,
            ;
        }
    }
}

/// The utilization that the counters give is a percentage.
pub proof fn law_utilization_is_a_percentage(
    channels: Seq<ChannelModel>,
    readings: Seq<Result<ChannelReading, String>>,
    device_id: Seq<char>,
    elapsed: u64,
    sampled_at: TimestampMs,
)
    requires
        readings.len() <= MAX_SELECTED_IOREPORT_CHANNELS,
        delta_sums(channels, readings, readings.len() as int) is Ok,
    ensures
        ({
            let sums = delta_sums(channels, readings, readings.len() as int)->Ok_0;
            let list = busy_values(sums, device_id, elapsed, sampled_at);
            forall|i: int|
                0 <= i < list.len() ==> ((#[trigger] list[i]).value matches MetricValue::Number(
                    value,
                ) && value.percent())
        }),
{
    let n = readings.len() as int;
    lemma_sums_grow(channels, readings, n);
    let sums = delta_sums(channels, readings, n)->Ok_0;
    assert(n * (256 * i64::MAX) <= 256 * (256 * i64::MAX)) by (nonlinear_arith)
        requires
            n <= 256,
    ;
    if sums.total > 0 {
        law_busy_percent_is_a_percentage(sums.active, sums.total);
    }
}

/// A whole number of seconds is exactly that number.
pub proof fn law_whole_seconds_are_exact(n: u64, nanos: u64)
    requires
        nanos == n * 1_000_000_000,
    ensures
        seconds(nanos) == double(n as nat),
{
    assert(nanos / 1_000_000_000 == n);
    assert(nanos % 1_000_000_000 == 0);
    let zero = Binary64 { bits: 0 };
    assert(nearest_bits(0) == 0);
    assert(zero.significand() == 0);
    assert(zero.over(Binary64 { bits: BILLION }) == zero);
    lemma_integer_bound(n as nat);
    law_zero_adds_nothing(double(n as nat));
}

/// A time in seconds is the number of whole seconds and the double nearest to the rest.
pub proof fn law_seconds_are_a_billion_nanoseconds(nanos: u64)
    ensures
        seconds(nanos) == double((nanos / 1_000_000_000) as nat).plus(
            Binary64 {
                bits: rounded_bits((nanos % 1_000_000_000) as nat, 1_000_000_000, 1074) as u64,
            },
        ),
        nanos < 1_000_000_000 ==> seconds(nanos).bits == rounded_bits(
            nanos as nat,
            1_000_000_000,
            1074,
        ),
{
    law_named_doubles_are_their_numbers();
    let rest = (nanos % 1_000_000_000) as nat;
    law_quotients_are_nearest(rest, 1_000_000_000);
    lemma_not_negative(rest, 1_000_000_000, 1074);
    if nanos < 1_000_000_000 {
        assert(nearest_bits(0) == 0);
        law_zero_adds_nothing(
            Binary64 { bits: rounded_bits(nanos as nat, 1_000_000_000, 1074) as u64 },
        );
    }
}

/// The power over one second is the energy, and over a whole number of seconds it is the energy
/// divided by that number.
pub proof fn law_power_is_energy_per_second(
    channels: Seq<ChannelModel>,
    sums: DeltaSums,
    device_id: Seq<char>,
    n: u64,
    nanos: u64,
    sampled_at: TimestampMs,
)
    requires
        some_energy(channels),
        sums.energy.bits < INFINITY,
        n > 0,
        nanos == n * 1_000_000_000,
    ensures
        ({
            let list = energy_values(channels, sums, device_id, nanos, sampled_at);
            &&& list.len() == 2
            &&& list[0].metric == MetricKey::PowerEnergyJoules
            &&& list[0].value == MetricValue::Number(sums.energy)
            &&& list[1].metric == MetricKey::PowerDrawWatts
            &&& list[1].value == MetricValue::Number(sums.energy.over(double(n as nat)))
            &&& n == 1 ==> list[1].value == list[0].value
            &&& list[0].interval_ms == Some((n * 1_000) as u64)
            &&& list[1].interval_ms == Some((n * 1_000) as u64)
        }),
{
    law_whole_seconds_are_exact(n, nanos);
    lemma_integer_range(n as nat);
    law_one_divides_everything(sums.energy);
    assert(nanos / 1_000_000 == n * 1_000);
}

/// The values of IOReport carry the device, the time, the interval in milliseconds and the name
/// of the provider, and are derived.
pub proof fn law_values_carry_their_origin(
    channels: Seq<ChannelModel>,
    sums: DeltaSums,
    device_id: Seq<char>,
    elapsed: u64,
    sampled_at: TimestampMs,
    i: int,
)
    requires
        0 <= i < (busy_values(sums, device_id, elapsed, sampled_at) + energy_values(
            channels,
            sums,
            device_id,
            elapsed,
            sampled_at,
        )).len(),
    ensures
        ({
            let value = (busy_values(sums, device_id, elapsed, sampled_at) + energy_values(
                channels,
                sums,
                device_id,
                elapsed,
                sampled_at,
            ))[i];
            &&& value.device_id == device_id
            &&& value.sampled_at == sampled_at
            &&& value.interval_ms == Some(elapsed / 1_000_000)
            &&& value.source == "apple-ioreport"@
            &&& value.quality == MetricQuality::Derived
            &&& value.metric == MetricKey::UtilizationOverall || value.metric
                == MetricKey::PowerEnergyJoules || value.metric == MetricKey::PowerDrawWatts
        }),
{
}

/// A counter of energy adds the double nearest to its number over the number of its units in a
/// joule: a thousand millijoules, a million microjoules, a billion nanojoules.
pub proof fn law_energy_is_counted_in_joules(
    sums: DeltaSums,
    channel: ChannelModel,
    reading: ChannelReading,
)
    requires
        channel.group == "Energy Model"@,
        channel.name == "GPU Energy"@,
        0 <= reading.value < 0x20_0000_0000_0000,
        sums.energy.bits < INFINITY,
    ensures
        ({
            let unit = trim(CharClass::White, channel.unit);
            let in_joule: int = if unit == "mJ"@ {
                1_000
            } else if unit == "uJ"@ || unit == "\u{b5}J"@ {
                1_000_000
            } else if unit == "nJ"@ {
                1_000_000_000
            } else {
                0
            };
            let added = Binary64 {
                bits: rounded_bits(reading.value as nat, in_joule as nat, 1074) as u64,
            };
            match with_channel(sums, channel, reading) {
                Ok(after) => in_joule > 0 && after.energy == sums.energy.plus(added)
                    && after.active == sums.active && after.total == sums.total,
                Err(words) => in_joule == 0 || sums.energy.plus(added).bits == INFINITY,
            }
        }),
{
    reveal_strlit("GPU Stats");
    reveal_strlit("Energy Model");
    assert("GPU Stats"@[0] == 'G');
    assert("Energy Model"@[0] == 'E');
    law_named_doubles_are_their_numbers();
    law_quotients_are_nearest(reading.value as nat, 1_000);
    law_quotients_are_nearest(reading.value as nat, 1_000_000);
    law_quotients_are_nearest(reading.value as nat, 1_000_000_000);
}

/// A device that worked all the time was busy for one hundred percent, one that did not work for
/// none, and otherwise for a hundred times the double nearest to its share.
pub proof fn law_busy_percent_is_the_active_share(active: int, total: int)
    requires
        0 <= active <= total < 0x20_0000_0000_0000,
        total > 0,
    ensures
        busy_percent(active, total) == (Binary64 {
            bits: rounded_bits(active as nat, total as nat, 1074) as u64,
        }).times(double(100)),
        active == 0 ==> busy_percent(active, total) == (Binary64 { bits: 0 }),
        active == total ==> busy_percent(active, total) == double(100),
{
    law_named_doubles_are_their_numbers();
    law_quotients_are_nearest(active as nat, total as nat);
    let zero = Binary64 { bits: 0 };
    if active == 0 {
        assert(rounded_bits(0, total as nat, 1074) == 0);
        assert(zero.significand() == 0);
        assert(0 * double(100).significand() == 0) by (nonlinear_arith);
    }
    if active == total {
        let d = total as nat;
        vstd::arithmetic::power2::lemma2_to64();
        assert(d * pow2(0) == d) by (nonlinear_arith)
            requires
                pow2(0) == 1,
        ;
        lemma_power_ratio(d, 1074, 0);
        assert(rounded_bits(d, d, 1074) == ONE);
        vstd::arithmetic::power2::lemma2_to64_rest();
        lemma_bits_by(1, 52);
        assert(nearest_bits(1) == ONE);
        law_products_are_exact(1, 100);
    }
}

/// The time in states other than off, idle and down counts as active, and all of it as time.
pub proof fn law_states_count_as_active_or_idle(
    sums: DeltaSums,
    states: Seq<StateReading>,
    n: int,
)
    requires
        0 <= n < states.len(),
        with_states(sums, states, n) is Ok,
    ensures
        ({
            let state = upper(trim(CharClass::White, states[n].name@));
            let idle = state == "OFF"@ || state == "IDLE"@ || state == "DOWN"@;
            let before = with_states(sums, states, n)->Ok_0;
            match with_states(sums, states, n + 1) {
                Ok(after) => {
                    &&& states[n].residency >= 0
                    &&& after.total == before.total + states[n].residency
                    &&& idle ==> after.active == before.active
                    &&& !idle ==> after.active == before.active + states[n].residency
                    &&& after.energy == before.energy
                },
                Err(words) => states[n].residency < 0,
            }
        }),
{
}

/// The counters that are read are the performance states and the energy of the device.
pub proof fn law_gpu_counters_are_read(channel: Channel)
    ensures
        is_selected(channel@) <==> (channel.group@ == "GPU Stats"@ && channel.subgroup@
            == "GPU Performance States"@) || (channel.group@ == "Energy Model"@ && channel.name@
            == "GPU Energy"@),
        tells_states(channel@) <==> channel.group@ == "GPU Stats"@,
        tells_energy(channel@) <==> channel.group@ == "Energy Model"@ && channel.name@
            == "GPU Energy"@,
        channel@.unit == channel.unit@,
{
}

} // verus!
