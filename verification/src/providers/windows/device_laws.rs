//! What the counters and the adapters of Windows tell, stated on their names and numbers.
use crate::binary64::HUNDRED;
use crate::float_arithmetic::nearest_bits;
use crate::float_laws::{
    double, law_named_doubles_are_their_numbers, law_sums_are_exact, law_zero_adds_nothing,
    lemma_parts,
};
use crate::float_order::lemma_monotone;
use crate::model::{
    CanonicalGpu, DeviceObservation, GpuKind, GpuVendor, MemoryTopology, MetricKey, MetricQuality,
    MetricValue, TimestampMs, UnavailableReason,
};
use crate::providers::nvml::NvmlErrorKind;
use crate::providers::windows::dxgi::{is_dxgi_observation, is_kept, AdapterDescription, HybridRole};
use crate::providers::windows::nvml_loader::{is_verbatim, load_reason, plain_path, start_reason};
use crate::providers::windows::pdh::{
    counts_for, engine_loads, engine_values, first_absences, group_at, group_metric, instance_of,
    lemma_peak, overall_load, peak, summed_loads, LoadModel,
};
use crate::providers::windows::pdh_array::{
    item_counts, item_status, item_value, little_endian, CounterModel,
};
use crate::providers::windows::pdh_query::{
    interval_since, pdh_metrics, plan_for, BatchModel, PdhModel, PdhPlan,
};
use crate::providers::windows::runtime_probe::is_safe_name;
use crate::text::{contains, ends_with, padded_digits};
use vstd::prelude::*;

verus! {

proof fn lemma_group_in(
    loads: Seq<LoadModel>,
    device_id: Seq<char>,
    interval_ms: Option<u64>,
    sampled_at: TimestampMs,
    n: int,
    g: int,
)
    requires
        0 <= g < n <= 5,
        peak(loads, Some(group_at(g))) is Some,
    ensures
        exists|i: int|
            0 <= i < engine_values(loads, device_id, interval_ms, sampled_at, n).len() && {
                let value = #[trigger] engine_values(
                    loads,
                    device_id,
                    interval_ms,
                    sampled_at,
                    n,
                )[i];
                &&& value.metric == group_metric(group_at(g))
                &&& value.value == MetricValue::Number(peak(loads, Some(group_at(g)))->0)
                &&& value.device_id == device_id
                &&& value.sampled_at == sampled_at
                &&& value.interval_ms == interval_ms
            },
    decreases n,
{
    let all = engine_values(loads, device_id, interval_ms, sampled_at, n);
    let before = engine_values(loads, device_id, interval_ms, sampled_at, n - 1);
    if g == n - 1 {
        assert(all[all.len() - 1].metric == group_metric(group_at(g)));
    } else {
        lemma_group_in(loads, device_id, interval_ms, sampled_at, n - 1, g);
        let i = choose|i: int|
            0 <= i < before.len() && {
                let value = #[trigger] before[i];
                &&& value.metric == group_metric(group_at(g))
                &&& value.value == MetricValue::Number(peak(loads, Some(group_at(g)))->0)
                &&& value.device_id == device_id
                &&& value.sampled_at == sampled_at
                &&& value.interval_ms == interval_ms
            };
        assert(all[i] == before[i]);
    }
}

/// The loads are percentages.
pub open spec fn all_in_range(loads: Seq<LoadModel>) -> bool {
    forall|i: int| 0 <= i < loads.len() ==> (#[trigger] loads[i]).load.bits <= 0x4059_0000_0000_0000
}

/// The graphics utilization is the load of the busiest of the 3D and graphics engines.
pub proof fn law_graphics_utilization_is_that_of_its_engines(
    loads: Seq<LoadModel>,
    device_id: Seq<char>,
    interval_ms: Option<u64>,
    sampled_at: TimestampMs,
    k: int,
)
    requires
        all_in_range(loads),
        0 <= k < loads.len(),
        ({
            let kind = loads[k].engine.engine_type;
            contains(kind, "3d"@) || contains(kind, "graphics"@)
        }),
    ensures
        ({
            let values = engine_values(loads, device_id, interval_ms, sampled_at, 5);
            exists|i: int, j: int|
                0 <= i < values.len() && 0 <= j < loads.len() && {
                    let value = #[trigger] values[i];
                    let kind = (#[trigger] loads[j]).engine.engine_type;
                    &&& value.metric == MetricKey::UtilizationGraphics
                    &&& value.value == MetricValue::Number(loads[j].load)
                    &&& loads[j].load.bits >= loads[k].load.bits
                    &&& contains(kind, "3d"@) || contains(kind, "graphics"@)
                    &&& value.device_id == device_id
                    &&& value.sampled_at == sampled_at
                    &&& value.interval_ms == interval_ms
                }
        }),
{
    let group = Some(group_at(0));
    lemma_peak(loads, group, HUNDRED);
    assert(counts_for(loads[k], group));
    let j = choose|j: int|
        0 <= j < loads.len() && counts_for(#[trigger] loads[j], group) && loads[j].load == peak(
            loads,
            group,
        )->0;
    lemma_group_in(loads, device_id, interval_ms, sampled_at, 5, 0);
    let values = engine_values(loads, device_id, interval_ms, sampled_at, 5);
    let i = choose|i: int|
        0 <= i < values.len() && {
            let value = #[trigger] values[i];
            &&& value.metric == group_metric(group_at(0))
            &&& value.value == MetricValue::Number(peak(loads, Some(group_at(0)))->0)
            &&& value.device_id == device_id
            &&& value.sampled_at == sampled_at
            &&& value.interval_ms == interval_ms
        };
    assert(values[i].value == MetricValue::Number(loads[j].load));
}

/// The compute utilization is the load of the busiest of the compute engines.
pub proof fn law_compute_utilization_is_that_of_its_engines(
    loads: Seq<LoadModel>,
    device_id: Seq<char>,
    interval_ms: Option<u64>,
    sampled_at: TimestampMs,
    k: int,
)
    requires
        all_in_range(loads),
        0 <= k < loads.len(),
        ({
            let kind = loads[k].engine.engine_type;
            contains(kind, "compute"@)
        }),
    ensures
        ({
            let values = engine_values(loads, device_id, interval_ms, sampled_at, 5);
            exists|i: int, j: int|
                0 <= i < values.len() && 0 <= j < loads.len() && {
                    let value = #[trigger] values[i];
                    let kind = (#[trigger] loads[j]).engine.engine_type;
                    &&& value.metric == MetricKey::UtilizationCompute
                    &&& value.value == MetricValue::Number(loads[j].load)
                    &&& loads[j].load.bits >= loads[k].load.bits
                    &&& contains(kind, "compute"@)
                    &&& value.device_id == device_id
                    &&& value.sampled_at == sampled_at
                    &&& value.interval_ms == interval_ms
                }
        }),
{
    let group = Some(group_at(1));
    lemma_peak(loads, group, HUNDRED);
    assert(counts_for(loads[k], group));
    let j = choose|j: int|
        0 <= j < loads.len() && counts_for(#[trigger] loads[j], group) && loads[j].load == peak(
            loads,
            group,
        )->0;
    lemma_group_in(loads, device_id, interval_ms, sampled_at, 5, 1);
    let values = engine_values(loads, device_id, interval_ms, sampled_at, 5);
    let i = choose|i: int|
        0 <= i < values.len() && {
            let value = #[trigger] values[i];
            &&& value.metric == group_metric(group_at(1))
            &&& value.value == MetricValue::Number(peak(loads, Some(group_at(1)))->0)
            &&& value.device_id == device_id
            &&& value.sampled_at == sampled_at
            &&& value.interval_ms == interval_ms
        };
    assert(values[i].value == MetricValue::Number(loads[j].load));
}

/// The copy utilization is the load of the busiest of the copy engines.
pub proof fn law_copy_utilization_is_that_of_its_engines(
    loads: Seq<LoadModel>,
    device_id: Seq<char>,
    interval_ms: Option<u64>,
    sampled_at: TimestampMs,
    k: int,
)
    requires
        all_in_range(loads),
        0 <= k < loads.len(),
        ({
            let kind = loads[k].engine.engine_type;
            contains(kind, "copy"@)
        }),
    ensures
        ({
            let values = engine_values(loads, device_id, interval_ms, sampled_at, 5);
            exists|i: int, j: int|
                0 <= i < values.len() && 0 <= j < loads.len() && {
                    let value = #[trigger] values[i];
                    let kind = (#[trigger] loads[j]).engine.engine_type;
                    &&& value.metric == MetricKey::UtilizationCopy
                    &&& value.value == MetricValue::Number(loads[j].load)
                    &&& loads[j].load.bits >= loads[k].load.bits
                    &&& contains(kind, "copy"@)
                    &&& value.device_id == device_id
                    &&& value.sampled_at == sampled_at
                    &&& value.interval_ms == interval_ms
                }
        }),
{
    let group = Some(group_at(2));
    lemma_peak(loads, group, HUNDRED);
    assert(counts_for(loads[k], group));
    let j = choose|j: int|
        0 <= j < loads.len() && counts_for(#[trigger] loads[j], group) && loads[j].load == peak(
            loads,
            group,
        )->0;
    lemma_group_in(loads, device_id, interval_ms, sampled_at, 5, 2);
    let values = engine_values(loads, device_id, interval_ms, sampled_at, 5);
    let i = choose|i: int|
        0 <= i < values.len() && {
            let value = #[trigger] values[i];
            &&& value.metric == group_metric(group_at(2))
            &&& value.value == MetricValue::Number(peak(loads, Some(group_at(2)))->0)
            &&& value.device_id == device_id
            &&& value.sampled_at == sampled_at
            &&& value.interval_ms == interval_ms
        };
    assert(values[i].value == MetricValue::Number(loads[j].load));
}

/// The encoder utilization is the load of the busiest of the engines that encode.
pub proof fn law_encoder_utilization_is_that_of_its_engines(
    loads: Seq<LoadModel>,
    device_id: Seq<char>,
    interval_ms: Option<u64>,
    sampled_at: TimestampMs,
    k: int,
)
    requires
        all_in_range(loads),
        0 <= k < loads.len(),
        ({
            let kind = loads[k].engine.engine_type;
            contains(kind, "encode"@)
        }),
    ensures
        ({
            let values = engine_values(loads, device_id, interval_ms, sampled_at, 5);
            exists|i: int, j: int|
                0 <= i < values.len() && 0 <= j < loads.len() && {
                    let value = #[trigger] values[i];
                    let kind = (#[trigger] loads[j]).engine.engine_type;
                    &&& value.metric == MetricKey::UtilizationEncoder
                    &&& value.value == MetricValue::Number(loads[j].load)
                    &&& loads[j].load.bits >= loads[k].load.bits
                    &&& contains(kind, "encode"@)
                    &&& value.device_id == device_id
                    &&& value.sampled_at == sampled_at
                    &&& value.interval_ms == interval_ms
                }
        }),
{
    let group = Some(group_at(3));
    lemma_peak(loads, group, HUNDRED);
    assert(counts_for(loads[k], group));
    let j = choose|j: int|
        0 <= j < loads.len() && counts_for(#[trigger] loads[j], group) && loads[j].load == peak(
            loads,
            group,
        )->0;
    lemma_group_in(loads, device_id, interval_ms, sampled_at, 5, 3);
    let values = engine_values(loads, device_id, interval_ms, sampled_at, 5);
    let i = choose|i: int|
        0 <= i < values.len() && {
            let value = #[trigger] values[i];
            &&& value.metric == group_metric(group_at(3))
            &&& value.value == MetricValue::Number(peak(loads, Some(group_at(3)))->0)
            &&& value.device_id == device_id
            &&& value.sampled_at == sampled_at
            &&& value.interval_ms == interval_ms
        };
    assert(values[i].value == MetricValue::Number(loads[j].load));
}

/// The decoder utilization is the load of the busiest of the engines that decode.
pub proof fn law_decoder_utilization_is_that_of_its_engines(
    loads: Seq<LoadModel>,
    device_id: Seq<char>,
    interval_ms: Option<u64>,
    sampled_at: TimestampMs,
    k: int,
)
    requires
        all_in_range(loads),
        0 <= k < loads.len(),
        ({
            let kind = loads[k].engine.engine_type;
            contains(kind, "decode"@)
        }),
    ensures
        ({
            let values = engine_values(loads, device_id, interval_ms, sampled_at, 5);
            exists|i: int, j: int|
                0 <= i < values.len() && 0 <= j < loads.len() && {
                    let value = #[trigger] values[i];
                    let kind = (#[trigger] loads[j]).engine.engine_type;
                    &&& value.metric == MetricKey::UtilizationDecoder
                    &&& value.value == MetricValue::Number(loads[j].load)
                    &&& loads[j].load.bits >= loads[k].load.bits
                    &&& contains(kind, "decode"@)
                    &&& value.device_id == device_id
                    &&& value.sampled_at == sampled_at
                    &&& value.interval_ms == interval_ms
                }
        }),
{
    let group = Some(group_at(4));
    lemma_peak(loads, group, HUNDRED);
    assert(counts_for(loads[k], group));
    let j = choose|j: int|
        0 <= j < loads.len() && counts_for(#[trigger] loads[j], group) && loads[j].load == peak(
            loads,
            group,
        )->0;
    lemma_group_in(loads, device_id, interval_ms, sampled_at, 5, 4);
    let values = engine_values(loads, device_id, interval_ms, sampled_at, 5);
    let i = choose|i: int|
        0 <= i < values.len() && {
            let value = #[trigger] values[i];
            &&& value.metric == group_metric(group_at(4))
            &&& value.value == MetricValue::Number(peak(loads, Some(group_at(4)))->0)
            &&& value.device_id == device_id
            &&& value.sampled_at == sampled_at
            &&& value.interval_ms == interval_ms
        };
    assert(values[i].value == MetricValue::Number(loads[j].load));
}

proof fn lemma_first_value(
    loads: Seq<LoadModel>,
    device_id: Seq<char>,
    interval_ms: Option<u64>,
    sampled_at: TimestampMs,
    n: int,
)
    requires
        0 <= n <= 5,
    ensures
        engine_values(loads, device_id, interval_ms, sampled_at, n).len() > 0,
        engine_values(loads, device_id, interval_ms, sampled_at, n)[0] == engine_values(
            loads,
            device_id,
            interval_ms,
            sampled_at,
            0,
        )[0],
    decreases n,
{
    if n > 0 {
        lemma_first_value(loads, device_id, interval_ms, sampled_at, n - 1);
    }
}

/// The overall utilization comes first, from the provider of the counters, and is derived.
pub proof fn law_overall_utilization_comes_first(
    loads: Seq<LoadModel>,
    device_id: Seq<char>,
    interval_ms: Option<u64>,
    sampled_at: TimestampMs,
)
    ensures
        ({
            let values = engine_values(loads, device_id, interval_ms, sampled_at, 5);
            &&& values.len() > 0
            &&& values[0].metric == MetricKey::UtilizationOverall
            &&& values[0].value == MetricValue::Number(overall_load(loads))
            &&& values[0].source == "windows-pdh"@
            &&& values[0].quality == MetricQuality::Derived
            &&& values[0].device_id == device_id
            &&& values[0].interval_ms == interval_ms
            &&& values[0].sampled_at == sampled_at
        }),
{
    lemma_first_value(loads, device_id, interval_ms, sampled_at, 5);
}

/// Two processes on one engine of the device are added up, to one hundred percent at most; those
/// of another device are left out.
pub proof fn law_processes_on_one_engine_add_up(
    a: CounterModel,
    b: CounterModel,
    luid: Seq<char>,
    p: nat,
    q: nat,
)
    requires
        instance_of(a.name) is Some,
        instance_of(b.name) is Some,
        instance_of(a.name)->0.luid == luid,
        instance_of(b.name)->0.engine == instance_of(a.name)->0.engine,
        0 < p <= 100,
        0 < q <= 100,
        a.value == double(p),
        b.value == double(q),
    ensures
        ({
            let loads = engine_loads(seq![a, b], luid);
            &&& loads.len() == 1
            &&& loads[0].engine == instance_of(a.name)->0.engine
            &&& instance_of(b.name)->0.luid == luid && p + q <= 100 ==> loads[0].load == double(
                p + q,
            )
            &&& instance_of(b.name)->0.luid == luid && p + q > 100 ==> loads[0].load == double(100)
            &&& instance_of(b.name)->0.luid != luid ==> loads[0].load == double(p)
        }),
{
    let items = seq![a, b];
    assert(items.drop_last() =~= seq![a]);
    assert(seq![a].drop_last() =~= Seq::<CounterModel>::empty());
    let none = Seq::<LoadModel>::empty();
    assert(summed_loads(seq![a].drop_last(), luid) == none);
    let s = lemma_parts(p);
    let t = lemma_parts(q);
    law_zero_adds_nothing(double(p));
    assert(crate::providers::windows::pdh::unsigned_zero(a.value) == double(p));
    assert(crate::providers::windows::pdh::unsigned_zero(b.value) == double(q));
    let one = summed_loads(seq![a], luid);
    assert(one =~= seq![
        LoadModel { engine: instance_of(a.name)->0.engine, load: double(p) },
    ]);
    law_sums_are_exact(p, q);
    law_named_doubles_are_their_numbers();
    crate::float_order::lemma_not_negative(p + q, 1, 1074);
    lemma_monotone(p, 100, 1, 1074);
    if p + q <= 100 {
        lemma_monotone(p + q, 100, 1, 1074);
    } else {
        lemma_monotone(101, p + q, 1, 1074);
        vstd::arithmetic::power2::lemma2_to64();
        vstd::arithmetic::power2::lemma2_to64_rest();
        crate::float_laws::lemma_bits_by(101, 46);
    }
    let engine = instance_of(a.name)->0.engine;
    let two = summed_loads(items, luid);
    assert(items.last() == b);
    assert(double(p).plus(double(q)) == double(p + q));
    if instance_of(b.name)->0.luid == luid {
        assert(one[0].engine == engine);
        assert(two =~= seq![LoadModel { engine, load: double(p + q) }]);
    } else {
        assert(two == one);
    }
    let loads = engine_loads(items, luid);
    crate::float_order::lemma_not_negative(p, 1, 1074);
    assert(double(p).bits == nearest_bits(p));
    assert(double(p + q).bits == nearest_bits(p + q));
    assert(double(100).bits == HUNDRED);
    assert(double(p).bits <= HUNDRED);
    assert(p + q <= 100 ==> double(p + q).bits <= HUNDRED);
    assert(p + q > 100 ==> double(p + q).bits > HUNDRED);
    assert(loads.len() == 1);
    assert(loads[0].engine == two[0].engine);
    assert(loads[0].load == crate::providers::windows::pdh::capped(two[0].load));
}

/// Counters are read again within ten milliseconds of a collection, and collected otherwise; a
/// device without a LUID has none.
pub proof fn law_collections_are_shared_for_ten_milliseconds(
    primed: bool,
    at: u64,
    interval_ms: Option<u64>,
    batch: BatchModel,
    device: CanonicalGpu,
    now: u64,
)
    ensures
        ({
            let state = PdhModel::Ready {
                primed,
                collected_at: Some(at),
                interval_ms,
                batch: Some(batch),
            };
            let named = device.identity.windows matches Some(windows) && windows.luid is Some;
            &&& !named ==> plan_for(state, &device, now) == PdhPlan::Nothing
            &&& named && at <= now && now - at <= 10_000_000 ==> plan_for(state, &device, now)
                == PdhPlan::Reuse
            &&& named && (now < at || now - at > 10_000_000) ==> plan_for(state, &device, now)
                == PdhPlan::Collect
        }),
        at <= now ==> interval_since(Some(at), now) == Some(((now - at) / 1_000_000) as u64),
{
}

/// The metrics that the counters give are the overall utilization and that of five kinds of
/// engines, and on the first collection each of them waits for the second.
pub proof fn law_counters_give_six_utilizations(key: MetricKey, device_id: Seq<char>)
    ensures
        pdh_metrics().contains(key) <==> key == MetricKey::UtilizationOverall || key
            == MetricKey::UtilizationGraphics || key == MetricKey::UtilizationCompute || key
            == MetricKey::UtilizationCopy || key == MetricKey::UtilizationEncoder || key
            == MetricKey::UtilizationDecoder,
        first_absences(device_id, 6).len() == 6,
        forall|i: int|
            0 <= i < 6 ==> (#[trigger] first_absences(device_id, 6)[i]).reason
                == UnavailableReason::FirstSample && first_absences(device_id, 6)[i].device_id
                == device_id && pdh_metrics().contains(first_absences(device_id, 6)[i].metric),
        forall|i: int, j: int|
            0 <= i < j < 6 ==> (#[trigger] first_absences(device_id, 6)[i]).metric != (
            #[trigger] first_absences(device_id, 6)[j]).metric,
{
    reveal_with_fuel(first_absences, 7);
}

/// A counter is laid out in twenty-four bytes: eight for the place of its name, four for its
/// status, which is good where it is zero or one, and the last eight for its value. The lowest
/// byte of a number comes first.
pub proof fn law_counters_are_laid_out(bytes: Seq<u8>, i: int)
    requires
        0 <= i,
        24 * i + 24 <= bytes.len(),
    ensures
        item_status(bytes, i) == bytes[24 * i + 8] + 256 * bytes[24 * i + 9] + 65_536 * bytes[24
            * i + 10] + 16_777_216 * bytes[24 * i + 11],
        item_value(bytes, i).bits == (bytes[24 * i + 16] + 256 * bytes[24 * i + 17] + 65_536
            * bytes[24 * i + 18] + 16_777_216 * bytes[24 * i + 19] + 4_294_967_296 * bytes[24 * i
            + 20] + 1_099_511_627_776 * bytes[24 * i + 21] + 281_474_976_710_656 * bytes[24 * i
            + 22] + 72_057_594_037_927_936 * bytes[24 * i + 23]) as u64,
        item_counts(bytes, i) <==> item_status(bytes, i) <= 1 && (item_value(bytes, i).bits
            <= 0x4059_0000_0000_0000 || item_value(bytes, i).bits == 0x8000_0000_0000_0000),
{
    reveal_with_fuel(little_endian, 9);
}

/// An adapter is told by its numbers, its LUID, its memory and its part in the system.
pub proof fn law_adapters_are_told_as_described(
    o: DeviceObservation,
    adapter: AdapterDescription,
    ordinal: int,
)
    requires
        is_dxgi_observation(o, adapter, ordinal),
    ensures
        o.provider@ == "windows-dxgi"@,
        o.pci is Some,
        o.pci->0.vendor_id == adapter.vendor_id,
        o.pci->0.device_id == adapter.device_id,
        adapter.subsystem_id != 0 ==> o.pci->0.subsystem_vendor_id == Some(
            (adapter.subsystem_id % 0x1_0000) as u32,
        ) && o.pci->0.subsystem_device_id == Some((adapter.subsystem_id / 0x1_0000) as u32),
        adapter.vendor_id == 0x10de ==> o.vendor == GpuVendor::Nvidia,
        adapter.vendor_id == 0x1002 ==> o.vendor == GpuVendor::Amd,
        adapter.vendor_id == 0x8086 ==> o.vendor == GpuVendor::Intel,
        o.windows is Some,
        o.windows->0.luid is Some,
        o.windows->0.luid->0@ == padded_digits(
            (if adapter.luid_high < 0 {
                adapter.luid_high + 0x1_0000_0000
            } else {
                adapter.luid_high as int
            }) as nat,
            16,
            8,
        ) + ":"@ + padded_digits(adapter.luid_low as nat, 16, 8),
        o.provider_device_id@ == o.windows->0.luid->0@,
        adapter.dedicated_bytes > 0 ==> o.memory.dedicated_total_bytes == Some(
            adapter.dedicated_bytes,
        ),
        adapter.shared_bytes > 0 ==> o.memory.shared_total_bytes == Some(adapter.shared_bytes),
        adapter.dedicated_bytes == 0 ==> o.memory.dedicated_total_bytes is None,
        adapter.shared_bytes == 0 ==> o.memory.shared_total_bytes is None,
        adapter.dedicated_bytes > 0 && adapter.shared_bytes > 0 ==> o.memory.topology
            == MemoryTopology::Mixed,
        adapter.dedicated_bytes > 0 && adapter.shared_bytes == 0 ==> o.memory.topology
            == MemoryTopology::Dedicated,
        adapter.dedicated_bytes == 0 && adapter.shared_bytes > 0 ==> o.memory.topology
            == MemoryTopology::Shared,
        adapter.flags & 2 != 0 ==> o.kind == GpuKind::Virtual,
        adapter.flags & 2 == 0 ==> (adapter.kernel matches Some(facts) ==> {
            &&& facts.role == HybridRole::Integrated ==> o.kind == GpuKind::Integrated
            &&& facts.role == HybridRole::Discrete ==> o.kind == GpuKind::Discrete
            &&& facts.bus <= 0xff && facts.device <= 0x1f && facts.function <= 7
                ==> o.pci->0.address is Some && o.pci->0.address->0@ == "0000:"@ + padded_digits(
                facts.bus as nat,
                16,
                2,
            ) + ":"@ + padded_digits(facts.device as nat, 16, 2) + "."@ + padded_digits(
                facts.function as nat,
                16,
                1,
            )
        }),
{
}

/// Software adapters are left out unless they are asked for.
pub proof fn law_software_adapters_are_left_out(adapter: AdapterDescription)
    ensures
        adapter.flags & 2 != 0 ==> !is_kept(adapter, false),
        adapter.flags & 2 == 0 && adapter.kernel is None ==> is_kept(adapter, false),
        adapter.kernel is None ==> is_kept(adapter, true),
{
}

/// What the code of a failed load of the library means.
pub proof fn law_load_failures_have_their_reasons(code: u32)
    ensures
        ({
            let word = code % 65_536;
            &&& load_reason(code) == UnavailableReason::DriverLibraryMissing <==> word == 2 || word
                == 3 || word == 126 || word == 127 || word == 193
            &&& load_reason(code) == UnavailableReason::PermissionDenied <==> word == 5
        }),
{
}

/// What it means that the library did not start.
pub proof fn law_start_failures_have_their_reasons(kind: NvmlErrorKind)
    ensures
        start_reason(kind) == UnavailableReason::PermissionDenied <==> kind
            == NvmlErrorKind::NoPermission || kind == NvmlErrorKind::OperatingSystem,
        start_reason(kind) == UnavailableReason::DriverLibraryMissing <==> kind
            == NvmlErrorKind::DriverNotLoaded || kind == NvmlErrorKind::LibraryNotFound || kind
            == NvmlErrorKind::Libloading || kind == NvmlErrorKind::LibRmVersionMismatch,
        start_reason(kind) == UnavailableReason::TemporarilyUnavailable <==> kind
            == NvmlErrorKind::Timeout || kind == NvmlErrorKind::NoData || kind
            == NvmlErrorKind::InUse,
{
}

/// Two paths are the same exactly where they differ in nothing but the case of letters and the
/// kind of slashes.
pub proof fn law_paths_are_the_same_by_their_letters(a: Seq<char>, b: Seq<char>)
    requires
        !is_verbatim(a),
        !is_verbatim(b),
    ensures
        plain_path(a) == plain_path(b) <==> a.len() == b.len() && forall|i: int|
            0 <= i < a.len() ==> same_letter(#[trigger] a[i], b[i]),
{
    let x = plain_path(a);
    let y = plain_path(b);
    if x == y {
        assert(x.len() == a.len() && y.len() == b.len());
        assert forall|i: int| 0 <= i < a.len() implies same_letter(#[trigger] a[i], b[i]) by {
            assert(x[i] == y[i]);
        }
    }
    if a.len() == b.len() && forall|i: int|
        0 <= i < a.len() ==> same_letter(#[trigger] a[i], b[i]) {
        assert forall|i: int| 0 <= i < x.len() implies x[i] == y[i] by {
            assert(same_letter(a[i], b[i]));
        }
        assert(x =~= y);
    }
}

/// Two characters that differ at most in case or in the kind of slash.
pub open spec fn same_letter(a: char, b: char) -> bool {
    ||| a == b
    ||| (a == '/' || a == '\\') && (b == '/' || b == '\\')
    ||| 'A' <= a && a <= 'Z' && b as u32 == a as u32 + 32
    ||| 'A' <= b && b <= 'Z' && a as u32 == b as u32 + 32
}

/// The name of a library of the system directory leads nowhere else.
pub proof fn law_safe_names_lead_nowhere_else(library: Seq<char>, i: int)
    requires
        is_safe_name(library),
        0 <= i < library.len(),
    ensures
        library[i] != '/',
        library[i] != '\\',
        library[i] != ':',
        library[i] != '\0',
        ends_with(library, ".dll"@) || ends_with(library, ".DLL"@),
        library.len() > 4,
{
    reveal_strlit(".dll");
    reveal_strlit(".DLL");
    let n = library.len() - 4;
    if i < n {
        assert(library.take(n)[i] == library[i]);
    } else if ends_with(library, ".dll"@) {
        assert(library.subrange(n, library.len() as int)[i - n] == library[i]);
        assert(".dll"@[i - n] == library[i]);
    } else {
        assert(library.subrange(n, library.len() as int)[i - n] == library[i]);
        assert(".DLL"@[i - n] == library[i]);
    }
}

} // verus!
