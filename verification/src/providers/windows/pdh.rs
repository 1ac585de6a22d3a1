//! Utilization from the GPU engine counters of PDH.
use crate::binary64::{larger_of, max_of, Binary64, HUNDRED, SIGN};
use crate::merge::{absences, values, AbsenceModel, ValueModel};
use crate::model::{
    MetricKey, MetricObservation, MetricQuality, MetricValue, ProviderSample, TimestampMs,
    UnavailableObservation, UnavailableReason,
};
use crate::providers::windows::dxgi::luid_of_words;
use crate::providers::windows::pdh_array::{
    all_percent, counter_models, pdh_name, CounterItem, CounterModel,
};
use crate::text::{
    chars_of, contains, find_text, first_at, has, lower, lowered, owned, padded_digits,
    parse_number, read_number, same_text, slice_of, string_of,
};
use vstd::prelude::*;

verus! {

/// An engine of a device.
#[derive(Debug)]
pub struct EngineKey {
    pub physical: String,
    pub engine: String,
    pub engine_type: String,
}

/// An engine by its contents.
pub struct EngineModel {
    pub physical: Seq<char>,
    pub engine: Seq<char>,
    pub engine_type: Seq<char>,
}

impl View for EngineKey {
    type V = EngineModel;

    open spec fn view(&self) -> EngineModel {
        EngineModel {
            physical: self.physical@,
            engine: self.engine@,
            engine_type: self.engine_type@,
        }
    }
}

/// What the name of a counter says: the device and its engine.
#[derive(Debug)]
pub struct Instance {
    pub luid: String,
    pub physical: String,
    pub engine: String,
    pub engine_type: String,
}

/// What is before and behind the first place of a pattern.
pub open spec fn cut(text: Seq<char>, pattern: Seq<char>) -> Option<(Seq<char>, Seq<char>)> {
    if contains(text, pattern) {
        let at = first_at(text, pattern);
        Some((text.take(at), text.skip(at + pattern.len())))
    } else {
        None
    }
}

fn split_once(chars: &Vec<char>, pattern: &str) -> (parts: Option<(Vec<char>, Vec<char>)>)
    ensures
        match parts {
            Some((before, after)) => cut(chars@, pattern@) == Some((before@, after@)),
            None => cut(chars@, pattern@) is None,
        },
{
    match find_text(chars, pattern) {
        None => None,
        Some(at) => {
            let size: usize = chars.len();
            let length: usize = chars_of(pattern).len();
            let before = slice_of(chars, 0, at);
            let after = slice_of(chars, at + length, size);
            assert(before@ == chars@.take(at as int));
            assert(after@ == chars@.skip(at + pattern@.len()));
            Some((before, after))
        },
    }
}

/// What the name of a counter says.
pub struct InstanceModel {
    pub luid: Seq<char>,
    pub engine: EngineModel,
}

impl View for Instance {
    type V = InstanceModel;

    open spec fn view(&self) -> InstanceModel {
        InstanceModel {
            luid: self.luid@,
            engine: EngineModel {
                physical: self.physical@,
                engine: self.engine@,
                engine_type: self.engine_type@,
            },
        }
    }
}

/// The parts of the name of a counter, in small letters: two words of the identifier of the
/// device, the adapter, the engine and its type.
pub open spec fn instance_parts(name: Seq<char>) -> Option<
    (Seq<char>, Seq<char>, Seq<char>, Seq<char>, Seq<char>),
> {
    match cut(lower(name), "luid_0x"@) {
        None => None,
        Some((_, rest)) => match cut(rest, "_0x"@) {
            None => None,
            Some((high, rest)) => match cut(rest, "_phys_"@) {
                None => None,
                Some((low, rest)) => match cut(rest, "_eng_"@) {
                    None => None,
                    Some((physical, rest)) => match cut(rest, "_engtype_"@) {
                        None => None,
                        Some((engine, engine_type)) => Some(
                            (high, low, physical, engine, engine_type),
                        ),
                    },
                },
            },
        },
    }
}

/// What the name of a counter says.
pub open spec fn instance_of(name: Seq<char>) -> Option<InstanceModel> {
    match instance_parts(name) {
        None => None,
        Some((high, low, physical, engine, engine_type)) => match (
            read_number(high, 16, u32::MAX as nat),
            read_number(low, 16, u32::MAX as nat),
        ) {
            (Ok(high), Ok(low)) => Some(
                InstanceModel {
                    luid: padded_digits(high, 16, 8) + ":"@ + padded_digits(low, 16, 8),
                    engine: EngineModel { physical, engine, engine_type },
                },
            ),
            _ => None,
        },
    }
}

pub fn parse_instance(name: &str) -> (instance: Option<Instance>)
    ensures
        match instance {
            Some(instance) => instance_of(name@) == Some(instance@),
            None => instance_of(name@) is None,
        },
{
    let chars = chars_of(name);
    let lowercase = lowered(&chars);
    let (_, rest) = match split_once(&lowercase, "luid_0x") {
        Some(parts) => parts,
        None => return None,
    };
    let (high, rest) = match split_once(&rest, "_0x") {
        Some(parts) => parts,
        None => return None,
    };
    let (low, rest) = match split_once(&rest, "_phys_") {
        Some(parts) => parts,
        None => return None,
    };
    let (physical, rest) = match split_once(&rest, "_eng_") {
        Some(parts) => parts,
        None => return None,
    };
    let (engine, engine_type) = match split_once(&rest, "_engtype_") {
        Some(parts) => parts,
        None => return None,
    };
    match (
        parse_number(&high, 16, u32::MAX as u64),
        parse_number(&low, 16, u32::MAX as u64),
    ) {
        (Ok(high), Ok(low)) => Some(
            Instance {
                luid: luid_of_words(high, low),
                physical: string_of(&physical),
                engine: string_of(&engine),
                engine_type: string_of(&engine_type),
            },
        ),
        _ => None,
    }
}

/// An engine and how busy it is.
#[derive(Debug)]
pub struct EngineLoad {
    pub engine: EngineKey,
    pub load: Binary64,
}

/// An engine and how busy it is, by their contents.
pub struct LoadModel {
    pub engine: EngineModel,
    pub load: Binary64,
}

impl View for EngineLoad {
    type V = LoadModel;

    open spec fn view(&self) -> LoadModel {
        LoadModel { engine: self.engine@, load: self.load }
    }
}

pub open spec fn load_models(loads: Seq<EngineLoad>) -> Seq<LoadModel> {
    loads.map_values(|load: EngineLoad| load@)
}

/// A value without the sign of a zero.
pub open spec fn unsigned_zero(value: Binary64) -> Binary64 {
    if value.bits == SIGN {
        Binary64 { bits: 0 }
    } else {
        value
    }
}

/// The loads after one more value for an engine.
pub open spec fn add_load(loads: Seq<LoadModel>, engine: EngineModel, value: Binary64) -> Seq<
    LoadModel,
>
    decreases loads.len(),
{
    if loads.len() == 0 {
        seq![LoadModel { engine, load: (Binary64 { bits: 0 }).plus(value) }]
    } else if loads[0].engine == engine {
        loads.update(0, LoadModel { engine, load: loads[0].load.plus(value) })
    } else {
        seq![loads[0]] + add_load(loads.skip(1), engine, value)
    }
}

proof fn lemma_add_load(loads: Seq<LoadModel>, engine: EngineModel, value: Binary64, at: int)
    requires
        0 <= at <= loads.len(),
        forall|i: int| 0 <= i < at ==> (#[trigger] loads[i]).engine != engine,
        at < loads.len() ==> loads[at].engine == engine,
    ensures
        add_load(loads, engine, value) == if at < loads.len() {
            loads.update(at, LoadModel { engine, load: loads[at].load.plus(value) })
        } else {
            loads.push(LoadModel { engine, load: (Binary64 { bits: 0 }).plus(value) })
        },
    decreases loads.len(),
{
    if loads.len() > 0 && loads[0].engine != engine {
        let rest = loads.skip(1);
        assert forall|i: int| 0 <= i < at - 1 implies (#[trigger] rest[i]).engine != engine by {
            assert(rest[i] == loads[i + 1]);
        }
        lemma_add_load(rest, engine, value, at - 1);
        assert(add_load(loads, engine, value) == if at < loads.len() {
            loads.update(at, LoadModel { engine, load: loads[at].load.plus(value) })
        } else {
            loads.push(LoadModel { engine, load: (Binary64 { bits: 0 }).plus(value) })
        });
    } else if loads.len() == 0 {
        assert(add_load(loads, engine, value) == loads.push(
            LoadModel { engine, load: (Binary64 { bits: 0 }).plus(value) },
        ));
    }
}

/// The sums of the counters of one device, engine by engine.
pub open spec fn summed_loads(items: Seq<CounterModel>, luid: Seq<char>) -> Seq<LoadModel>
    decreases items.len(),
{
    if items.len() == 0 {
        Seq::empty()
    } else {
        let before = summed_loads(items.drop_last(), luid);
        match instance_of(items.last().name) {
            Some(instance) => if instance.luid == luid {
                add_load(before, instance.engine, unsigned_zero(items.last().value))
            } else {
                before
            },
            None => before,
        }
    }
}

/// A value, one hundred where it is larger.
pub open spec fn capped(value: Binary64) -> Binary64 {
    if value.bits > HUNDRED {
        Binary64 { bits: HUNDRED }
    } else {
        value
    }
}

/// How busy the engines of one device are.
pub open spec fn engine_loads(items: Seq<CounterModel>, luid: Seq<char>) -> Seq<LoadModel> {
    summed_loads(items, luid).map_values(
        |load: LoadModel| LoadModel { engine: load.engine, load: capped(load.load) },
    )
}

fn same_engine(load: &EngineLoad, instance: &Instance) -> (same: bool)
    ensures
        same == (load@.engine == instance@.engine),
{
    let physical = same_text(load.engine.physical.as_str(), instance.physical.as_str());
    let engine = same_text(load.engine.engine.as_str(), instance.engine.as_str());
    let engine_type = same_text(
        load.engine.engine_type.as_str(),
        instance.engine_type.as_str(),
    );
    physical && engine && engine_type
}

fn add_value(loads: &mut Vec<EngineLoad>, instance: Instance, value: Binary64)
    requires
        value.percent(),
        forall|i: int| 0 <= i < old(loads)@.len() ==> (#[trigger] old(loads)@[i]).load.countable(),
    ensures
        load_models(final(loads)@) == add_load(
            load_models(old(loads)@),
            instance@.engine,
            unsigned_zero(value),
        ),
        forall|i: int| 0 <= i < final(loads)@.len() ==> (#[trigger] final(loads)@[i]).load.countable(),
{
    let clean = if value.bits == SIGN {
        Binary64 { bits: 0 }
    } else {
        value
    };
    let ghost models = load_models(loads@);
    let mut at: usize = 0;
    while at < loads.len() && !same_engine(&loads[at], &instance)
        invariant
            at <= loads.len(),
            models == load_models(loads@),
            forall|i: int| 0 <= i < at ==> (#[trigger] models[i]).engine != instance@.engine,
        decreases loads.len() - at,
    {
        at = at + 1;
    }
    proof {
        if at < loads.len() {
            assert(models[at as int].engine == instance@.engine);
        }
        lemma_add_load(models, instance@.engine, clean, at as int);
    }
    if at < loads.len() {
        let sum = loads[at].load.sum_with(clean);
        loads[at].load = sum;
        assert(load_models(loads@) == models.update(
            at as int,
            LoadModel { engine: instance@.engine, load: sum },
        ));
    } else {
        let sum = (Binary64 { bits: 0 }).sum_with(clean);
        let Instance { luid: _, physical, engine, engine_type } = instance;
        loads.push(EngineLoad { engine: EngineKey { physical, engine, engine_type }, load: sum });
        assert(load_models(loads@) == models.push(
            LoadModel { engine: instance@.engine, load: sum },
        ));
    }
}

/// How busy the engines of one device are: the counters of the processes on one engine are added
/// up, and a sum above one hundred is taken for one hundred.
pub fn aggregate_engines(items: &Vec<CounterItem>, wanted_luid: &str) -> (loads: Vec<EngineLoad>)
    requires
        all_percent(counter_models(items@)),
    ensures
        load_models(loads@) == engine_loads(counter_models(items@), wanted_luid@),
        forall|i: int| 0 <= i < loads@.len() ==> (#[trigger] loads@[i]).load.bits <= HUNDRED,
{
    let ghost models = counter_models(items@);
    let mut loads: Vec<EngineLoad> = Vec::new();
    let mut i: usize = 0;
    assert(load_models(loads@) == Seq::<LoadModel>::empty());
    while i < items.len()
        invariant
            i <= items.len(),
            models == counter_models(items@),
            all_percent(models),
            load_models(loads@) == summed_loads(models.take(i as int), wanted_luid@),
            forall|i: int| 0 <= i < loads@.len() ==> (#[trigger] loads@[i]).load.countable(),
        decreases items.len() - i,
    {
        assert(models.take(i + 1).drop_last() == models.take(i as int));
        assert(models.take(i + 1).last() == items@[i as int]@);
        assert(models[i as int].value.percent());
        if let Some(instance) = parse_instance(items[i].name.as_str()) {
            if same_text(instance.luid.as_str(), wanted_luid) {
                add_value(&mut loads, instance, items[i].value);
            }
        }
        i = i + 1;
    }
    assert(models.take(i as int) == models);
    let ghost sums = load_models(loads@);
    let ghost done = sums.map_values(
        |load: LoadModel| LoadModel { engine: load.engine, load: capped(load.load) },
    );
    let mut k: usize = 0;
    while k < loads.len()
        invariant
            k <= loads.len(),
            loads.len() == sums.len(),
            done == sums.map_values(
                |load: LoadModel| LoadModel { engine: load.engine, load: capped(load.load) },
            ),
            forall|j: int| 0 <= j < k ==> (#[trigger] loads@[j])@ == done[j],
            forall|j: int| k <= j < loads@.len() ==> (#[trigger] loads@[j])@ == sums[j],
            forall|j: int| 0 <= j < k ==> (#[trigger] loads@[j]).load.bits <= HUNDRED,
        decreases loads.len() - k,
    {
        if loads[k].load.bits > HUNDRED {
            loads[k].load = Binary64 { bits: HUNDRED };
        }
        k = k + 1;
    }
    assert(load_models(loads@) == done);
    loads
}

/// The kinds of engines that have a metric of their own.
#[derive(Clone, Copy, Debug, PartialEq, Eq, Structural)]
pub enum EngineGroup {
    Graphics,
    Compute,
    Copy,
    Encode,
    Decode,
}

/// The group with the given number.
pub open spec fn group_at(n: int) -> EngineGroup {
    if n == 0 {
        EngineGroup::Graphics
    } else if n == 1 {
        EngineGroup::Compute
    } else if n == 2 {
        EngineGroup::Copy
    } else if n == 3 {
        EngineGroup::Encode
    } else {
        EngineGroup::Decode
    }
}

pub open spec fn group_metric(group: EngineGroup) -> MetricKey {
    match group {
        EngineGroup::Graphics => MetricKey::UtilizationGraphics,
        EngineGroup::Compute => MetricKey::UtilizationCompute,
        EngineGroup::Copy => MetricKey::UtilizationCopy,
        EngineGroup::Encode => MetricKey::UtilizationEncoder,
        EngineGroup::Decode => MetricKey::UtilizationDecoder,
    }
}

pub open spec fn group_definition(group: EngineGroup) -> Seq<char> {
    match group {
        EngineGroup::Graphics => "maximum WDDM graphics engine percentage"@,
        EngineGroup::Compute => "maximum WDDM compute engine percentage"@,
        EngineGroup::Copy => "maximum WDDM copy engine percentage"@,
        EngineGroup::Encode => "maximum WDDM video encode engine percentage"@,
        EngineGroup::Decode => "maximum WDDM video decode engine percentage"@,
    }
}

/// An engine of this type belongs to the group.
pub open spec fn in_group(engine_type: Seq<char>, group: EngineGroup) -> bool {
    match group {
        EngineGroup::Graphics => contains(engine_type, "3d"@) || contains(engine_type, "graphics"@),
        EngineGroup::Compute => contains(engine_type, "compute"@),
        EngineGroup::Copy => contains(engine_type, "copy"@),
        EngineGroup::Encode => contains(engine_type, "encode"@),
        EngineGroup::Decode => contains(engine_type, "decode"@),
    }
}

impl EngineGroup {
    fn at(n: usize) -> (group: Self)
        ensures
            group == group_at(n as int),
    {
        if n == 0 {
            EngineGroup::Graphics
        } else if n == 1 {
            EngineGroup::Compute
        } else if n == 2 {
            EngineGroup::Copy
        } else if n == 3 {
            EngineGroup::Encode
        } else {
            EngineGroup::Decode
        }
    }

    fn metric(self) -> (metric: MetricKey)
        ensures
            metric == group_metric(self),
    {
        match self {
            EngineGroup::Graphics => MetricKey::UtilizationGraphics,
            EngineGroup::Compute => MetricKey::UtilizationCompute,
            EngineGroup::Copy => MetricKey::UtilizationCopy,
            EngineGroup::Encode => MetricKey::UtilizationEncoder,
            EngineGroup::Decode => MetricKey::UtilizationDecoder,
        }
    }

    fn definition(self) -> (text: &'static str)
        ensures
            text@ == group_definition(self),
    {
        match self {
            EngineGroup::Graphics => "maximum WDDM graphics engine percentage",
            EngineGroup::Compute => "maximum WDDM compute engine percentage",
            EngineGroup::Copy => "maximum WDDM copy engine percentage",
            EngineGroup::Encode => "maximum WDDM video encode engine percentage",
            EngineGroup::Decode => "maximum WDDM video decode engine percentage",
        }
    }

    fn holds(self, engine_type: &str) -> (member: bool)
        ensures
            member == in_group(engine_type@, self),
    {
        let chars = chars_of(engine_type);
        match self {
            EngineGroup::Graphics => has(&chars, "3d") || has(&chars, "graphics"),
            EngineGroup::Compute => has(&chars, "compute"),
            EngineGroup::Copy => has(&chars, "copy"),
            EngineGroup::Encode => has(&chars, "encode"),
            EngineGroup::Decode => has(&chars, "decode"),
        }
    }
}

/// The engine counts for the group, or for the whole device where there is no group.
pub open spec fn counts_for(load: LoadModel, group: Option<EngineGroup>) -> bool {
    match group {
        Some(group) => in_group(load.engine.engine_type, group),
        None => true,
    }
}

/// The load of the busiest engine that counts.
pub open spec fn peak(loads: Seq<LoadModel>, group: Option<EngineGroup>) -> Option<Binary64>
    decreases loads.len(),
{
    if loads.len() == 0 {
        None
    } else {
        let before = peak(loads.drop_last(), group);
        if !counts_for(loads.last(), group) {
            before
        } else {
            match before {
                Some(best) => Some(larger_of(best, loads.last().load)),
                None => Some(loads.last().load),
            }
        }
    }
}

fn busiest(loads: &Vec<EngineLoad>, group: Option<EngineGroup>) -> (best: Option<Binary64>)
    ensures
        best == peak(load_models(loads@), group),
{
    let ghost models = load_models(loads@);
    let mut best: Option<Binary64> = None;
    let mut i: usize = 0;
    while i < loads.len()
        invariant
            i <= loads.len(),
            models == load_models(loads@),
            best == peak(models.take(i as int), group),
        decreases loads.len() - i,
    {
        assert(models.take(i + 1).drop_last() == models.take(i as int));
        assert(models.take(i + 1).last() == loads@[i as int]@);
        let counted = match group {
            Some(group) => group.holds(loads[i].engine.engine_type.as_str()),
            None => true,
        };
        if counted {
            best =
            match best {
                Some(value) => Some(max_of(value, loads[i].load)),
                None => Some(loads[i].load),
            };
        }
        i = i + 1;
    }
    assert(models.take(i as int) == models);
    best
}

/// A value of the provider.
pub open spec fn pdh_value(
    device_id: Seq<char>,
    metric: MetricKey,
    value: Binary64,
    definition: Seq<char>,
    interval_ms: Option<u64>,
    sampled_at: TimestampMs,
) -> ValueModel {
    ValueModel {
        device_id,
        metric,
        value: MetricValue::Number(value),
        source: pdh_name(),
        quality: MetricQuality::Derived,
        sampled_at,
        interval_ms,
        definition: Some(definition),
    }
}

/// The load of the busiest engine of the device, and at least zero.
pub open spec fn overall_load(loads: Seq<LoadModel>) -> Binary64 {
    match peak(loads, None) {
        Some(value) => larger_of(Binary64 { bits: 0 }, value),
        None => Binary64 { bits: 0 },
    }
}

/// The values of the first `n` groups, after that of the whole device. A group without engines
/// has no value.
pub open spec fn engine_values(
    loads: Seq<LoadModel>,
    device_id: Seq<char>,
    interval_ms: Option<u64>,
    sampled_at: TimestampMs,
    n: int,
) -> Seq<ValueModel>
    decreases n,
{
    if n <= 0 {
        seq![
            pdh_value(
                device_id,
                MetricKey::UtilizationOverall,
                overall_load(loads),
                "maximum active WDDM engine percentage across this adapter"@,
                interval_ms,
                sampled_at,
            ),
        ]
    } else {
        let before = engine_values(loads, device_id, interval_ms, sampled_at, n - 1);
        let group = group_at(n - 1);
        match peak(loads, Some(group)) {
            Some(value) => before.push(
                pdh_value(
                    device_id,
                    group_metric(group),
                    value,
                    group_definition(group),
                    interval_ms,
                    sampled_at,
                ),
            ),
            None => before,
        }
    }
}

fn observation(
    device_id: &String,
    metric: MetricKey,
    value: Binary64,
    definition: &str,
    interval_ms: Option<u64>,
    sampled_at: TimestampMs,
) -> (o: MetricObservation)
    ensures
        o@ == pdh_value(device_id@, metric, value, definition@, interval_ms, sampled_at),
{
    MetricObservation {
        device_id: device_id.clone(),
        metric,
        value: MetricValue::Number(value),
        source: owned("windows-pdh"),
        quality: MetricQuality::Derived,
        sampled_at,
        interval_ms,
        definition: Some(owned(definition)),
    }
}

/// The values that the loads of a device's engines give.
pub fn engine_metrics(
    device_id: &String,
    loads: &Vec<EngineLoad>,
    interval_ms: Option<u64>,
    sampled_at: TimestampMs,
) -> (sample: ProviderSample)
    ensures
        values(sample.metrics@) == engine_values(
            load_models(loads@),
            device_id@,
            interval_ms,
            sampled_at,
            5,
        ),
        sample.unavailable@.len() == 0,
        sample.processes is None,
{
    let overall = match busiest(loads, None) {
        Some(value) => max_of(Binary64 { bits: 0 }, value),
        None => Binary64 { bits: 0 },
    };
    let ghost models = load_models(loads@);
    let mut metrics: Vec<MetricObservation> = Vec::new();
    metrics.push(
        observation(
            device_id,
            MetricKey::UtilizationOverall,
            overall,
            "maximum active WDDM engine percentage across this adapter",
            interval_ms,
            sampled_at,
        ),
    );
    assert(values(metrics@) == engine_values(models, device_id@, interval_ms, sampled_at, 0));
    let mut n: usize = 0;
    while n < 5
        invariant
            n <= 5,
            models == load_models(loads@),
            values(metrics@) == engine_values(
                models,
                device_id@,
                interval_ms,
                sampled_at,
                n as int,
            ),
        decreases 5 - n,
    {
        let group = EngineGroup::at(n);
        if let Some(value) = busiest(loads, Some(group)) {
            let ghost held = values(metrics@);
            let next = observation(
                device_id,
                group.metric(),
                value,
                group.definition(),
                interval_ms,
                sampled_at,
            );
            metrics.push(next);
            assert(values(metrics@) == held.push(next@));
        }
        n = n + 1;
    }
    ProviderSample { metrics, unavailable: Vec::new(), processes: None }
}

/// The loads that `summed_loads` and the cap give never exceed one hundred.
proof fn lemma_loads_capped(items: Seq<CounterModel>, luid: Seq<char>, i: int)
    requires
        0 <= i < engine_loads(items, luid).len(),
    ensures
        engine_loads(items, luid)[i].load.bits <= HUNDRED,
{
}

pub proof fn lemma_peak(loads: Seq<LoadModel>, group: Option<EngineGroup>, limit: u64)
    requires
        limit <= HUNDRED,
        forall|i: int| 0 <= i < loads.len() ==> (#[trigger] loads[i]).load.bits <= limit,
    ensures
        match peak(loads, group) {
            Some(best) => {
                &&& best.bits <= limit
                &&& forall|i: int|
                    0 <= i < loads.len() && counts_for(#[trigger] loads[i], group)
                        ==> loads[i].load.bits <= best.bits
                &&& exists|i: int|
                    0 <= i < loads.len() && counts_for(#[trigger] loads[i], group)
                        && loads[i].load == best
            },
            None => forall|i: int|
                0 <= i < loads.len() ==> !counts_for(#[trigger] loads[i], group),
        },
    decreases loads.len(),
{
    if loads.len() > 0 {
        let rest = loads.drop_last();
        assert forall|i: int| 0 <= i < rest.len() implies (#[trigger] rest[i]).load.bits
            <= limit by {
            assert(rest[i] == loads[i]);
        }
        lemma_peak(rest, group, limit);
        let last = loads.len() - 1;
        assert(loads.last() == loads[last]);
        assert forall|i: int| 0 <= i < last && counts_for(#[trigger] loads[i], group) implies (
        peak(rest, group) is Some && loads[i].load.bits <= peak(rest, group)->0.bits) by {
            assert(rest[i] == loads[i]);
        }
        if let Some(before) = peak(rest, group) {
            let i = choose|i: int|
                0 <= i < rest.len() && counts_for(#[trigger] rest[i], group) && rest[i].load
                    == before;
            assert(rest[i] == loads[i]);
        }
    }
}

/// The overall utilization is the load of the busiest engine: no engine is busier, and one is as
/// busy.
pub proof fn law_overall_is_the_busiest_engine(items: Seq<CounterModel>, luid: Seq<char>)
    ensures
        ({
            let loads = engine_loads(items, luid);
            &&& forall|i: int|
                0 <= i < loads.len() ==> (#[trigger] loads[i]).load.bits <= overall_load(loads).bits
            &&& loads.len() > 0 ==> exists|i: int|
                0 <= i < loads.len() && (#[trigger] loads[i]).load == overall_load(loads)
        }),
{
    let loads = engine_loads(items, luid);
    assert forall|i: int| 0 <= i < loads.len() implies (#[trigger] loads[i]).load.bits
        <= HUNDRED by {
        lemma_loads_capped(items, luid, i);
    }
    lemma_peak(loads, None, HUNDRED);
    if loads.len() > 0 {
        assert(counts_for(loads[0], None));
        let i = choose|i: int|
            0 <= i < loads.len() && counts_for(#[trigger] loads[i], None) && loads[i].load
                == peak(loads, None)->0;
        assert(loads[i].load == overall_load(loads));
    }
    assert forall|i: int| 0 <= i < loads.len() implies (#[trigger] loads[i]).load.bits
        <= overall_load(loads).bits by {
        assert(counts_for(loads[i], None));
    }
}

/// Every value that the counters give is a percentage.
pub proof fn law_engine_values_are_percentages(
    items: Seq<CounterModel>,
    luid: Seq<char>,
    device_id: Seq<char>,
    interval_ms: Option<u64>,
    sampled_at: TimestampMs,
    n: int,
)
    requires
        0 <= n <= 5,
    ensures
        forall|i: int|
            0 <= i < engine_values(
                engine_loads(items, luid),
                device_id,
                interval_ms,
                sampled_at,
                n,
            ).len() ==> is_percentage(
                (#[trigger] engine_values(
                    engine_loads(items, luid),
                    device_id,
                    interval_ms,
                    sampled_at,
                    n,
                )[i]).value,
            ),
    decreases n,
{
    let loads = engine_loads(items, luid);
    assert forall|i: int| 0 <= i < loads.len() implies (#[trigger] loads[i]).load.bits
        <= HUNDRED by {
        lemma_loads_capped(items, luid, i);
    }
    if n == 0 {
        lemma_peak(loads, None, HUNDRED);
    } else {
        law_engine_values_are_percentages(
            items,
            luid,
            device_id,
            interval_ms,
            sampled_at,
            n - 1,
        );
        lemma_peak(loads, Some(group_at(n - 1)), HUNDRED);
        let before = engine_values(loads, device_id, interval_ms, sampled_at, n - 1);
        let after = engine_values(loads, device_id, interval_ms, sampled_at, n);
        assert forall|i: int| 0 <= i < after.len() implies is_percentage(
            (#[trigger] after[i]).value,
        ) by {
            if i < before.len() {
                assert(after[i] == before[i]);
            }
        }
    }
}

/// A number from zero to one hundred.
pub open spec fn is_percentage(value: MetricValue) -> bool {
    value matches MetricValue::Number(number) && number.percent()
}

/// The metrics that the counters can give, by their number.
pub open spec fn pdh_metric(n: int) -> MetricKey {
    if n == 0 {
        MetricKey::UtilizationOverall
    } else {
        group_metric(group_at(n - 1))
    }
}

/// That the first `n` metrics await a second collection.
pub open spec fn first_absences(device_id: Seq<char>, n: int) -> Seq<AbsenceModel>
    decreases n,
{
    if n <= 0 {
        Seq::empty()
    } else {
        first_absences(device_id, n - 1).push(
            AbsenceModel {
                device_id,
                metric: pdh_metric(n - 1),
                reason: UnavailableReason::FirstSample,
                source: Some(pdh_name()),
                message: Some("Windows PDH rate counters require two collections"@),
            },
        )
    }
}

/// What a device gets from the first collection: every metric awaits the second one.
pub fn first_sample(device_id: &String) -> (sample: ProviderSample)
    ensures
        sample.metrics@.len() == 0,
        absences(sample.unavailable@) == first_absences(device_id@, 6),
        sample.processes is None,
{
    let mut unavailable: Vec<UnavailableObservation> = Vec::new();
    let mut n: usize = 0;
    assert(absences(unavailable@) == Seq::<AbsenceModel>::empty());
    while n < 6
        invariant
            n <= 6,
            absences(unavailable@) == first_absences(device_id@, n as int),
        decreases 6 - n,
    {
        let ghost held = absences(unavailable@);
        let metric = if n == 0 {
            MetricKey::UtilizationOverall
        } else {
            EngineGroup::at(n - 1).metric()
        };
        let account = UnavailableObservation {
            device_id: device_id.clone(),
            metric,
            reason: UnavailableReason::FirstSample,
            source: Some(owned("windows-pdh")),
            message: Some(owned("Windows PDH rate counters require two collections")),
        };
        unavailable.push(account);
        assert(absences(unavailable@) == held.push(account@));
        n = n + 1;
    }
    ProviderSample { metrics: Vec::new(), unavailable, processes: None }
}

/// What the counters say of a device.
pub fn counter_sample(
    device_id: &String,
    luid: &str,
    items: &Vec<CounterItem>,
    interval_ms: Option<u64>,
    sampled_at: TimestampMs,
) -> (sample: ProviderSample)
    requires
        all_percent(counter_models(items@)),
    ensures
        ({
            let loads = engine_loads(counter_models(items@), luid@);
            if loads.len() == 0 {
                &&& sample.metrics@.len() == 0
                &&& absences(sample.unavailable@) == seq![
                    AbsenceModel {
                        device_id: device_id@,
                        metric: MetricKey::UtilizationOverall,
                        reason: UnavailableReason::TemporarilyUnavailable,
                        source: Some(pdh_name()),
                        message: Some("PDH returned no GPU engine counters for this adapter"@),
                    },
                ]
            } else {
                &&& values(sample.metrics@) == engine_values(
                    loads,
                    device_id@,
                    interval_ms,
                    sampled_at,
                    5,
                )
                &&& sample.unavailable@.len() == 0
            }
        }),
        sample.processes is None,
{
    let loads = aggregate_engines(items, luid);
    assert(loads@.len() == load_models(loads@).len());
    if loads.len() == 0 {
        let mut unavailable: Vec<UnavailableObservation> = Vec::new();
        let account = UnavailableObservation {
            device_id: device_id.clone(),
            metric: MetricKey::UtilizationOverall,
            reason: UnavailableReason::TemporarilyUnavailable,
            source: Some(owned("windows-pdh")),
            message: Some(owned("PDH returned no GPU engine counters for this adapter")),
        };
        unavailable.push(account);
        assert(absences(unavailable@) == seq![account@]);
        return ProviderSample { metrics: Vec::new(), unavailable, processes: None };
    }
    engine_metrics(device_id, &loads, interval_ms, sampled_at)
}

} // verus!
