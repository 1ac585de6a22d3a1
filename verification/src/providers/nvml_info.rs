//! Vendor data of NVIDIA devices.
use crate::binary64::Binary64;
use crate::json::{
    field_models, insert_entry, is_object_of, json_models, name_list, object, object_of, push_field,
    unsigned_number, with_entry, Json, JsonMap, JsonModel, JsonNumber,
};
use crate::providers::nvml::{
    is_unknown_query, is_unsupported, nvml_name, whole, NvmlErrorKind, MAX_NVML_ENCODER_SESSIONS,
};
use crate::sorted_map::SortedMap;
use crate::text::{named, owned, push_named, str_views};
use vstd::prelude::*;

verus! {

/// How a device may be used for computing.
#[derive(Clone, Copy, Debug, PartialEq, Eq, Structural)]
pub enum ComputeMode {
    Shared,
    ExclusiveThread,
    Prohibited,
    ExclusiveProcess,
}

pub open spec fn mode_name(mode: ComputeMode) -> Seq<char> {
    match mode {
        ComputeMode::Shared => "default"@,
        ComputeMode::ExclusiveThread => "exclusive-thread"@,
        ComputeMode::Prohibited => "prohibited"@,
        ComputeMode::ExclusiveProcess => "exclusive-process"@,
    }
}

pub fn compute_mode_name(mode: ComputeMode) -> (name: &'static str)
    ensures
        name@ == mode_name(mode),
{
    match mode {
        ComputeMode::Shared => "default",
        ComputeMode::ExclusiveThread => "exclusive-thread",
        ComputeMode::Prohibited => "prohibited",
        ComputeMode::ExclusiveProcess => "exclusive-process",
    }
}

/// What a video encoder makes.
#[derive(Clone, Copy, Debug, PartialEq, Eq, Structural)]
pub enum EncoderType {
    H264,
    Hevc,
}

pub open spec fn codec_name(codec: EncoderType) -> Seq<char> {
    match codec {
        EncoderType::H264 => "h264"@,
        EncoderType::Hevc => "hevc"@,
    }
}

pub fn encoder_name(codec: EncoderType) -> (name: &'static str)
    ensures
        name@ == codec_name(codec),
{
    match codec {
        EncoderType::H264 => "h264",
        EncoderType::Hevc => "hevc",
    }
}

/// What does not change while a driver is loaded, as far as it could be queried.
#[derive(Debug)]
pub struct StaticFacts {
    pub cuda: Option<(i32, i32)>,
    pub sm_count: Option<u32>,
    pub ecc_enabled: Result<bool, NvmlErrorKind>,
    pub mig_mode: Result<u32, NvmlErrorKind>,
    pub bar1_total: Option<u64>,
    pub compute_mode: Option<ComputeMode>,
}

/// A JSON number of a signed integer.
pub open spec fn signed_number(n: int) -> JsonModel {
    if n >= 0 {
        JsonModel::Number(JsonNumber::Unsigned(n as u64))
    } else {
        JsonModel::Number(JsonNumber::Negative(n as i64))
    }
}

fn json_signed(n: i32) -> (value: Json)
    ensures
        value@ == signed_number(n as int),
{
    if n >= 0 {
        Json::Number(JsonNumber::Unsigned(n as u64))
    } else {
        Json::Number(JsonNumber::Negative(n as i64))
    }
}

/// Whether a feature is there and on; none where that is not known.
pub open spec fn feature_info(state: Result<bool, NvmlErrorKind>) -> Option<JsonModel> {
    match state {
        Ok(enabled) => Some(
            JsonModel::Object(
                seq![("enabled"@, JsonModel::Bool(enabled)), ("supported"@, JsonModel::Bool(true))],
            ),
        ),
        Err(kind) => if is_unknown_query(kind) {
            Some(JsonModel::Object(seq![("supported"@, JsonModel::Bool(false))]))
        } else {
            None
        },
    }
}

fn describe_feature(state: Result<bool, NvmlErrorKind>) -> (value: Option<Json>)
    ensures
        match value {
            Some(value) => feature_info(state) == Some(value@),
            None => feature_info(state) is None,
        },
{
    let mut fields: Vec<(String, Json)> = Vec::new();
    match state {
        Ok(enabled) => {
            push_field(&mut fields, "enabled", Json::Bool(enabled));
            push_field(&mut fields, "supported", Json::Bool(true));
            assert(field_models(fields@) == seq![
                ("enabled"@, JsonModel::Bool(enabled)),
                ("supported"@, JsonModel::Bool(true)),
            ]);
            Some(object(fields))
        },
        Err(kind) => if is_unsupported(kind) {
            push_field(&mut fields, "supported", Json::Bool(false));
            assert(field_models(fields@) == seq![("supported"@, JsonModel::Bool(false))]);
            Some(object(fields))
        } else {
            None
        },
    }
}

/// Whether the partitioning of a device is on.
pub open spec fn mig_state(mode: Result<u32, NvmlErrorKind>) -> Result<bool, NvmlErrorKind> {
    match mode {
        Ok(current) => Ok(current != 0),
        Err(kind) => Err(kind),
    }
}

/// Vendor data with what does not change.
pub open spec fn with_static_info(
    info: Map<Seq<char>, JsonModel>,
    facts: StaticFacts,
) -> Map<Seq<char>, JsonModel> {
    let info = with_entry(
        info,
        "cudaComputeCapability"@,
        match facts.cuda {
            Some((major, minor)) => Some(
                JsonModel::Object(
                    seq![
                        ("major"@, signed_number(major as int)),
                        ("minor"@, signed_number(minor as int)),
                    ],
                ),
            ),
            None => None,
        },
    );
    let info = with_entry(
        info,
        "smCount"@,
        match facts.sm_count {
            Some(count) => Some(unsigned_number(count as int)),
            None => None,
        },
    );
    let info = with_entry(info, "ecc"@, feature_info(facts.ecc_enabled));
    let info = with_entry(info, "mig"@, feature_info(mig_state(facts.mig_mode)));
    let info = with_entry(
        info,
        "bar1TotalBytes"@,
        match facts.bar1_total {
            Some(total) => Some(unsigned_number(total as int)),
            None => None,
        },
    );
    with_entry(
        info,
        "computeMode"@,
        match facts.compute_mode {
            Some(mode) => Some(JsonModel::Text(mode_name(mode))),
            None => None,
        },
    )
}

fn json_unsigned(n: Option<u64>) -> (value: Option<Json>)
    ensures
        match value {
            Some(value) => n is Some && value@ == unsigned_number(n->0 as int),
            None => n is None,
        },
{
    match n {
        Some(n) => Some(Json::Number(JsonNumber::Unsigned(n))),
        None => None,
    }
}

fn widen(n: Option<u32>) -> (wide: Option<u64>)
    ensures
        wide == match n {
            Some(n) => Some(n as u64),
            None => None,
        },
{
    match n {
        Some(n) => Some(n as u64),
        None => None,
    }
}

/// Adds what does not change to the vendor data of a device.
pub fn add_static_vendor_info(info: &mut JsonMap, facts: &StaticFacts)
    ensures
        json_models(final(info)@) == with_static_info(json_models(old(info)@), *facts),
{
    let cuda = match facts.cuda {
        Some((major, minor)) => {
            let mut fields: Vec<(String, Json)> = Vec::new();
            push_field(&mut fields, "major", json_signed(major));
            push_field(&mut fields, "minor", json_signed(minor));
            assert(field_models(fields@) == seq![
                ("major"@, signed_number(major as int)),
                ("minor"@, signed_number(minor as int)),
            ]);
            Some(object(fields))
        },
        None => None,
    };
    insert_entry(info, "cudaComputeCapability", cuda);
    insert_entry(info, "smCount", json_unsigned(widen(facts.sm_count)));
    insert_entry(info, "ecc", describe_feature(facts.ecc_enabled));
    let mig: Result<bool, NvmlErrorKind> = match facts.mig_mode {
        Ok(current) => Ok(current != 0),
        Err(kind) => Err(kind),
    };
    insert_entry(info, "mig", describe_feature(mig));
    insert_entry(info, "bar1TotalBytes", json_unsigned(facts.bar1_total));
    let mode = match facts.compute_mode {
        Some(mode) => Some(Json::Text(owned(compute_mode_name(mode)))),
        None => None,
    };
    insert_entry(info, "computeMode", mode);
}

/// Why a device runs slower than it could.
#[derive(Clone, Copy, Debug, PartialEq, Eq, Structural)]
pub struct ThrottleFlags {
    pub gpu_idle: bool,
    pub applications_clocks_setting: bool,
    pub software_power_cap: bool,
    pub hardware_slowdown: bool,
    pub sync_boost: bool,
    pub software_thermal_slowdown: bool,
    pub hardware_thermal_slowdown: bool,
    pub hardware_power_brake_slowdown: bool,
    pub display_clock_setting: bool,
}

/// The names of the flags that are set.
pub open spec fn throttle_names(flags: ThrottleFlags) -> Seq<Seq<char>> {
    named(flags.gpu_idle, "gpu-idle"@) + named(
        flags.applications_clocks_setting,
        "applications-clocks-setting"@,
    ) + named(flags.software_power_cap, "software-power-cap"@) + named(
        flags.hardware_slowdown,
        "hardware-slowdown"@,
    ) + named(flags.sync_boost, "sync-boost"@) + named(
        flags.software_thermal_slowdown,
        "software-thermal-slowdown"@,
    ) + named(flags.hardware_thermal_slowdown, "hardware-thermal-slowdown"@) + named(
        flags.hardware_power_brake_slowdown,
        "hardware-power-brake-slowdown"@,
    ) + named(flags.display_clock_setting, "display-clock-setting"@)
}

pub fn throttle_reason_names(flags: &ThrottleFlags) -> (names: Vec<&'static str>)
    ensures
        str_views(names@) == throttle_names(*flags),
{
    let mut names: Vec<&'static str> = Vec::new();
    assert(str_views(names@) == Seq::<Seq<char>>::empty());
    push_named(&mut names, flags.gpu_idle, "gpu-idle");
    push_named(&mut names, flags.applications_clocks_setting, "applications-clocks-setting");
    push_named(&mut names, flags.software_power_cap, "software-power-cap");
    push_named(&mut names, flags.hardware_slowdown, "hardware-slowdown");
    push_named(&mut names, flags.sync_boost, "sync-boost");
    push_named(&mut names, flags.software_thermal_slowdown, "software-thermal-slowdown");
    push_named(&mut names, flags.hardware_thermal_slowdown, "hardware-thermal-slowdown");
    push_named(&mut names, flags.hardware_power_brake_slowdown, "hardware-power-brake-slowdown");
    push_named(&mut names, flags.display_clock_setting, "display-clock-setting");
    assert(str_views(names@) == throttle_names(*flags));
    names
}

/// A session of a video encoder.
#[derive(Clone, Copy, Debug, PartialEq, Eq, Structural)]
pub struct EncoderSession {
    pub pid: u32,
    pub codec: EncoderType,
    pub width: u32,
    pub height: u32,
    pub average_fps: u32,
}

/// What changes while a device works, as far as it could be queried.
#[derive(Debug)]
pub struct DynamicFacts {
    pub performance_state: Option<u32>,
    pub throttle: Option<ThrottleFlags>,
    pub bar1_total: Option<u64>,
    pub bar1_used: Option<u64>,
    pub pcie_generation: Option<u32>,
    pub pcie_width: Option<u32>,
    pub encoder_sessions: Option<Vec<EncoderSession>>,
    pub shutdown_celsius: Option<u32>,
    pub slowdown_celsius: Option<u32>,
    pub memory_max_celsius: Option<u32>,
    pub gpu_max_celsius: Option<u32>,
}

/// A value as an available metric.
pub open spec fn metric_info(value: JsonModel, sampled_at: u64) -> JsonModel {
    JsonModel::Object(
        seq![
            ("available"@, JsonModel::Bool(true)),
            ("quality"@, JsonModel::Text("direct"@)),
            ("sampledAt"@, unsigned_number(sampled_at as int)),
            ("source"@, JsonModel::Text(nvml_name())),
            ("value"@, value),
        ],
    )
}

fn metric_json(value: Json, sampled_at: u64) -> (metric: Json)
    ensures
        metric@ == metric_info(value@, sampled_at),
{
    let mut fields: Vec<(String, Json)> = Vec::new();
    push_field(&mut fields, "available", Json::Bool(true));
    push_field(&mut fields, "quality", Json::Text(owned("direct")));
    push_field(&mut fields, "sampledAt", Json::Number(JsonNumber::Unsigned(sampled_at)));
    push_field(&mut fields, "source", Json::Text(owned("nvml")));
    push_field(&mut fields, "value", value);
    assert(field_models(fields@) == metric_info(value@, sampled_at)->Object_0);
    object(fields)
}

/// An optional value as an available metric.
pub open spec fn optional_metric(value: Option<JsonModel>, sampled_at: u64) -> Option<JsonModel> {
    match value {
        Some(value) => Some(metric_info(value, sampled_at)),
        None => None,
    }
}

fn optional_metric_json(value: Option<Json>, sampled_at: u64) -> (metric: Option<Json>)
    ensures
        match metric {
            Some(metric) => value is Some && metric@ == metric_info(value->0@, sampled_at),
            None => value is None,
        },
{
    match value {
        Some(value) => Some(metric_json(value, sampled_at)),
        None => None,
    }
}

/// What is told of an encoder session.
pub open spec fn session_info(session: EncoderSession) -> JsonModel {
    JsonModel::Object(
        seq![
            ("averageFps"@, unsigned_number(session.average_fps as int)),
            ("codec"@, JsonModel::Text(codec_name(session.codec))),
            ("height"@, unsigned_number(session.height as int)),
            ("pid"@, unsigned_number(session.pid as int)),
            ("width"@, unsigned_number(session.width as int)),
        ],
    )
}

fn session_json(session: &EncoderSession) -> (value: Json)
    ensures
        value@ == session_info(*session),
{
    let mut fields: Vec<(String, Json)> = Vec::new();
    push_field(
        &mut fields,
        "averageFps",
        Json::Number(JsonNumber::Unsigned(session.average_fps as u64)),
    );
    push_field(&mut fields, "codec", Json::Text(owned(encoder_name(session.codec))));
    push_field(&mut fields, "height", Json::Number(JsonNumber::Unsigned(session.height as u64)));
    push_field(&mut fields, "pid", Json::Number(JsonNumber::Unsigned(session.pid as u64)));
    push_field(&mut fields, "width", Json::Number(JsonNumber::Unsigned(session.width as u64)));
    assert(field_models(fields@) == session_info(*session)->Object_0);
    object(fields)
}

/// The sessions that are told of: no more than the limit.
pub open spec fn kept_sessions(sessions: Seq<EncoderSession>) -> Seq<EncoderSession> {
    if sessions.len() > MAX_NVML_ENCODER_SESSIONS {
        sessions.take(MAX_NVML_ENCODER_SESSIONS as int)
    } else {
        sessions
    }
}

/// The sessions as an array.
pub open spec fn sessions_info(sessions: Seq<EncoderSession>) -> JsonModel {
    JsonModel::Array(kept_sessions(sessions).map_values(|s: EncoderSession| session_info(s)))
}

fn sessions_json(sessions: &Vec<EncoderSession>) -> (value: Json)
    ensures
        value@ == sessions_info(sessions@),
{
    let count: usize = if sessions.len() > MAX_NVML_ENCODER_SESSIONS {
        MAX_NVML_ENCODER_SESSIONS
    } else {
        sessions.len()
    };
    let mut items: Vec<Json> = Vec::new();
    let mut i: usize = 0;
    while i < count
        invariant
            i <= count <= sessions.len(),
            items.len() == i,
            forall|k: int| 0 <= k < i ==> (#[trigger] items@[k])@ == session_info(sessions@[k]),
        decreases count - i,
    {
        items.push(session_json(&sessions[i]));
        i = i + 1;
    }
    let value = Json::Array(items);
    assert(value@->Array_0 == sessions_info(sessions@)->Array_0);
    value
}

/// The temperatures at which the device protects itself.
pub open spec fn thresholds(facts: DynamicFacts) -> Map<Seq<char>, JsonModel> {
    let none = Map::<Seq<char>, JsonModel>::empty();
    let map = with_entry(none, "shutdown"@, optional_number(facts.shutdown_celsius));
    let map = with_entry(map, "slowdown"@, optional_number(facts.slowdown_celsius));
    let map = with_entry(map, "memoryMax"@, optional_number(facts.memory_max_celsius));
    with_entry(map, "gpuMax"@, optional_number(facts.gpu_max_celsius))
}

/// A number as JSON, where there is one.
pub open spec fn optional_number(n: Option<u32>) -> Option<JsonModel> {
    match n {
        Some(n) => Some(unsigned_number(n as int)),
        None => None,
    }
}

/// The vendor data apart from the thresholds.
pub open spec fn dynamic_entries(facts: DynamicFacts, sampled_at: u64) -> Map<Seq<char>, JsonModel> {
    let info = Map::<Seq<char>, JsonModel>::empty();
    let info = with_entry(
        info,
        "pState"@,
        optional_metric(optional_number(facts.performance_state), sampled_at),
    );
    let info = with_entry(
        info,
        "throttleReasons"@,
        match facts.throttle {
            Some(flags) => Some(
                metric_info(
                    JsonModel::Array(
                        throttle_names(flags).map_values(|n: Seq<char>| JsonModel::Text(n)),
                    ),
                    sampled_at,
                ),
            ),
            None => None,
        },
    );
    let info = match (facts.bar1_total, facts.bar1_used) {
        (Some(total), Some(used)) => info.insert(
            "bar1TotalBytes"@,
            unsigned_number(total as int),
        ).insert(
            "bar1UsedBytes"@,
            metric_info(JsonModel::Number(JsonNumber::Float(whole(used as nat))), sampled_at),
        ),
        _ => info,
    };
    let info = with_entry(
        info,
        "pcieGeneration"@,
        optional_metric(optional_number(facts.pcie_generation), sampled_at),
    );
    let info = with_entry(
        info,
        "pcieWidth"@,
        optional_metric(optional_number(facts.pcie_width), sampled_at),
    );
    match facts.encoder_sessions {
        Some(sessions) => {
            let info = info.insert("encoderSessions"@, sessions_info(sessions@));
            if sessions@.len() > MAX_NVML_ENCODER_SESSIONS {
                info.insert("encoderSessionsTruncated"@, JsonModel::Bool(true))
            } else {
                info
            }
        },
        None => info,
    }
}

/// The vendor data that changes while a device works.
pub open spec fn is_dynamic_info(
    info: Map<Seq<char>, JsonModel>,
    facts: DynamicFacts,
    sampled_at: u64,
) -> bool {
    if thresholds(facts).dom() == Set::<Seq<char>>::empty() {
        info == dynamic_entries(facts, sampled_at)
    } else {
        exists|value: JsonModel| #[trigger]
            is_object_of(value, thresholds(facts)) && info == dynamic_entries(
                facts,
                sampled_at,
            ).insert("thermalThresholdsCelsius"@, value)
    }
}

fn throttle_json(flags: &ThrottleFlags) -> (value: Json)
    ensures
        value@ == JsonModel::Array(
            throttle_names(*flags).map_values(|n: Seq<char>| JsonModel::Text(n)),
        ),
{
    let names = throttle_reason_names(flags);
    name_list(&names)
}

/// The vendor data that changes while a device works.
pub fn dynamic_vendor_info(facts: &DynamicFacts, sampled_at: u64) -> (info: JsonMap)
    ensures
        is_dynamic_info(json_models(info@), *facts, sampled_at),
{
    let mut info: JsonMap = SortedMap::new();
    assert(json_models(info@) == Map::<Seq<char>, JsonModel>::empty());
    let state = optional_metric_json(json_unsigned(widen(facts.performance_state)), sampled_at);
    insert_entry(&mut info, "pState", state);
    let throttle = match &facts.throttle {
        Some(flags) => Some(metric_json(throttle_json(flags), sampled_at)),
        None => None,
    };
    insert_entry(&mut info, "throttleReasons", throttle);
    if let (Some(total), Some(used)) = (facts.bar1_total, facts.bar1_used) {
        insert_entry(
            &mut info,
            "bar1TotalBytes",
            Some(Json::Number(JsonNumber::Unsigned(total))),
        );
        let used = Json::Number(JsonNumber::Float(Binary64::from_u64(used)));
        insert_entry(&mut info, "bar1UsedBytes", Some(metric_json(used, sampled_at)));
    }
    let generation = optional_metric_json(
        json_unsigned(widen(facts.pcie_generation)),
        sampled_at,
    );
    insert_entry(&mut info, "pcieGeneration", generation);
    let width = optional_metric_json(json_unsigned(widen(facts.pcie_width)), sampled_at);
    insert_entry(&mut info, "pcieWidth", width);
    if let Some(sessions) = &facts.encoder_sessions {
        insert_entry(&mut info, "encoderSessions", Some(sessions_json(sessions)));
        if sessions.len() > MAX_NVML_ENCODER_SESSIONS {
            insert_entry(&mut info, "encoderSessionsTruncated", Some(Json::Bool(true)));
        }
    }
    assert(json_models(info@) == dynamic_entries(*facts, sampled_at));
    let mut limits: JsonMap = SortedMap::new();
    assert(json_models(limits@) == Map::<Seq<char>, JsonModel>::empty());
    insert_entry(&mut limits, "shutdown", json_unsigned(widen(facts.shutdown_celsius)));
    insert_entry(&mut limits, "slowdown", json_unsigned(widen(facts.slowdown_celsius)));
    insert_entry(&mut limits, "memoryMax", json_unsigned(widen(facts.memory_max_celsius)));
    insert_entry(&mut limits, "gpuMax", json_unsigned(widen(facts.gpu_max_celsius)));
    assert(json_models(limits@) == thresholds(*facts));
    let count: usize = limits.len();
    proof {
        let keys = limits.keys();
        if count == 0 {
            assert forall|k: Seq<char>| !thresholds(*facts).dom().contains(k) by {
                assert(!keys.contains(k));
                assert(!limits@.dom().contains(k));
            }
            assert(thresholds(*facts).dom() == Set::<Seq<char>>::empty());
        } else {
            assert(keys.contains(keys[0]));
            assert(limits@.dom().contains(keys[0]));
            assert(thresholds(*facts).dom().contains(keys[0]));
        }
    }
    if count > 0 {
        let value = object_of(&limits);
        insert_entry(&mut info, "thermalThresholdsCelsius", Some(value));
    }
    info
}

} // verus!
