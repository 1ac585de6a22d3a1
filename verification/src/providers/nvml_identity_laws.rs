//! How NVML's devices are named and found again, and what is told of them by name.
use crate::json::{unsigned_number, JsonModel, JsonNumber};
use crate::merge::AbsenceModel;
use crate::model::{metric_place, MetricKey, SampleRequest, UnavailableReason};
use crate::monitor::metric_at;
use crate::providers::nvml::{
    after_query, all_absences, fits_nvml, last_index_of, reported_function, whole, with_processes,
    NvmlErrorKind, NvmlFailure, ProcessQuery, ProcessReading, ProcessState,
};
use crate::providers::nvml_info::{
    dynamic_entries, feature_info, session_info, signed_number, thresholds, with_static_info,
    ComputeMode, DynamicFacts, EncoderSession, EncoderType, StaticFacts,
};
use crate::providers::nvml_inventory::{
    both_messages, named_records, nvml_device_id, nvml_device_name, reached, record_of,
    skip_details, skip_message, skipped, NvmlDeviceFacts,
};
use crate::text::{decimal, digit_char, digits, in_class, padded_digits, CharClass};
use crate::text_laws::{law_trimming_takes_the_ends, law_written_numbers_are_read_back};
use vstd::prelude::*;

verus! {

proof fn lemma_last_index(text: Seq<char>, c: char, at: int)
    requires
        0 <= at < text.len(),
        text[at] == c,
        forall|i: int| at < i < text.len() ==> #[trigger] text[i] != c,
    ensures
        last_index_of(text, c) == Some(at),
    decreases text.len(),
{
    if at < text.len() - 1 {
        assert(text[text.len() - 1] != c);
        let rest = text.drop_last();
        assert forall|i: int| at < i < rest.len() implies #[trigger] rest[i] != c by {
            assert(text[i] != c);
        }
        lemma_last_index(rest, c, at);
    }
}

proof fn lemma_no_index(text: Seq<char>, c: char)
    requires
        forall|i: int| 0 <= i < text.len() ==> #[trigger] text[i] != c,
    ensures
        last_index_of(text, c) is None,
    decreases text.len(),
{
    if text.len() > 0 {
        assert(text[text.len() - 1] != c);
        let rest = text.drop_last();
        assert forall|i: int| 0 <= i < rest.len() implies #[trigger] rest[i] != c by {
            assert(text[i] != c);
        }
        lemma_no_index(rest, c);
    }
}

/// The function of a device is the digit behind the last point of its bus address. An address
/// without a point names the first function.
pub proof fn law_the_function_follows_the_last_point(stem: Seq<char>, function: nat)
    requires
        function <= 7,
        stem.len() > 0,
        !in_class(CharClass::White, stem[0]),
        !in_class(CharClass::White, stem.last()),
    ensures
        reported_function(stem + seq!['.'] + digits(function, 16)) == function,
        (forall|i: int| 0 <= i < stem.len() ==> #[trigger] stem[i] != '.') ==> reported_function(
            stem,
        ) == 0,
{
    let digit = digits(function, 16);
    assert(digit =~= seq![digit_char(function as int)]);
    assert(('0' as u8) + function <= 255);
    assert('0' <= digit[0] <= '7');
    let text = stem + seq!['.'] + digit;
    let none = Seq::<char>::empty();
    assert(none + text + none =~= text);
    assert(text[0] == stem[0]);
    assert(text.last() == digit[0]);
    law_trimming_takes_the_ends(CharClass::White, none, text, none);
    let at = stem.len() as int;
    assert(text[at] == '.');
    lemma_last_index(text, '.', at);
    assert(text.skip(at + 1) =~= digit);
    law_written_numbers_are_read_back(function, 16, u32::MAX as nat);
    assert(none + stem + none =~= stem);
    law_trimming_takes_the_ends(CharClass::White, none, stem, none);
    if forall|i: int| 0 <= i < stem.len() ==> #[trigger] stem[i] != '.' {
        lemma_no_index(stem, '.');
    }
}

/// A device is known by its UUID, else by its address, else by its place; it has the name that it
/// gives, else one by its place.
pub proof fn law_devices_are_named_by_the_strongest_identifier(facts: NvmlDeviceFacts, index: u32)
    ensures
        facts.uuid is Some && fits_nvml(facts.uuid->0@) ==> nvml_device_id(facts, index)
            == facts.uuid->0@,
        facts.uuid is None && facts.pci is Some ==> nvml_device_id(facts, index) == "pci:"@
            + padded_digits(facts.pci->0.domain as nat, 16, 4) + ":"@ + padded_digits(
            facts.pci->0.bus as nat,
            16,
            2,
        ) + ":"@ + padded_digits(facts.pci->0.device as nat, 16, 2) + "."@ + padded_digits(
            reported_function(facts.pci->0.bus_id@),
            16,
            0,
        ),
        facts.uuid is None && facts.pci is None ==> nvml_device_id(facts, index) == "index:"@
            + decimal(index as nat),
        facts.name is Some && fits_nvml(facts.name->0@) ==> nvml_device_name(facts, index)
            == facts.name->0@,
        facts.name is None ==> nvml_device_name(facts, index) == "NVIDIA GPU "@ + decimal(
            index as nat,
        ),
{
    if facts.uuid is None && facts.pci is Some {
        let pci = facts.pci->0;
        let a = padded_digits(pci.domain as nat, 16, 4);
        let b = padded_digits(pci.bus as nat, 16, 2);
        let c = padded_digits(pci.device as nat, 16, 2);
        let d = padded_digits(reported_function(pci.bus_id@), 16, 0);
        assert("pci:"@ + (a + ":"@ + b + ":"@ + c + "."@ + d) =~= "pci:"@ + a + ":"@ + b + ":"@ + c
            + "."@ + d);
    }
}

/// What a device is found again by is what was told of it.
pub proof fn law_records_hold_what_was_told(facts: NvmlDeviceFacts, index: u32)
    ensures
        ({
            let record = record_of(facts, index);
            &&& record.index == index
            &&& record.uuid is Some ==> facts.uuid is Some && record.uuid->0 == facts.uuid->0@
            &&& facts.uuid is Some && fits_nvml(facts.uuid->0@) ==> record.uuid is Some
            &&& record.pci_bus_id is Some ==> facts.pci is Some && record.pci_bus_id->0
                == facts.pci->0.bus_id@
            &&& facts.pci is Some && fits_nvml(facts.pci->0.bus_id@) ==> record.pci_bus_id is Some
            &&& record.extensions.contains("nvidia.nvml"@)
            &&& forall|name: Seq<char>| #[trigger]
                record.extensions.contains(name) ==> name == "nvidia.nvml"@
        }),
{
}

/// A device that could be reached is observed, one that could not is not.
pub proof fn law_reached_devices_are_observed(
    devices: Seq<Result<NvmlDeviceFacts, String>>,
    n: int,
    i: int,
)
    requires
        n <= devices.len(),
    ensures
        reached(devices, n).contains(i) <==> 0 <= i < n && devices[i] is Ok,
        reached(devices, n).len() + skipped(devices, n) == if n > 0 {
            n
        } else {
            0
        },
    decreases n,
{
    if n > 0 {
        law_reached_devices_are_observed(devices, n - 1, i);
        let before = reached(devices, n - 1);
        let now = reached(devices, n);
        if before.contains(i) {
            let k = choose|k: int| 0 <= k < before.len() && before[k] == i;
            assert(now[k] == i);
        }
        if now.contains(i) && !before.contains(i) {
            let k = choose|k: int| 0 <= k < now.len() && now[k] == i;
            if k < before.len() {
                assert(before[k] == i);
            }
        }
        if i == n - 1 && devices[i] is Ok {
            assert(now[now.len() - 1] == i);
        }
    }
}

/// A device is kept under its name; where two have one name, the later one counts.
pub proof fn law_devices_are_kept_by_name(
    devices: Seq<Result<NvmlDeviceFacts, String>>,
    n: int,
    i: int,
)
    requires
        0 <= i < n <= devices.len(),
        devices[i] is Ok,
        forall|j: int|
            i < j < n && (#[trigger] devices[j]) is Ok ==> nvml_device_id(
                devices[j]->Ok_0,
                j as u32,
            ) != nvml_device_id(devices[i]->Ok_0, i as u32),
    ensures
        ({
            let name = nvml_device_id(devices[i]->Ok_0, i as u32);
            &&& named_records(devices, n).contains_key(name)
            &&& named_records(devices, n)[name] == record_of(devices[i]->Ok_0, i as u32)
        }),
    decreases n,
{
    if i < n - 1 {
        law_devices_are_kept_by_name(devices, n - 1, i);
        assert(devices[n - 1] is Ok ==> nvml_device_id(devices[n - 1]->Ok_0, (n - 1) as u32)
            != nvml_device_id(devices[i]->Ok_0, i as u32));
    }
}

/// Nothing is said where every device was reached; else how many were not, and why of the first
/// sixteen.
pub proof fn law_unreached_devices_are_counted(devices: Seq<Result<NvmlDeviceFacts, String>>)
    ensures
        skip_message(devices) is None <==> forall|i: int|
            0 <= i < devices.len() ==> (#[trigger] devices[i]) is Ok,
        skip_details(devices, devices.len() as int).len() <= 16,
        skipped(devices, devices.len() as int) <= 16 ==> skip_details(
            devices,
            devices.len() as int,
        ).len() == skipped(devices, devices.len() as int),
{
    lemma_skipped(devices, devices.len() as int);
}

proof fn lemma_skipped(devices: Seq<Result<NvmlDeviceFacts, String>>, n: int)
    requires
        n <= devices.len(),
    ensures
        skipped(devices, n) == 0 <==> forall|i: int|
            0 <= i < n ==> (#[trigger] devices[i]) is Ok,
        skip_details(devices, n).len() <= 16,
        skip_details(devices, n).len() <= skipped(devices, n),
        skipped(devices, n) <= 16 ==> skip_details(devices, n).len() == skipped(devices, n),
    decreases n,
{
    if n > 0 {
        lemma_skipped(devices, n - 1);
        if skipped(devices, n) > 0 && devices[n - 1] is Ok {
            let i = choose|i: int| 0 <= i < n - 1 && !((#[trigger] devices[i]) is Ok);
            assert(!(devices[i] is Ok));
        }
    }
}

/// Two messages are told with a semicolon between them, one alone as it is.
pub proof fn law_messages_are_told_together(first: Option<Seq<char>>, second: Option<Seq<char>>)
    ensures
        first is Some && second is Some ==> both_messages(first, second) == Some(
            first->0 + "; "@ + second->0,
        ),
        first is None ==> both_messages(first, second) == second,
        second is None ==> both_messages(first, second) == first,
{
}

proof fn lemma_processes(
    processes: Map<u32, Option<u64>>,
    readings: Seq<ProcessReading>,
    pid: u32,
)
    requires
        processes.dom().finite(),
        processes.dom().len() + readings.len() <= 16_384,
    ensures
        with_processes(processes, readings).dom().finite(),
        with_processes(processes, readings).dom().len() <= processes.dom().len() + readings.len(),
        with_processes(processes, readings).contains_key(pid) <==> processes.contains_key(pid)
            || exists|k: int| 0 <= k < readings.len() && (#[trigger] readings[k]).pid == pid,
    decreases readings.len(),
{
    if readings.len() > 0 {
        let n = readings.len();
        let rest = readings.drop_last();
        lemma_processes(processes, rest, pid);
        assert(readings[n - 1] == readings.last());
        if exists|k: int| 0 <= k < rest.len() && (#[trigger] rest[k]).pid == pid {
            let k = choose|k: int| 0 <= k < rest.len() && (#[trigger] rest[k]).pid == pid;
            assert(readings[k].pid == pid);
        }
        if exists|k: int| 0 <= k < n && (#[trigger] readings[k]).pid == pid {
            let k = choose|k: int| 0 <= k < n && (#[trigger] readings[k]).pid == pid;
            if k < n - 1 {
                assert(rest[k].pid == pid);
            }
        }
    }
}

/// The processes of a device are those of both lists, as long as there are no more of them than
/// the limit.
pub proof fn law_processes_of_both_lists_are_told(
    compute: Seq<ProcessReading>,
    graphics: Seq<ProcessReading>,
    pid: u32,
)
    requires
        compute.len() + graphics.len() <= 16_384,
    ensures
        with_processes(with_processes(Map::empty(), compute), graphics).contains_key(pid)
            <==> (exists|k: int| 0 <= k < compute.len() && (#[trigger] compute[k]).pid == pid) || (
        exists|k: int| 0 <= k < graphics.len() && (#[trigger] graphics[k]).pid == pid),
{
    let none = Map::<u32, Option<u64>>::empty();
    assert(none.dom().len() == 0);
    lemma_processes(none, compute, pid);
    lemma_processes(with_processes(none, compute), graphics, pid);
}

/// A list that came counts; one that did not leaves what there is, with its failure; too large a
/// count is refused for good.
pub proof fn law_lists_of_processes_are_taken(
    processes: Map<u32, Option<u64>>,
    any: bool,
    last: NvmlFailure,
    query: ProcessQuery,
)
    ensures
        ({
            let after = after_query(ProcessState::Going { processes, any, last }, query);
            &&& query.count is Err ==> after == (ProcessState::Going {
                processes,
                any,
                last: query.count->Err_0,
            })
            &&& query.count is Ok && query.count->Ok_0 > 16_384 ==> after == ProcessState::Refused(
                query.count->Ok_0,
            )
            &&& query.count is Ok && query.count->Ok_0 <= 16_384 && query.list is Ok ==> after == (
            ProcessState::Going {
                processes: with_processes(processes, query.list->Ok_0@),
                any: true,
                last,
            })
            &&& query.count is Ok && query.count->Ok_0 <= 16_384 && query.list is Err ==> after == (
            ProcessState::Going { processes, any, last: query.list->Err_0 })
        }),
{
}

/// A device that cannot be queried accounts for each metric that it offers and that is asked for;
/// for its processes where these are asked for.
pub proof fn law_unreachable_devices_account_for_all(
    offered: Set<MetricKey>,
    request: SampleRequest,
    device_id: Seq<char>,
    reason: UnavailableReason,
    message: Seq<char>,
    key: MetricKey,
)
    ensures
        ({
            let accounts = all_absences(offered, request, device_id, reason, message, 26);
            let wanted = offered.contains(key) && (if key == MetricKey::Processes {
                request.include_processes
            } else {
                request.metrics is None || request.metrics->0@.contains(key)
            });
            wanted <==> accounts.contains(
                AbsenceModel {
                    device_id,
                    metric: key,
                    reason,
                    source: Some("nvml"@),
                    message: Some(message),
                },
            )
        }),
{
    lemma_all_absences(offered, request, device_id, reason, message, 26, key);
}

proof fn lemma_all_absences(
    offered: Set<MetricKey>,
    request: SampleRequest,
    device_id: Seq<char>,
    reason: UnavailableReason,
    message: Seq<char>,
    n: int,
    key: MetricKey,
)
    requires
        n <= 26,
    ensures
        all_absences(offered, request, device_id, reason, message, n).contains(
            AbsenceModel {
                device_id,
                metric: key,
                reason,
                source: Some("nvml"@),
                message: Some(message),
            },
        ) <==> metric_place(key) < n && crate::providers::nvml::is_wanted(offered, request, key),
    decreases n,
{
    let account = AbsenceModel {
        device_id,
        metric: key,
        reason,
        source: Some("nvml"@),
        message: Some(message),
    };
    let found = metric_at(metric_place(key));
    assert(metric_place(found) == metric_place(key));
    assert(found == key);
    if n > 0 {
        lemma_all_absences(offered, request, device_id, reason, message, n - 1, key);
        crate::assembly_laws::lemma_place_is_taken(n - 1);
        let before = all_absences(offered, request, device_id, reason, message, n - 1);
        let now = all_absences(offered, request, device_id, reason, message, n);
        assert(metric_place(metric_at(n - 1)) == n - 1);
        if before.contains(account) {
            let k = choose|k: int| 0 <= k < before.len() && before[k] == account;
            assert(now[k] == account);
        }
        if now.contains(account) && !before.contains(account) {
            let k = choose|k: int| 0 <= k < now.len() && now[k] == account;
            if k < before.len() {
                assert(before[k] == account);
            }
        }
        if metric_place(key) == n - 1 && crate::providers::nvml::is_wanted(offered, request, key) {
            assert(now[now.len() - 1] == account);
        }
    }
}

/// What does not change of a device is told by name.
pub proof fn law_static_data_is_told_by_name(info: Map<Seq<char>, JsonModel>, facts: StaticFacts)
    ensures
        ({
            let told = with_static_info(info, facts);
            &&& facts.sm_count is Some ==> told.contains_key("smCount"@) && told["smCount"@]
                == JsonModel::Number(JsonNumber::Unsigned(facts.sm_count->0 as u64))
            &&& facts.bar1_total is Some ==> told.contains_key("bar1TotalBytes"@)
                && told["bar1TotalBytes"@] == JsonModel::Number(
                JsonNumber::Unsigned(facts.bar1_total->0),
            )
            &&& facts.cuda is Some ==> told.contains_key("cudaComputeCapability"@)
                && told["cudaComputeCapability"@] == JsonModel::Object(
                seq![
                    ("major"@, signed_number((facts.cuda->0).0 as int)),
                    ("minor"@, signed_number((facts.cuda->0).1 as int)),
                ],
            )
            &&& facts.ecc_enabled is Ok ==> told.contains_key("ecc"@) && told["ecc"@]
                == JsonModel::Object(
                seq![
                    ("enabled"@, JsonModel::Bool(facts.ecc_enabled->Ok_0)),
                    ("supported"@, JsonModel::Bool(true)),
                ],
            )
            &&& facts.mig_mode is Ok ==> told.contains_key("mig"@) && told["mig"@]
                == JsonModel::Object(
                seq![
                    ("enabled"@, JsonModel::Bool(facts.mig_mode->Ok_0 != 0)),
                    ("supported"@, JsonModel::Bool(true)),
                ],
            )
            &&& facts.compute_mode is Some ==> told.contains_key("computeMode"@)
                && told["computeMode"@] == JsonModel::Text(
                match facts.compute_mode->0 {
                    ComputeMode::Shared => "default"@,
                    ComputeMode::ExclusiveThread => "exclusive-thread"@,
                    ComputeMode::Prohibited => "prohibited"@,
                    ComputeMode::ExclusiveProcess => "exclusive-process"@,
                },
            )
        }),
{
    reveal_strlit("smCount");
    reveal_strlit("bar1TotalBytes");
    reveal_strlit("cudaComputeCapability");
    reveal_strlit("ecc");
    reveal_strlit("mig");
    reveal_strlit("computeMode");
    assert("ecc"@[0] == 'e' && "mig"@[0] == 'm');
    assert("smCount"@.len() == 7 && "bar1TotalBytes"@.len() == 14 && "computeMode"@.len() == 11);
    assert("cudaComputeCapability"@.len() == 21 && "ecc"@.len() == 3 && "mig"@.len() == 3);
}

/// A feature that the device does not know is told as missing; of one that could not be asked for
/// nothing is told.
pub proof fn law_features_are_told_where_known(kind: NvmlErrorKind)
    ensures
        feature_info(Err(kind)) is Some <==> kind == NvmlErrorKind::NotSupported || kind
            == NvmlErrorKind::FunctionNotFound || kind == NvmlErrorKind::FailedToLoadSymbol,
        feature_info(Err(kind)) is Some ==> feature_info(Err(kind))->0 == JsonModel::Object(
            seq![("supported"@, JsonModel::Bool(false))],
        ),
{
}

/// What changes of a device is told by name, with its source and its time.
pub proof fn law_changing_data_is_told_by_name(facts: DynamicFacts, sampled_at: u64)
    ensures
        ({
            let told = dynamic_entries(facts, sampled_at);
            let measured = |value: JsonModel|
                JsonModel::Object(
                    seq![
                        ("available"@, JsonModel::Bool(true)),
                        ("quality"@, JsonModel::Text("direct"@)),
                        ("sampledAt"@, JsonModel::Number(JsonNumber::Unsigned(sampled_at))),
                        ("source"@, JsonModel::Text("nvml"@)),
                        ("value"@, value),
                    ],
                );
            let number = |n: u32| JsonModel::Number(JsonNumber::Unsigned(n as u64));
            &&& facts.performance_state is Some ==> told.contains_key("pState"@)
                && told["pState"@] == measured(number(facts.performance_state->0))
            &&& facts.pcie_generation is Some ==> told.contains_key("pcieGeneration"@)
                && told["pcieGeneration"@] == measured(number(facts.pcie_generation->0))
            &&& facts.pcie_width is Some ==> told.contains_key("pcieWidth"@) && told["pcieWidth"@]
                == measured(number(facts.pcie_width->0))
            &&& facts.bar1_total is Some && facts.bar1_used is Some ==> told.contains_key(
                "bar1TotalBytes"@,
            ) && told["bar1TotalBytes"@] == JsonModel::Number(
                JsonNumber::Unsigned(facts.bar1_total->0),
            ) && told.contains_key("bar1UsedBytes"@) && told["bar1UsedBytes"@] == measured(
                JsonModel::Number(JsonNumber::Float(whole(facts.bar1_used->0 as nat))),
            )
            &&& facts.encoder_sessions is Some && facts.encoder_sessions->0@.len() <= 4_096 ==> {
                &&& told.contains_key("encoderSessions"@)
                &&& told["encoderSessions"@] == JsonModel::Array(
                    facts.encoder_sessions->0@.map_values(|s: EncoderSession| session_info(s)),
                )
                &&& !told.contains_key("encoderSessionsTruncated"@)
            }
            &&& facts.encoder_sessions is Some && facts.encoder_sessions->0@.len() > 4_096
                ==> told.contains_key("encoderSessionsTruncated"@)
                && told["encoderSessionsTruncated"@] == JsonModel::Bool(true)
        }),
{
    reveal_strlit("pState");
    reveal_strlit("throttleReasons");
    reveal_strlit("bar1TotalBytes");
    reveal_strlit("bar1UsedBytes");
    reveal_strlit("pcieGeneration");
    reveal_strlit("pcieWidth");
    reveal_strlit("encoderSessions");
    reveal_strlit("encoderSessionsTruncated");
    assert("throttleReasons"@[0] == 't' && "encoderSessions"@[0] == 'e');
    assert("bar1TotalBytes"@[0] == 'b' && "pcieGeneration"@[0] == 'p');
    assert("pState"@.len() == 6 && "throttleReasons"@.len() == 15 && "pcieWidth"@.len() == 9);
    assert("bar1TotalBytes"@.len() == 14 && "bar1UsedBytes"@.len() == 13);
    assert("encoderSessions"@.len() == 15 && "encoderSessionsTruncated"@.len() == 24);
    assert("pcieGeneration"@.len() == 14);
}

/// A session of an encoder is told with its own numbers.
pub proof fn law_sessions_are_told_as_they_are(session: EncoderSession)
    ensures
        session_info(session) == JsonModel::Object(
            seq![
                ("averageFps"@, unsigned_number(session.average_fps as int)),
                (
                    "codec"@,
                    JsonModel::Text(
                        if session.codec == EncoderType::H264 {
                            "h264"@
                        } else {
                            "hevc"@
                        },
                    ),
                ),
                ("height"@, unsigned_number(session.height as int)),
                ("pid"@, unsigned_number(session.pid as int)),
                ("width"@, unsigned_number(session.width as int)),
            ],
        ),
{
}

/// The temperatures at which a device protects itself are told by name.
pub proof fn law_thresholds_are_told_by_name(facts: DynamicFacts)
    ensures
        ({
            let told = thresholds(facts);
            let number = |n: u32| JsonModel::Number(JsonNumber::Unsigned(n as u64));
            &&& told.contains_key("shutdown"@) <==> facts.shutdown_celsius is Some
            &&& told.contains_key("slowdown"@) <==> facts.slowdown_celsius is Some
            &&& told.contains_key("memoryMax"@) <==> facts.memory_max_celsius is Some
            &&& told.contains_key("gpuMax"@) <==> facts.gpu_max_celsius is Some
            &&& facts.shutdown_celsius is Some ==> told["shutdown"@] == number(
                facts.shutdown_celsius->0,
            )
            &&& facts.slowdown_celsius is Some ==> told["slowdown"@] == number(
                facts.slowdown_celsius->0,
            )
            &&& facts.memory_max_celsius is Some ==> told["memoryMax"@] == number(
                facts.memory_max_celsius->0,
            )
            &&& facts.gpu_max_celsius is Some ==> told["gpuMax"@] == number(
                facts.gpu_max_celsius->0,
            )
        }),
{
    reveal_strlit("shutdown");
    reveal_strlit("slowdown");
    reveal_strlit("memoryMax");
    reveal_strlit("gpuMax");
    assert("shutdown"@[1] == 'h' && "slowdown"@[1] == 'l');
    assert("memoryMax"@.len() == 9 && "gpuMax"@.len() == 6);
    assert("shutdown"@.len() == 8 && "slowdown"@.len() == 8);
}

} // verus!
