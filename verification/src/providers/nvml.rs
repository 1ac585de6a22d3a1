//! What NVIDIA's management library says of a device.
use crate::binary64::{Binary64, THOUSAND};
use crate::float_arithmetic::{lemma_integer_bound, lemma_quotient_finite, nearest_bits, ratio_bits};
use crate::merge::{absences, values, AbsenceModel, ValueModel};
use crate::model::{
    metric_place, CapabilitySet, GpuProcessSnapshot, Metric, MetricKey, MetricObservation,
    MetricQuality, MetricValue, ProviderSample, SampleRequest, TimestampMs, UnavailableObservation,
    UnavailableReason,
};
use crate::sorted_map::{lists_keys, SortedMap};
use crate::text::{
    chars_of, decimal, decimal_text, extend, extend_text, owned, padded_digits, padded_digits_of,
    parse_number, read_number, slice_of, string_of, trim, trimmed, CharClass,
};
use vstd::prelude::*;

verus! {

pub const MAX_NVML_DEVICES: u32 = 256;

pub const MAX_NVML_FANS: u32 = 64;

pub const MAX_NVML_PROCESSES: usize = 16_384;

pub const MAX_NVML_ENCODER_SESSIONS: usize = 4_096;

pub const MAX_INVENTORY_FAILURE_DETAILS: usize = 16;

pub const MAX_NVML_STRING_BYTES: usize = 4_096;

pub const PROCESS_NAME_BUFFER_BYTES: usize = 1_024;

/// The name of the provider.
pub open spec fn nvml_name() -> Seq<char> {
    "nvml"@
}

/// The vendor and the device number of a combined PCI number: the device stands in the high word.
pub fn split_combined_pci_id(value: u32) -> (ids: (u32, u32))
    ensures
        ids.0 as int == value as int % 0x1_0000,
        ids.1 as int == value as int / 0x1_0000,
{
    (value % 0x1_0000, value / 0x1_0000)
}

/// The position of the last `c`, none where it does not occur.
pub open spec fn last_index_of(text: Seq<char>, c: char) -> Option<int>
    decreases text.len(),
{
    if text.len() == 0 {
        None
    } else if text.last() == c {
        Some(text.len() - 1)
    } else {
        last_index_of(text.drop_last(), c)
    }
}

/// The function of a reported bus address: what stands behind the last point, where that is a
/// function number; else zero.
pub open spec fn reported_function(bus_id: Seq<char>) -> nat {
    let text = trim(CharClass::White, bus_id);
    match last_index_of(text, '.') {
        None => 0,
        Some(at) => match read_number(text.skip(at + 1), 16, u32::MAX as nat) {
            Ok(n) => if n <= 7 {
                n
            } else {
                0
            },
            Err(fault) => 0,
        },
    }
}

/// A PCI address in its normal form.
pub open spec fn address_text(domain: u32, bus: u32, device: u32, function: nat) -> Seq<char> {
    padded_digits(domain as nat, 16, 4) + ":"@ + padded_digits(bus as nat, 16, 2) + ":"@
        + padded_digits(device as nat, 16, 2) + "."@ + padded_digits(function, 16, 0)
}

fn function_of(bus_id: &str) -> (function: u64)
    ensures
        function == reported_function(bus_id@),
{
    let chars = chars_of(bus_id);
    let text = trimmed(CharClass::White, &chars);
    let mut at: usize = text.len();
    assert(text@.take(at as int) == text@);
    while at > 0 && text[at - 1] != '.'
        invariant
            at <= text.len(),
            last_index_of(text@, '.') == last_index_of(text@.take(at as int), '.'),
        decreases at,
    {
        assert(text@.take(at as int).drop_last() == text@.take(at - 1));
        at = at - 1;
    }
    if at == 0 {
        return 0;
    }
    assert(last_index_of(text@, '.') == Some(at - 1));
    let rest = slice_of(&text, at, text.len());
    assert(rest@ == text@.skip(at as int));
    match parse_number(&rest, 16, u32::MAX as u64) {
        Ok(n) => if n <= 7 {
            n
        } else {
            0
        },
        Err(fault) => 0,
    }
}

pub fn canonical_pci_address(domain: u32, bus: u32, device: u32, reported_bus_id: &str) -> (address:
    String)
    ensures
        address@ == address_text(domain, bus, device, reported_function(reported_bus_id@)),
{
    let function: u64 = function_of(reported_bus_id);
    let mut out = padded_digits_of(domain as u64, 16, 4);
    extend_text(&mut out, ":");
    let digits = padded_digits_of(bus as u64, 16, 2);
    extend(&mut out, &digits);
    extend_text(&mut out, ":");
    let digits = padded_digits_of(device as u64, 16, 2);
    extend(&mut out, &digits);
    extend_text(&mut out, ".");
    let digits = padded_digits_of(function, 16, 0);
    extend(&mut out, &digits);
    string_of(&out)
}

/// The value nearest to an integer.
pub open spec fn whole(n: nat) -> Binary64 {
    Binary64 { bits: nearest_bits(n) as u64 }
}

/// The value nearest to a quotient.
pub open spec fn quotient(n: nat, d: nat) -> Binary64 {
    Binary64 { bits: ratio_bits(n, d) as u64 }
}

/// The thousandth part of the value nearest to an integer.
pub open spec fn thousandth(n: nat) -> Binary64 {
    whole(n).over(Binary64 { bits: THOUSAND })
}

/// What is said of a percentage above a hundred.
pub open spec fn percentage_words(value: u32) -> Seq<char> {
    "NVML returned an out-of-range percentage ("@ + decimal(value as nat) + ")"@
}

pub fn checked_percentage(value: u32) -> (result: Result<Binary64, String>)
    ensures
        match result {
            Ok(number) => value <= 100 && number == whole(value as nat) && number.non_negative(),
            Err(words) => value > 100 && words@ == percentage_words(value),
        },
{
    if value <= 100 {
        Ok(Binary64::from_u64(value as u64))
    } else {
        let mut words = chars_of("NVML returned an out-of-range percentage (");
        let number = decimal_text(value as u64);
        extend_text(&mut words, number.as_str());
        extend_text(&mut words, ")");
        Err(string_of(&words))
    }
}

pub fn milliwatts_to_watts(value: u32) -> (watts: Binary64)
    ensures
        watts == quotient(value as nat, 1_000),
        watts.non_negative(),
{
    Binary64::from_ratio(value as u128, 1_000)
}

pub fn millijoules_to_joules(value: u64) -> (joules: Binary64)
    ensures
        joules == thousandth(value as nat),
        joules.non_negative(),
{
    let thousand = Binary64::from_bits(THOUSAND);
    proof {
        lemma_integer_bound(value as nat);
        lemma_quotient_finite(whole(value as nat), thousand);
    }
    Binary64::from_u64(value).quotient_by(thousand)
}

/// Microseconds as milliseconds, rounded up.
pub fn microseconds_to_milliseconds(value: u32) -> (millis: u64)
    ensures
        millis == (value as int + 999) / 1_000,
{
    (value as u64 + 999) / 1_000
}

/// The kinds of failure of a query that are told apart.
#[derive(Clone, Copy, Debug, PartialEq, Eq, Structural)]
pub enum NvmlErrorKind {
    NotSupported,
    FunctionNotFound,
    FailedToLoadSymbol,
    NoPermission,
    OperatingSystem,
    GpuLost,
    ResetRequired,
    NotFound,
    DriverNotLoaded,
    LibraryNotFound,
    Libloading,
    LibRmVersionMismatch,
    Timeout,
    NoData,
    InUse,
    InsufficientPower,
    IrqIssue,
    Other,
}

/// What a failure means for a metric.
pub open spec fn failure_reason(kind: NvmlErrorKind) -> UnavailableReason {
    match kind {
        NvmlErrorKind::NotSupported => UnavailableReason::Unsupported,
        NvmlErrorKind::FunctionNotFound => UnavailableReason::Unsupported,
        NvmlErrorKind::FailedToLoadSymbol => UnavailableReason::Unsupported,
        NvmlErrorKind::NoPermission => UnavailableReason::PermissionDenied,
        NvmlErrorKind::OperatingSystem => UnavailableReason::PermissionDenied,
        NvmlErrorKind::GpuLost => UnavailableReason::DeviceLost,
        NvmlErrorKind::ResetRequired => UnavailableReason::DeviceLost,
        NvmlErrorKind::NotFound => UnavailableReason::DeviceLost,
        NvmlErrorKind::DriverNotLoaded => UnavailableReason::DriverLibraryMissing,
        NvmlErrorKind::LibraryNotFound => UnavailableReason::DriverLibraryMissing,
        NvmlErrorKind::Libloading => UnavailableReason::DriverLibraryMissing,
        NvmlErrorKind::LibRmVersionMismatch => UnavailableReason::DriverLibraryMissing,
        NvmlErrorKind::Timeout => UnavailableReason::TemporarilyUnavailable,
        NvmlErrorKind::NoData => UnavailableReason::TemporarilyUnavailable,
        NvmlErrorKind::InUse => UnavailableReason::TemporarilyUnavailable,
        NvmlErrorKind::InsufficientPower => UnavailableReason::TemporarilyUnavailable,
        NvmlErrorKind::IrqIssue => UnavailableReason::TemporarilyUnavailable,
        NvmlErrorKind::Other => UnavailableReason::ProviderError,
    }
}

pub fn unavailable_reason(kind: NvmlErrorKind) -> (reason: UnavailableReason)
    ensures
        reason == failure_reason(kind),
{
    match kind {
        NvmlErrorKind::NotSupported
        | NvmlErrorKind::FunctionNotFound
        | NvmlErrorKind::FailedToLoadSymbol => UnavailableReason::Unsupported,
        NvmlErrorKind::NoPermission | NvmlErrorKind::OperatingSystem => {
            UnavailableReason::PermissionDenied
        },
        NvmlErrorKind::GpuLost | NvmlErrorKind::ResetRequired | NvmlErrorKind::NotFound => {
            UnavailableReason::DeviceLost
        },
        NvmlErrorKind::DriverNotLoaded
        | NvmlErrorKind::LibraryNotFound
        | NvmlErrorKind::Libloading
        | NvmlErrorKind::LibRmVersionMismatch => UnavailableReason::DriverLibraryMissing,
        NvmlErrorKind::Timeout
        | NvmlErrorKind::NoData
        | NvmlErrorKind::InUse
        | NvmlErrorKind::InsufficientPower
        | NvmlErrorKind::IrqIssue => UnavailableReason::TemporarilyUnavailable,
        NvmlErrorKind::Other => UnavailableReason::ProviderError,
    }
}

/// The device or the driver does not know the query.
pub open spec fn is_unknown_query(kind: NvmlErrorKind) -> bool {
    kind == NvmlErrorKind::NotSupported || kind == NvmlErrorKind::FunctionNotFound || kind
        == NvmlErrorKind::FailedToLoadSymbol
}

pub fn is_unsupported(kind: NvmlErrorKind) -> (unsupported: bool)
    ensures
        unsupported == is_unknown_query(kind),
{
    matches!(
        kind,
        NvmlErrorKind::NotSupported | NvmlErrorKind::FunctionNotFound
            | NvmlErrorKind::FailedToLoadSymbol
    )
}

/// A query that failed.
#[derive(Debug)]
pub struct NvmlFailure {
    pub kind: NvmlErrorKind,
    pub words: String,
}

impl Clone for NvmlFailure {
    fn clone(&self) -> (copy: Self)
        ensures
            copy == *self,
    {
        NvmlFailure { kind: self.kind, words: self.words.clone() }
    }
}

/// A text of the driver, unless it is too long.
pub fn bounded_string(value: String) -> (text: Option<String>)
    ensures
        match text {
            Some(same) => same == value && fits_nvml(value@),
            None => !fits_nvml(value@),
        },
{
    if value.as_str().len() <= MAX_NVML_STRING_BYTES {
        Some(value)
    } else {
        None
    }
}

/// A text is no longer than the driver's texts may be.
pub open spec fn fits_nvml(text: Seq<char>) -> bool {
    (vstd::utf8::encode_utf8(text).len() as usize) <= MAX_NVML_STRING_BYTES
}

/// Why a field has no value.
#[derive(Debug)]
pub enum FieldError {
    Nvml(NvmlFailure),
    InvalidValue(String),
}

/// A field error by its contents.
pub enum FieldErrorModel {
    Nvml { kind: NvmlErrorKind, words: Seq<char> },
    InvalidValue(Seq<char>),
}

impl View for FieldError {
    type V = FieldErrorModel;

    open spec fn view(&self) -> FieldErrorModel {
        match self {
            FieldError::Nvml(failure) => FieldErrorModel::Nvml {
                kind: failure.kind,
                words: failure.words@,
            },
            FieldError::InvalidValue(words) => FieldErrorModel::InvalidValue(words@),
        }
    }
}

/// A failure as a field error.
pub open spec fn failed(failure: NvmlFailure) -> FieldErrorModel {
    FieldErrorModel::Nvml { kind: failure.kind, words: failure.words@ }
}

/// What the fans of a device gave.
#[derive(Debug)]
pub struct FanReadings {
    pub count: Result<u32, NvmlFailure>,
    /// One for each fan; for the first one alone where the number of fans is not known.
    pub speeds: Vec<Result<u32, NvmlFailure>>,
    /// How the mean of the speeds is written.
    pub mean_text: String,
}

/// The number of fans that are read.
pub open spec fn fan_count(readings: FanReadings) -> nat {
    match readings.count {
        Ok(n) => n as nat,
        Err(failure) => 1,
    }
}

/// The sum of the speeds among the first `n` that were read.
pub open spec fn speed_sum(speeds: Seq<Result<u32, NvmlFailure>>, n: int) -> nat
    decreases n,
{
    if n <= 0 {
        0
    } else {
        speed_sum(speeds, n - 1) + match speeds[n - 1] {
            Ok(speed) => speed as nat,
            Err(failure) => 0,
        }
    }
}

/// The number of speeds among the first `n` that were read.
pub open spec fn speed_count(speeds: Seq<Result<u32, NvmlFailure>>, n: int) -> nat
    decreases n,
{
    if n <= 0 {
        0
    } else {
        speed_count(speeds, n - 1) + match speeds[n - 1] {
            Ok(speed) => 1nat,
            Err(failure) => 0nat,
        }
    }
}

/// The last failure among the first `n` reads, `before` where there is none.
pub open spec fn last_failure(
    speeds: Seq<Result<u32, NvmlFailure>>,
    before: NvmlFailure,
    n: int,
) -> NvmlFailure
    decreases n,
{
    if n <= 0 {
        before
    } else {
        match speeds[n - 1] {
            Ok(speed) => last_failure(speeds, before, n - 1),
            Err(failure) => failure,
        }
    }
}

/// The fans that are both counted and read.
pub open spec fn fans_read(readings: FanReadings) -> int {
    if readings.speeds@.len() < fan_count(readings) {
        readings.speeds@.len() as int
    } else {
        fan_count(readings) as int
    }
}

/// What is said of too many fans.
pub open spec fn fan_count_words(count: u32) -> Seq<char> {
    "NVML reported an unreasonable fan count ("@ + decimal(count as nat)
        + "); the safety limit is 64"@
}

/// The mean speed of the fans that could be read. `unsupported` is what NVML says where there is
/// nothing to read.
pub open spec fn mean_speed(readings: FanReadings, unsupported: NvmlFailure) -> Result<
    Binary64,
    FieldErrorModel,
> {
    let n = fans_read(readings);
    match readings.count {
        Ok(count) if count == 0 => Err(failed(unsupported)),
        Ok(count) if count > MAX_NVML_FANS => Err(
            FieldErrorModel::InvalidValue(fan_count_words(count)),
        ),
        _ => {
            let before = match readings.count {
                Ok(count) => unsupported,
                Err(failure) => failure,
            };
            if speed_count(readings.speeds@, n) == 0 {
                Err(failed(last_failure(readings.speeds@, before, n)))
            } else {
                Ok(quotient(speed_sum(readings.speeds@, n), speed_count(readings.speeds@, n)))
            }
        },
    }
}

/// A numeric result with its error by its contents.
pub open spec fn same_field(
    result: Result<Binary64, FieldError>,
    model: Result<Binary64, FieldErrorModel>,
) -> bool {
    match (result, model) {
        (Ok(a), Ok(b)) => a == b,
        (Err(a), Err(b)) => a@ == b,
        _ => false,
    }
}

pub fn average_fan_reading(readings: &FanReadings, unsupported: &NvmlFailure) -> (result: Result<
    Binary64,
    FieldError,
>)
    ensures
        same_field(result, mean_speed(*readings, *unsupported)),
        result is Ok ==> result->Ok_0.non_negative(),
{
    let count: u32 = match &readings.count {
        Ok(count) => *count,
        Err(failure) => 1,
    };
    if count == 0 {
        return Err(FieldError::Nvml(unsupported.clone()));
    }
    if count > MAX_NVML_FANS {
        let mut words = chars_of("NVML reported an unreasonable fan count (");
        let number = decimal_text(count as u64);
        extend_text(&mut words, number.as_str());
        extend_text(&mut words, "); the safety limit is 64");
        return Err(FieldError::InvalidValue(string_of(&words)));
    }
    let mut last: NvmlFailure = match &readings.count {
        Ok(count) => unsupported.clone(),
        Err(failure) => failure.clone(),
    };
    let ghost before = last;
    let fans: usize = if readings.speeds.len() < count as usize {
        readings.speeds.len()
    } else {
        count as usize
    };
    let mut total: u64 = 0;
    let mut read: u64 = 0;
    let mut i: usize = 0;
    while i < fans
        invariant
            i <= fans <= readings.speeds.len(),
            fans <= 64,
            total == speed_sum(readings.speeds@, i as int),
            read == speed_count(readings.speeds@, i as int),
            last == last_failure(readings.speeds@, before, i as int),
            total <= i * u32::MAX,
            read <= i,
        decreases fans - i,
    {
        match &readings.speeds[i] {
            Ok(speed) => {
                assert(total + *speed <= (i + 1) * u32::MAX) by (nonlinear_arith)
                    requires
                        total <= i * u32::MAX,
                        *speed <= u32::MAX,
                ;
                assert((i + 1) * u32::MAX <= 64 * u32::MAX) by (nonlinear_arith)
                    requires
                        i + 1 <= 64,
                ;
                total = total + *speed as u64;
                read = read + 1;
            },
            Err(failure) => {
                assert(total <= (i + 1) * u32::MAX) by (nonlinear_arith)
                    requires
                        total <= i * u32::MAX,
                ;
                last = failure.clone();
            },
        }
        i = i + 1;
    }
    if read == 0 {
        return Err(FieldError::Nvml(last));
    }
    Ok(Binary64::from_ratio(total as u128, read))
}

/// The mean speed as a percentage.
pub open spec fn mean_percentage(readings: FanReadings, unsupported: NvmlFailure) -> Result<
    Binary64,
    FieldErrorModel,
> {
    match mean_speed(readings, unsupported) {
        Err(error) => Err(error),
        Ok(value) => if value.percent() {
            Ok(value)
        } else {
            Err(
                FieldErrorModel::InvalidValue(
                    "NVML returned an out-of-range fan percentage ("@ + readings.mean_text@
                        + ")"@,
                ),
            )
        },
    }
}

pub fn average_fan_percentage(readings: &FanReadings, unsupported: &NvmlFailure) -> (result: Result<
    Binary64,
    FieldError,
>)
    ensures
        same_field(result, mean_percentage(*readings, *unsupported)),
        result is Ok ==> result->Ok_0.non_negative(),
{
    match average_fan_reading(readings, unsupported) {
        Err(error) => Err(error),
        Ok(value) => if value.is_percent() {
            Ok(value)
        } else {
            let mut words = chars_of("NVML returned an out-of-range fan percentage (");
            extend_text(&mut words, readings.mean_text.as_str());
            extend_text(&mut words, ")");
            Err(FieldError::InvalidValue(string_of(&words)))
        },
    }
}

/// A process that uses a device.
#[derive(Clone, Copy, Debug, PartialEq, Eq, Structural)]
pub struct ProcessReading {
    pub pid: u32,
    pub used_bytes: Option<u64>,
}

/// The larger of two sizes, the one that is known where the other is not.
pub open spec fn merged_bytes(a: Option<u64>, b: Option<u64>) -> Option<u64> {
    match (a, b) {
        (Some(left), Some(right)) => Some(
            if left >= right {
                left
            } else {
                right
            },
        ),
        (Some(value), None) => Some(value),
        (None, other) => other,
    }
}

/// The processes after one more reading; a new process beyond the limit is left out.
pub open spec fn with_process(
    processes: Map<u32, Option<u64>>,
    reading: ProcessReading,
) -> Map<u32, Option<u64>> {
    if processes.contains_key(reading.pid) {
        processes.insert(reading.pid, merged_bytes(processes[reading.pid], reading.used_bytes))
    } else if processes.dom().len() >= MAX_NVML_PROCESSES {
        processes
    } else {
        processes.insert(reading.pid, reading.used_bytes)
    }
}

/// The processes after more readings.
pub open spec fn with_processes(
    processes: Map<u32, Option<u64>>,
    readings: Seq<ProcessReading>,
) -> Map<u32, Option<u64>>
    decreases readings.len(),
{
    if readings.len() == 0 {
        processes
    } else {
        with_process(with_processes(processes, readings.drop_last()), readings.last())
    }
}

proof fn lemma_listing_counts(keys: Seq<u32>, dom: Set<u32>)
    requires
        lists_keys::<u32>(keys, dom),
    ensures
        keys.len() == dom.len(),
        dom.finite(),
{
    assert(keys.no_duplicates());
    keys.unique_seq_to_set();
    assert(keys.to_set() == dom);
    vstd::seq_lib::seq_to_set_is_finite(keys);
}

pub fn merge_process_readings(
    destination: &mut SortedMap<u32, Option<u64>>,
    readings: &Vec<ProcessReading>,
)
    ensures
        final(destination)@ == with_processes(old(destination)@, readings@),
{
    let ghost before = destination@;
    let mut i: usize = 0;
    while i < readings.len()
        invariant
            i <= readings.len(),
            destination@ == with_processes(before, readings@.take(i as int)),
        decreases readings.len() - i,
    {
        assert(readings@.take(i + 1).drop_last() == readings@.take(i as int));
        let reading = readings[i];
        let known: Option<Option<u64>> = match destination.get(&reading.pid) {
            Some(bytes) => Some(*bytes),
            None => None,
        };
        match known {
            Some(bytes) => {
                let merged = match (bytes, reading.used_bytes) {
                    (Some(left), Some(right)) => Some(
                        if left >= right {
                            left
                        } else {
                            right
                        },
                    ),
                    (Some(value), None) => Some(value),
                    (None, other) => other,
                };
                destination.insert(reading.pid, merged);
            },
            None => {
                let count: usize = destination.len();
                proof {
                    lemma_listing_counts(destination.keys(), destination@.dom());
                }
                if count < MAX_NVML_PROCESSES {
                    destination.insert(reading.pid, reading.used_bytes);
                }
            },
        }
        i = i + 1;
    }
    assert(readings@.take(i as int) == readings@);
}

/// What one of the two lists of processes gave.
#[derive(Debug)]
pub struct ProcessQuery {
    pub count: Result<u32, NvmlFailure>,
    pub list: Result<Vec<ProcessReading>, NvmlFailure>,
}

/// How far the lists of processes have been gone through.
pub enum ProcessState {
    /// A count was beyond the limit.
    Refused(u32),
    Going { processes: Map<u32, Option<u64>>, any: bool, last: NvmlFailure },
}

/// One more list gone through.
pub open spec fn after_query(state: ProcessState, query: ProcessQuery) -> ProcessState {
    match state {
        ProcessState::Refused(count) => state,
        ProcessState::Going { processes, any, last } => match query.count {
            Err(failure) => ProcessState::Going { processes, any, last: failure },
            Ok(count) => if count > MAX_NVML_PROCESSES {
                ProcessState::Refused(count)
            } else {
                match query.list {
                    Ok(list) => ProcessState::Going {
                        processes: with_processes(processes, list@),
                        any: true,
                        last,
                    },
                    Err(failure) => ProcessState::Going { processes, any, last: failure },
                }
            },
        },
    }
}

/// The lists of compute and of graphics processes gone through, in this order.
pub open spec fn process_outcome(
    compute: ProcessQuery,
    graphics: ProcessQuery,
    unsupported: NvmlFailure,
) -> ProcessState {
    after_query(
        after_query(
            ProcessState::Going { processes: Map::empty(), any: false, last: unsupported },
            compute,
        ),
        graphics,
    )
}

/// What is said of too many processes.
pub open spec fn process_count_words(count: u32) -> Seq<char> {
    "NVML reported an unreasonable process count ("@ + decimal(count as nat)
        + "); the safety limit is 16384"@
}

fn refuse_count(count: u32) -> (error: FieldError)
    ensures
        error@ == FieldErrorModel::InvalidValue(process_count_words(count)),
{
    let mut words = chars_of("NVML reported an unreasonable process count (");
    let number = decimal_text(count as u64);
    extend_text(&mut words, number.as_str());
    extend_text(&mut words, "); the safety limit is 16384");
    FieldError::InvalidValue(string_of(&words))
}

/// The processes of a device with their memory.
pub fn collect_processes(
    compute: &ProcessQuery,
    graphics: &ProcessQuery,
    unsupported: &NvmlFailure,
) -> (result: Result<SortedMap<u32, Option<u64>>, FieldError>)
    ensures
        match process_outcome(*compute, *graphics, *unsupported) {
            ProcessState::Refused(count) => result is Err && result->Err_0@
                == FieldErrorModel::InvalidValue(process_count_words(count)),
            ProcessState::Going { processes, any, last } => if any {
                result is Ok && result->Ok_0@ == processes
            } else {
                result is Err && result->Err_0@ == failed(last)
            },
        },
{
    let mut processes: SortedMap<u32, Option<u64>> = SortedMap::new();
    let mut any = false;
    let mut last = unsupported.clone();
    match &compute.count {
        Err(failure) => {
            last = failure.clone();
        },
        Ok(count) => {
            if *count as usize > MAX_NVML_PROCESSES {
                return Err(refuse_count(*count));
            }
            match &compute.list {
                Ok(list) => {
                    any = true;
                    merge_process_readings(&mut processes, list);
                },
                Err(failure) => {
                    last = failure.clone();
                },
            }
        },
    }
    match &graphics.count {
        Err(failure) => {
            last = failure.clone();
        },
        Ok(count) => {
            if *count as usize > MAX_NVML_PROCESSES {
                return Err(refuse_count(*count));
            }
            match &graphics.list {
                Ok(list) => {
                    any = true;
                    merge_process_readings(&mut processes, list);
                },
                Err(failure) => {
                    last = failure.clone();
                },
            }
        },
    }
    if any {
        Ok(processes)
    } else {
        Err(FieldError::Nvml(last))
    }
}

/// How busy a device and its memory were.
#[derive(Clone, Copy, Debug, PartialEq, Eq, Structural)]
pub struct UtilizationReading {
    pub gpu: u32,
    pub memory: u32,
}

/// How busy a codec was over a time.
#[derive(Clone, Copy, Debug, PartialEq, Eq, Structural)]
pub struct CodecReading {
    pub utilization: u32,
    pub sampling_period_us: u32,
}

/// What the queries for a sample gave; none where a query was not made.
pub struct NvmlReadings {
    pub utilization: Option<Result<UtilizationReading, NvmlFailure>>,
    pub encoder: Option<Result<CodecReading, NvmlFailure>>,
    pub decoder: Option<Result<CodecReading, NvmlFailure>>,
    pub memory_used: Option<Result<u64, NvmlFailure>>,
    pub temperature: Option<Result<u32, NvmlFailure>>,
    pub power_milliwatts: Option<Result<u32, NvmlFailure>>,
    pub limit_milliwatts: Option<Result<u32, NvmlFailure>>,
    pub energy_millijoules: Option<Result<u64, NvmlFailure>>,
    pub graphics_clock: Option<Result<u32, NvmlFailure>>,
    pub sm_clock: Option<Result<u32, NvmlFailure>>,
    pub memory_clock: Option<Result<u32, NvmlFailure>>,
    pub video_clock: Option<Result<u32, NvmlFailure>>,
    pub fan_percent: Option<FanReadings>,
    pub fan_rpm: Option<FanReadings>,
    pub compute_processes: Option<ProcessQuery>,
    pub graphics_processes: Option<ProcessQuery>,
    /// The names of processes that are known.
    pub process_names: SortedMap<u32, String>,
    /// What NVML says of a query that it does not support.
    pub unsupported: NvmlFailure,
}

/// What a field of a sample comes to.
pub struct FieldModel {
    pub operation: Seq<char>,
    pub result: Result<Binary64, FieldErrorModel>,
    pub interval_ms: Option<u64>,
    pub definition: Option<Seq<char>>,
}

struct Field {
    operation: &'static str,
    result: Result<Binary64, FieldError>,
    interval_ms: Option<u64>,
    definition: Option<&'static str>,
}

impl Field {
    spec fn shows(&self, model: FieldModel) -> bool {
        &&& self.operation@ == model.operation
        &&& same_field(self.result, model.result)
        &&& self.interval_ms == model.interval_ms
        &&& match (self.definition, model.definition) {
            (Some(a), Some(b)) => a@ == b,
            (None, None) => true,
            _ => false,
        }
        &&& self.result is Ok ==> self.result->Ok_0.non_negative()
    }
}

/// A percentage, where it is one.
pub open spec fn percentage_result(value: u32) -> Result<Binary64, FieldErrorModel> {
    if value <= 100 {
        Ok(whole(value as nat))
    } else {
        Err(FieldErrorModel::InvalidValue(percentage_words(value)))
    }
}

fn percentage_field(value: u32) -> (result: Result<Binary64, FieldError>)
    ensures
        same_field(result, percentage_result(value)),
        result is Ok ==> result->Ok_0.non_negative(),
{
    match checked_percentage(value) {
        Ok(number) => Ok(number),
        Err(words) => Err(FieldError::InvalidValue(words)),
    }
}

/// A whole number that was read.
pub open spec fn whole_result(reading: Result<u32, NvmlFailure>) -> Result<
    Binary64,
    FieldErrorModel,
> {
    match reading {
        Ok(n) => Ok(whole(n as nat)),
        Err(failure) => Err(failed(failure)),
    }
}

fn whole_field(reading: &Result<u32, NvmlFailure>) -> (result: Result<Binary64, FieldError>)
    ensures
        same_field(result, whole_result(*reading)),
        result is Ok ==> result->Ok_0.non_negative(),
{
    match reading {
        Ok(n) => Ok(Binary64::from_u64(*n as u64)),
        Err(failure) => Err(FieldError::Nvml(failure.clone())),
    }
}

/// A number of thousandths that was read.
pub open spec fn thousandth_result(reading: Result<u32, NvmlFailure>) -> Result<
    Binary64,
    FieldErrorModel,
> {
    match reading {
        Ok(n) => Ok(quotient(n as nat, 1_000)),
        Err(failure) => Err(failed(failure)),
    }
}

fn thousandth_field(reading: &Result<u32, NvmlFailure>) -> (result: Result<Binary64, FieldError>)
    ensures
        same_field(result, thousandth_result(*reading)),
        result is Ok ==> result->Ok_0.non_negative(),
{
    match reading {
        Ok(n) => Ok(milliwatts_to_watts(*n)),
        Err(failure) => Err(FieldError::Nvml(failure.clone())),
    }
}

/// A field without an interval.
pub open spec fn plain_field(
    operation: Seq<char>,
    result: Result<Binary64, FieldErrorModel>,
    definition: Option<Seq<char>>,
) -> FieldModel {
    FieldModel { operation, result, interval_ms: None, definition }
}

/// The field of a codec.
pub open spec fn codec_field(
    operation: Seq<char>,
    reading: Result<CodecReading, NvmlFailure>,
    definition: Seq<char>,
) -> FieldModel {
    match reading {
        Ok(value) => FieldModel {
            operation,
            result: percentage_result(value.utilization),
            interval_ms: Some(((value.sampling_period_us as int + 999) / 1_000) as u64),
            definition: Some(definition),
        },
        Err(failure) => plain_field(operation, Err(failed(failure)), Some(definition)),
    }
}

fn read_codec(
    operation: &'static str,
    reading: &Result<CodecReading, NvmlFailure>,
    definition: &'static str,
) -> (field: Field)
    ensures
        field.shows(codec_field(operation@, *reading, definition@)),
{
    match reading {
        Ok(value) => Field {
            operation,
            result: percentage_field(value.utilization),
            interval_ms: Some(microseconds_to_milliseconds(value.sampling_period_us)),
            definition: Some(definition),
        },
        Err(failure) => Field {
            operation,
            result: Err(FieldError::Nvml(failure.clone())),
            interval_ms: None,
            definition: Some(definition),
        },
    }
}

/// What a metric of a sample comes to, where its query was made.
pub open spec fn field_of(key: MetricKey, readings: NvmlReadings) -> Option<FieldModel> {
    match key {
        MetricKey::UtilizationOverall => match readings.utilization {
            None => None,
            Some(reading) => Some(
                plain_field(
                    "utilization"@,
                    match reading {
                        Ok(value) => percentage_result(value.gpu),
                        Err(failure) => Err(failed(failure)),
                    },
                    Some(
                        "percentage of NVML's internal sample period during which one or more kernels executed on the GPU"@,
                    ),
                ),
            ),
        },
        MetricKey::UtilizationMemoryController => match readings.utilization {
            None => None,
            Some(reading) => Some(
                plain_field(
                    "utilization"@,
                    match reading {
                        Ok(value) => percentage_result(value.memory),
                        Err(failure) => Err(failed(failure)),
                    },
                    Some(
                        "percentage of NVML's internal sample period during which device memory was read or written"@,
                    ),
                ),
            ),
        },
        MetricKey::UtilizationEncoder => match readings.encoder {
            None => None,
            Some(reading) => Some(
                codec_field(
                    "encoder utilization"@,
                    reading,
                    "NVENC busy percentage over NVML's reported sampling period"@,
                ),
            ),
        },
        MetricKey::UtilizationDecoder => match readings.decoder {
            None => None,
            Some(reading) => Some(
                codec_field(
                    "decoder utilization"@,
                    reading,
                    "NVDEC busy percentage over NVML's reported sampling period"@,
                ),
            ),
        },
        MetricKey::MemoryDedicatedUsedBytes => match readings.memory_used {
            None => None,
            Some(reading) => Some(
                plain_field(
                    "framebuffer memory"@,
                    match reading {
                        Ok(bytes) => Ok(whole(bytes as nat)),
                        Err(failure) => Err(failed(failure)),
                    },
                    None,
                ),
            ),
        },
        MetricKey::TemperatureCoreCelsius => match readings.temperature {
            None => None,
            Some(reading) => Some(plain_field("GPU temperature"@, whole_result(reading), None)),
        },
        MetricKey::PowerDrawWatts => match readings.power_milliwatts {
            None => None,
            Some(reading) => Some(plain_field("power draw"@, thousandth_result(reading), None)),
        },
        MetricKey::PowerLimitWatts => match readings.limit_milliwatts {
            None => None,
            Some(reading) => Some(
                plain_field(
                    "enforced power limit"@,
                    thousandth_result(reading),
                    Some("effective power limit currently enforced by the NVIDIA driver"@),
                ),
            ),
        },
        MetricKey::PowerEnergyJoules => match readings.energy_millijoules {
            None => None,
            Some(reading) => Some(
                plain_field(
                    "total energy"@,
                    match reading {
                        Ok(n) => Ok(thousandth(n as nat)),
                        Err(failure) => Err(failed(failure)),
                    },
                    Some("cumulative energy since the last NVIDIA driver reload"@),
                ),
            ),
        },
        MetricKey::ClockGraphicsMhz => match readings.graphics_clock {
            None => None,
            Some(reading) => Some(plain_field("graphics clock"@, whole_result(reading), None)),
        },
        MetricKey::ClockComputeMhz => match readings.sm_clock {
            None => None,
            Some(reading) => Some(plain_field("SM clock"@, whole_result(reading), None)),
        },
        MetricKey::ClockMemoryMhz => match readings.memory_clock {
            None => None,
            Some(reading) => Some(plain_field("memory clock"@, whole_result(reading), None)),
        },
        MetricKey::ClockVideoMhz => match readings.video_clock {
            None => None,
            Some(reading) => Some(plain_field("video clock"@, whole_result(reading), None)),
        },
        MetricKey::FanPercent => match readings.fan_percent {
            None => None,
            Some(fans) => Some(
                plain_field(
                    "fan speed percentage"@,
                    mean_percentage(fans, readings.unsupported),
                    Some("arithmetic mean of all NVML-reported GPU fan percentages"@),
                ),
            ),
        },
        MetricKey::FanRpm => match readings.fan_rpm {
            None => None,
            Some(fans) => Some(
                plain_field(
                    "fan speed RPM"@,
                    mean_speed(fans, readings.unsupported),
                    Some("arithmetic mean of all NVML-reported GPU fan RPM values"@),
                ),
            ),
        },
        _ => None,
    }
}

fn make_field(
    operation: &'static str,
    result: Result<Binary64, FieldError>,
    definition: Option<&'static str>,
) -> (field: Option<Field>)
    ensures
        field is Some,
        field->0.operation@ == operation@,
        field->0.result == result,
        field->0.interval_ms is None,
        field->0.definition == definition,
{
    Some(Field { operation, result, interval_ms: None, definition })
}

fn read_field(key: MetricKey, readings: &NvmlReadings) -> (field: Option<Field>)
    ensures
        match field {
            Some(field) => field_of(key, *readings) is Some && field.shows(
                field_of(key, *readings)->0,
            ),
            None => field_of(key, *readings) is None,
        },
{
    match key {
        MetricKey::UtilizationOverall => match &readings.utilization {
            None => None,
            Some(reading) => {
                let result = match reading {
                    Ok(value) => percentage_field(value.gpu),
                    Err(failure) => Err(FieldError::Nvml(failure.clone())),
                };
                make_field(
                    "utilization",
                    result,
                    Some(
                        "percentage of NVML's internal sample period during which one or more kernels executed on the GPU",
                    ),
                )
            },
        },
        MetricKey::UtilizationMemoryController => match &readings.utilization {
            None => None,
            Some(reading) => {
                let result = match reading {
                    Ok(value) => percentage_field(value.memory),
                    Err(failure) => Err(FieldError::Nvml(failure.clone())),
                };
                make_field(
                    "utilization",
                    result,
                    Some(
                        "percentage of NVML's internal sample period during which device memory was read or written",
                    ),
                )
            },
        },
        MetricKey::UtilizationEncoder => match &readings.encoder {
            None => None,
            Some(reading) => Some(
                read_codec(
                    "encoder utilization",
                    reading,
                    "NVENC busy percentage over NVML's reported sampling period",
                ),
            ),
        },
        MetricKey::UtilizationDecoder => match &readings.decoder {
            None => None,
            Some(reading) => Some(
                read_codec(
                    "decoder utilization",
                    reading,
                    "NVDEC busy percentage over NVML's reported sampling period",
                ),
            ),
        },
        MetricKey::MemoryDedicatedUsedBytes => match &readings.memory_used {
            None => None,
            Some(reading) => {
                let result = match reading {
                    Ok(bytes) => Ok(Binary64::from_u64(*bytes)),
                    Err(failure) => Err(FieldError::Nvml(failure.clone())),
                };
                make_field("framebuffer memory", result, None)
            },
        },
        MetricKey::TemperatureCoreCelsius => match &readings.temperature {
            None => None,
            Some(reading) => make_field("GPU temperature", whole_field(reading), None),
        },
        MetricKey::PowerDrawWatts => match &readings.power_milliwatts {
            None => None,
            Some(reading) => make_field("power draw", thousandth_field(reading), None),
        },
        MetricKey::PowerLimitWatts => match &readings.limit_milliwatts {
            None => None,
            Some(reading) => make_field(
                "enforced power limit",
                thousandth_field(reading),
                Some("effective power limit currently enforced by the NVIDIA driver"),
            ),
        },
        MetricKey::PowerEnergyJoules => match &readings.energy_millijoules {
            None => None,
            Some(reading) => {
                let result = match reading {
                    Ok(n) => Ok(millijoules_to_joules(*n)),
                    Err(failure) => Err(FieldError::Nvml(failure.clone())),
                };
                make_field(
                    "total energy",
                    result,
                    Some("cumulative energy since the last NVIDIA driver reload"),
                )
            },
        },
        MetricKey::ClockGraphicsMhz => match &readings.graphics_clock {
            None => None,
            Some(reading) => make_field("graphics clock", whole_field(reading), None),
        },
        MetricKey::ClockComputeMhz => match &readings.sm_clock {
            None => None,
            Some(reading) => make_field("SM clock", whole_field(reading), None),
        },
        MetricKey::ClockMemoryMhz => match &readings.memory_clock {
            None => None,
            Some(reading) => make_field("memory clock", whole_field(reading), None),
        },
        MetricKey::ClockVideoMhz => match &readings.video_clock {
            None => None,
            Some(reading) => make_field("video clock", whole_field(reading), None),
        },
        MetricKey::FanPercent => match &readings.fan_percent {
            None => None,
            Some(fans) => make_field(
                "fan speed percentage",
                average_fan_percentage(fans, &readings.unsupported),
                Some("arithmetic mean of all NVML-reported GPU fan percentages"),
            ),
        },
        MetricKey::FanRpm => match &readings.fan_rpm {
            None => None,
            Some(fans) => make_field(
                "fan speed RPM",
                average_fan_reading(fans, &readings.unsupported),
                Some("arithmetic mean of all NVML-reported GPU fan RPM values"),
            ),
        },
        _ => None,
    }
}

/// The metric is offered and asked for; the processes are asked for in their own way.
pub open spec fn is_wanted(
    capabilities: Set<MetricKey>,
    request: SampleRequest,
    key: MetricKey,
) -> bool {
    capabilities.contains(key) && if key == MetricKey::Processes {
        request.include_processes
    } else {
        request.asks_for(key)
    }
}

/// Whether a metric is to be queried.
pub fn wants_metric(capabilities: &CapabilitySet, request: &SampleRequest, key: MetricKey) -> (wanted:
    bool)
    ensures
        wanted == is_wanted(capabilities.metric_set(), *request, key),
{
    capabilities.supports(key) && if key == MetricKey::Processes {
        request.include_processes
    } else {
        request.wants(key)
    }
}

/// The account of a metric that has no value.
pub open spec fn field_absence(
    device_id: Seq<char>,
    metric: MetricKey,
    operation: Seq<char>,
    error: FieldErrorModel,
) -> AbsenceModel {
    let (reason, message) = match error {
        FieldErrorModel::Nvml { kind, words } => (
            failure_reason(kind),
            "NVML "@ + operation + " query failed: "@ + words,
        ),
        FieldErrorModel::InvalidValue(words) => (UnavailableReason::ProviderError, words),
    };
    AbsenceModel {
        device_id,
        metric,
        reason,
        source: Some(nvml_name()),
        message: Some(message),
    }
}

fn push_field_error(
    sample: &mut ProviderSample,
    device_id: &String,
    metric: MetricKey,
    operation: &str,
    error: FieldError,
)
    ensures
        final(sample).metrics@ == old(sample).metrics@,
        final(sample).processes == old(sample).processes,
        absences(final(sample).unavailable@) == absences(old(sample).unavailable@).push(
            field_absence(device_id@, metric, operation@, error@),
        ),
{
    let ghost before = absences(sample.unavailable@);
    let (reason, message) = match error {
        FieldError::Nvml(failure) => {
            let mut text = chars_of("NVML ");
            extend_text(&mut text, operation);
            extend_text(&mut text, " query failed: ");
            extend_text(&mut text, failure.words.as_str());
            (unavailable_reason(failure.kind), string_of(&text))
        },
        FieldError::InvalidValue(words) => (UnavailableReason::ProviderError, words),
    };
    let account = UnavailableObservation {
        device_id: device_id.clone(),
        metric,
        reason,
        source: Some(owned("nvml")),
        message: Some(message),
    };
    sample.unavailable.push(account);
    assert(absences(sample.unavailable@) == before.push(account@));
}

/// The value of a field.
pub open spec fn field_value(
    device_id: Seq<char>,
    metric: MetricKey,
    field: FieldModel,
    value: Binary64,
    sampled_at: TimestampMs,
) -> ValueModel {
    ValueModel {
        device_id,
        metric,
        value: MetricValue::Number(value),
        source: nvml_name(),
        quality: MetricQuality::Direct,
        sampled_at,
        interval_ms: field.interval_ms,
        definition: field.definition,
    }
}

/// The error of the lists of processes, where they were asked for and gave none.
pub open spec fn process_error(readings: NvmlReadings) -> Option<FieldErrorModel> {
    match (readings.compute_processes, readings.graphics_processes) {
        (Some(compute), Some(graphics)) => match process_outcome(
            compute,
            graphics,
            readings.unsupported,
        ) {
            ProcessState::Refused(count) => Some(
                FieldErrorModel::InvalidValue(process_count_words(count)),
            ),
            ProcessState::Going { processes, any, last } => if any {
                None
            } else {
                Some(failed(last))
            },
        },
        _ => None,
    }
}

/// The values of the wanted metrics among the first `n`.
pub open spec fn nvml_values(
    readings: NvmlReadings,
    capabilities: Set<MetricKey>,
    request: SampleRequest,
    device_id: Seq<char>,
    sampled_at: TimestampMs,
    n: int,
) -> Seq<ValueModel>
    decreases n,
{
    if n <= 0 {
        Seq::empty()
    } else {
        let before = nvml_values(readings, capabilities, request, device_id, sampled_at, n - 1);
        let key = crate::monitor::metric_at(n - 1);
        match field_of(key, readings) {
            Some(field) if is_wanted(capabilities, request, key) => match field.result {
                Ok(value) => before.push(field_value(device_id, key, field, value, sampled_at)),
                Err(error) => before,
            },
            _ => before,
        }
    }
}

/// The accounts of the wanted metrics among the first `n` that have no value.
pub open spec fn nvml_absences(
    readings: NvmlReadings,
    capabilities: Set<MetricKey>,
    request: SampleRequest,
    device_id: Seq<char>,
    n: int,
) -> Seq<AbsenceModel>
    decreases n,
{
    if n <= 0 {
        Seq::empty()
    } else {
        let before = nvml_absences(readings, capabilities, request, device_id, n - 1);
        let key = crate::monitor::metric_at(n - 1);
        if !is_wanted(capabilities, request, key) {
            before
        } else if key == MetricKey::Processes {
            match process_error(readings) {
                Some(error) => before.push(
                    field_absence(device_id, key, "process accounting"@, error),
                ),
                None => before,
            }
        } else {
            match field_of(key, readings) {
                Some(field) => match field.result {
                    Ok(value) => before,
                    Err(error) => before.push(
                        field_absence(device_id, key, field.operation, error),
                    ),
                },
                None => before,
            }
        }
    }
}

/// A process by its contents.
pub struct ProcessModel {
    pub pid: u32,
    pub name: Option<Seq<char>>,
    pub memory_used_bytes: Option<crate::snapshot::MetricModel>,
}

/// The contents of a process without a utilization.
pub open spec fn is_process(snapshot: GpuProcessSnapshot, model: ProcessModel) -> bool {
    &&& snapshot.pid == model.pid
    &&& crate::merge::text_view(snapshot.name) == model.name
    &&& crate::snapshot::metric_view(snapshot.memory_used_bytes) == model.memory_used_bytes
    &&& snapshot.memory_used_bytes is Some ==> crate::snapshot::flagged(
        snapshot.memory_used_bytes->0,
    )
    &&& snapshot.utilization is None
}

/// What is reported of a process.
pub open spec fn process_model(
    pid: u32,
    bytes: Option<u64>,
    names: Map<u32, String>,
    sampled_at: TimestampMs,
) -> ProcessModel {
    ProcessModel {
        pid,
        name: if names.contains_key(pid) {
            Some(names[pid]@)
        } else {
            None
        },
        memory_used_bytes: match bytes {
            Some(bytes) => Some(
                crate::snapshot::MetricModel::Available {
                    value: whole(bytes as nat),
                    source: nvml_name(),
                    quality: MetricQuality::Direct,
                    sampled_at,
                    interval_ms: None,
                    definition: Some("NVML-reported framebuffer allocation for this process"@),
                },
            ),
            None => None,
        },
    }
}

/// The pids of processes.
pub open spec fn pids(list: Seq<GpuProcessSnapshot>) -> Seq<u32> {
    list.map_values(|process: GpuProcessSnapshot| process.pid)
}

/// The processes of a map, in ascending order of their pids.
pub open spec fn lists_processes(
    list: Seq<GpuProcessSnapshot>,
    processes: Map<u32, Option<u64>>,
    names: Map<u32, String>,
    sampled_at: TimestampMs,
) -> bool {
    &&& lists_keys::<u32>(pids(list), processes.dom())
    &&& forall|i: int|
        0 <= i < list.len() ==> is_process(
            #[trigger] list[i],
            process_model(list[i].pid, processes[list[i].pid], names, sampled_at),
        )
}

fn snapshot_processes(
    processes: &SortedMap<u32, Option<u64>>,
    names: &SortedMap<u32, String>,
    sampled_at: TimestampMs,
) -> (list: Vec<GpuProcessSnapshot>)
    ensures
        lists_processes(list@, processes@, names@, sampled_at),
{
    let mut list: Vec<GpuProcessSnapshot> = Vec::new();
    let n: usize = processes.len();
    let ghost keys = processes.keys();
    let mut i: usize = 0;
    while i < n
        invariant
            i <= n == keys.len(),
            keys == processes.keys(),
            list.len() == i,
            forall|k: int|
                0 <= k < i ==> (#[trigger] list@[k]).pid == keys[k] && is_process(
                    list@[k],
                    process_model(keys[k], processes@[keys[k]], names@, sampled_at),
                ),
        decreases n - i,
    {
        let pid: u32 = *processes.key_at(i);
        let bytes: Option<u64> = *processes.value_at(i);
        let name = match names.get(&pid) {
            Some(name) => Some(name.clone()),
            None => None,
        };
        let memory_used_bytes = match bytes {
            Some(bytes) => Some(
                Metric::available(
                    Binary64::from_u64(bytes),
                    owned("nvml"),
                    MetricQuality::Direct,
                    sampled_at,
                    None,
                    Some(owned("NVML-reported framebuffer allocation for this process")),
                ),
            ),
            None => None,
        };
        list.push(GpuProcessSnapshot { pid, name, memory_used_bytes, utilization: None });
        i = i + 1;
    }
    assert(pids(list@) == keys);
    list
}

/// The processes of a sample, where they were wanted and some list was read.
pub open spec fn reports_processes(
    processes: Option<Vec<GpuProcessSnapshot>>,
    readings: NvmlReadings,
    capabilities: Set<MetricKey>,
    request: SampleRequest,
    sampled_at: TimestampMs,
) -> bool {
    let outcome = match (readings.compute_processes, readings.graphics_processes) {
        (Some(compute), Some(graphics)) => Some(
            process_outcome(compute, graphics, readings.unsupported),
        ),
        _ => None,
    };
    match outcome {
        Some(ProcessState::Going { processes: map, any, last }) if any && is_wanted(
            capabilities,
            request,
            MetricKey::Processes,
        ) => processes is Some && lists_processes(
            processes->0@,
            map,
            readings.process_names@,
            sampled_at,
        ),
        _ => processes is None,
    }
}

/// A sample of a device, from what the queries gave.
pub fn sample_metrics(
    readings: &NvmlReadings,
    device_id: &String,
    request: &SampleRequest,
    capabilities: &CapabilitySet,
    sampled_at: TimestampMs,
) -> (sample: ProviderSample)
    ensures
        values(sample.metrics@) == nvml_values(
            *readings,
            capabilities.metric_set(),
            *request,
            device_id@,
            sampled_at,
            26,
        ),
        absences(sample.unavailable@) == nvml_absences(
            *readings,
            capabilities.metric_set(),
            *request,
            device_id@,
            26,
        ),
        reports_processes(
            sample.processes,
            *readings,
            capabilities.metric_set(),
            *request,
            sampled_at,
        ),
{
    let mut sample = ProviderSample::default();
    let mut place: u8 = 0;
    assert(values(sample.metrics@) == Seq::<ValueModel>::empty());
    assert(absences(sample.unavailable@) == Seq::<AbsenceModel>::empty());
    while place < 25
        invariant
            place <= 25,
            sample.processes is None,
            values(sample.metrics@) == nvml_values(
                *readings,
                capabilities.metric_set(),
                *request,
                device_id@,
                sampled_at,
                place as int,
            ),
            absences(sample.unavailable@) == nvml_absences(
                *readings,
                capabilities.metric_set(),
                *request,
                device_id@,
                place as int,
            ),
        decreases 25 - place,
    {
        let key = MetricKey::at(place);
        assert(crate::monitor::metric_at(place as int) == key) by {
            assert(metric_place(key) == place);
        }
        if wants_metric(capabilities, request, key) {
            if let Some(field) = read_field(key, readings) {
                let ghost held = values(sample.metrics@);
                match field.result {
                    Ok(value) => {
                        let definition = match field.definition {
                            Some(words) => Some(owned(words)),
                            None => None,
                        };
                        let observation = MetricObservation {
                            device_id: device_id.clone(),
                            metric: key,
                            value: MetricValue::Number(value),
                            source: owned("nvml"),
                            quality: MetricQuality::Direct,
                            sampled_at,
                            interval_ms: field.interval_ms,
                            definition,
                        };
                        sample.metrics.push(observation);
                        assert(values(sample.metrics@) == held.push(observation@));
                    },
                    Err(error) => {
                        push_field_error(&mut sample, device_id, key, field.operation, error);
                    },
                }
            }
        }
        place = place + 1;
    }
    assert(crate::monitor::metric_at(25) == MetricKey::Processes) by {
        assert(metric_place(MetricKey::Processes) == 25);
    }
    if wants_metric(capabilities, request, MetricKey::Processes) {
        if let (Some(compute), Some(graphics)) = (
            &readings.compute_processes,
            &readings.graphics_processes,
        ) {
            match collect_processes(compute, graphics, &readings.unsupported) {
                Ok(processes) => {
                    sample.processes =
                    Some(snapshot_processes(&processes, &readings.process_names, sampled_at));
                },
                Err(error) => {
                    push_field_error(
                        &mut sample,
                        device_id,
                        MetricKey::Processes,
                        "process accounting",
                        error,
                    );
                },
            }
        }
    }
    sample
}

/// The accounts of all wanted metrics of a device that cannot be queried at all.
pub open spec fn all_absences(
    capabilities: Set<MetricKey>,
    request: SampleRequest,
    device_id: Seq<char>,
    reason: UnavailableReason,
    message: Seq<char>,
    n: int,
) -> Seq<AbsenceModel>
    decreases n,
{
    if n <= 0 {
        Seq::empty()
    } else {
        let before = all_absences(capabilities, request, device_id, reason, message, n - 1);
        let metric = crate::monitor::metric_at(n - 1);
        if is_wanted(capabilities, request, metric) {
            before.push(
                AbsenceModel {
                    device_id,
                    metric,
                    reason,
                    source: Some(nvml_name()),
                    message: Some(message),
                },
            )
        } else {
            before
        }
    }
}

/// A sample of a device that cannot be queried at all.
pub fn unavailable_for_all(
    device_id: &String,
    request: &SampleRequest,
    capabilities: &CapabilitySet,
    reason: UnavailableReason,
    message: &str,
) -> (sample: ProviderSample)
    ensures
        sample.metrics@.len() == 0,
        sample.processes is None,
        absences(sample.unavailable@) == all_absences(
            capabilities.metric_set(),
            *request,
            device_id@,
            reason,
            message@,
            26,
        ),
{
    let mut sample = ProviderSample::default();
    let mut place: u8 = 0;
    assert(absences(sample.unavailable@) == Seq::<AbsenceModel>::empty());
    while place < 26
        invariant
            place <= 26,
            sample.metrics@.len() == 0,
            sample.processes is None,
            absences(sample.unavailable@) == all_absences(
                capabilities.metric_set(),
                *request,
                device_id@,
                reason,
                message@,
                place as int,
            ),
        decreases 26 - place,
    {
        let key = MetricKey::at(place);
        assert(crate::monitor::metric_at(place as int) == key) by {
            assert(metric_place(key) == place);
        }
        if wants_metric(capabilities, request, key) {
            let ghost held = absences(sample.unavailable@);
            let account = UnavailableObservation {
                device_id: device_id.clone(),
                metric: key,
                reason,
                source: Some(owned("nvml")),
                message: Some(owned(message)),
            };
            sample.unavailable.push(account);
            assert(absences(sample.unavailable@) == held.push(account@));
        }
        place = place + 1;
    }
    sample
}

} // verus!
