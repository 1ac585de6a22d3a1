//! Where a metric is read from, and what a reading gives.
use crate::binary64::{total_max, total_place, Binary64, HUNDRED, INFINITY, MILLION, THOUSAND};
use crate::model::{MetricKey, MetricQuality, MetricValue, UnavailableReason};
use crate::providers::linux::parse::{
    active_clock_texts, active_clocks, any_active, attribute_number, highest_active_clock,
    highest_clock, parse_u64,
};
use crate::text::{chars_of, extend_text, fault_words, lines, owned, string_of};
use vstd::prelude::*;

verus! {

/// How the attributes of a metric are read. Paths are absolute.
#[derive(Debug)]
pub enum MetricReader {
    Percent(String),
    Bytes(String),
    MilliCelsius(String),
    MicroWatts(String),
    MicroJoules(String),
    Rpm(String),
    PwmPercent { input: String, maximum: Option<String> },
    HertzToMhz(String),
    ActiveDpmMhz(String),
    MaximumMhz(Vec<String>),
}

/// A reader by its contents.
pub enum ReaderModel {
    Percent(Seq<char>),
    Bytes(Seq<char>),
    MilliCelsius(Seq<char>),
    MicroWatts(Seq<char>),
    MicroJoules(Seq<char>),
    Rpm(Seq<char>),
    PwmPercent { input: Seq<char>, maximum: Option<Seq<char>> },
    HertzToMhz(Seq<char>),
    ActiveDpmMhz(Seq<char>),
    MaximumMhz(Seq<Seq<char>>),
}

/// The contents of a list of paths.
pub open spec fn path_views(paths: Seq<String>) -> Seq<Seq<char>> {
    paths.map_values(|path: String| path@)
}

impl View for MetricReader {
    type V = ReaderModel;

    open spec fn view(&self) -> ReaderModel {
        match self {
            MetricReader::Percent(path) => ReaderModel::Percent(path@),
            MetricReader::Bytes(path) => ReaderModel::Bytes(path@),
            MetricReader::MilliCelsius(path) => ReaderModel::MilliCelsius(path@),
            MetricReader::MicroWatts(path) => ReaderModel::MicroWatts(path@),
            MetricReader::MicroJoules(path) => ReaderModel::MicroJoules(path@),
            MetricReader::Rpm(path) => ReaderModel::Rpm(path@),
            MetricReader::PwmPercent { input, maximum } => ReaderModel::PwmPercent {
                input: input@,
                maximum: match maximum {
                    Some(path) => Some(path@),
                    None => None,
                },
            },
            MetricReader::HertzToMhz(path) => ReaderModel::HertzToMhz(path@),
            MetricReader::ActiveDpmMhz(path) => ReaderModel::ActiveDpmMhz(path@),
            MetricReader::MaximumMhz(paths) => ReaderModel::MaximumMhz(path_views(paths@)),
        }
    }
}

/// What a number that was read is divided by before it is looked at.
#[derive(Clone, Copy, Debug, PartialEq, Eq, Structural)]
pub enum Unit {
    One,
    Thousand,
    Million,
}

/// The bits of two hundred and fifty-five.
pub const FULL_PWM: u64 = 0x406f_e000_0000_0000;

/// A number that was read, in the unit of its metric.
pub open spec fn scaled(value: Binary64, unit: Unit) -> Binary64 {
    match unit {
        Unit::One => value,
        Unit::Thousand => value.divided_by(Binary64 { bits: THOUSAND }),
        Unit::Million => value.divided_by(Binary64 { bits: MILLION }),
    }
}

/// A number that was read, in the unit of its metric.
pub fn scale(value: Binary64, unit: Unit) -> (result: Binary64)
    requires
        value.finite(),
    ensures
        result == scaled(value, unit),
{
    match unit {
        Unit::One => value,
        Unit::Thousand => value.divide(Binary64::from_bits(THOUSAND)),
        Unit::Million => value.divide(Binary64::from_bits(MILLION)),
    }
}

/// The duty of a fan in percent of the limit.
pub open spec fn duty(input: Binary64, limit: Binary64) -> Binary64 {
    input.divided_by(limit).multiplied_with(Binary64 { bits: HUNDRED })
}

/// The duty of a fan in percent of the limit.
pub fn duty_percent(input: Binary64, limit: Binary64) -> (percent: Binary64)
    requires
        input.finite(),
        0 < limit.bits < INFINITY,
    ensures
        percent == duty(input, limit),
{
    input.divide(limit).multiply(Binary64::from_bits(HUNDRED))
}

impl MetricReader {
    /// The paths that are read, in order.
    pub open spec fn path_list(&self) -> Seq<Seq<char>> {
        match self@ {
            ReaderModel::Percent(path) => seq![path],
            ReaderModel::Bytes(path) => seq![path],
            ReaderModel::MilliCelsius(path) => seq![path],
            ReaderModel::MicroWatts(path) => seq![path],
            ReaderModel::MicroJoules(path) => seq![path],
            ReaderModel::Rpm(path) => seq![path],
            ReaderModel::PwmPercent { input, maximum } => match maximum {
                Some(maximum) => seq![input, maximum],
                None => seq![input],
            },
            ReaderModel::HertzToMhz(path) => seq![path],
            ReaderModel::ActiveDpmMhz(path) => seq![path],
            ReaderModel::MaximumMhz(paths) => paths,
        }
    }

    /// The paths that are read, in order.
    pub fn paths(&self) -> (paths: Vec<String>)
        ensures
            path_views(paths@) == self.path_list(),
    {
        let mut paths: Vec<String> = Vec::new();
        match self {
            MetricReader::Percent(path) => {
                paths.push(path.clone());
            },
            MetricReader::Bytes(path) => {
                paths.push(path.clone());
            },
            MetricReader::MilliCelsius(path) => {
                paths.push(path.clone());
            },
            MetricReader::MicroWatts(path) => {
                paths.push(path.clone());
            },
            MetricReader::MicroJoules(path) => {
                paths.push(path.clone());
            },
            MetricReader::Rpm(path) => {
                paths.push(path.clone());
            },
            MetricReader::HertzToMhz(path) => {
                paths.push(path.clone());
            },
            MetricReader::ActiveDpmMhz(path) => {
                paths.push(path.clone());
            },
            MetricReader::PwmPercent { input, maximum } => {
                paths.push(input.clone());
                if let Some(path) = maximum {
                    paths.push(path.clone());
                }
            },
            MetricReader::MaximumMhz(list) => {
                let mut i: usize = 0;
                while i < list.len()
                    invariant
                        i <= list.len(),
                        path_views(paths@) == path_views(list@).take(i as int),
                    decreases list.len() - i,
                {
                    let ghost held = path_views(paths@);
                    paths.push(list[i].clone());
                    i = i + 1;
                    assert(path_views(paths@) == held.push(path_views(list@)[i - 1]));
                }
                assert(path_views(paths@) == path_views(list@));
            },
        }
        assert(path_views(paths@) == self.path_list());
        paths
    }

    /// The reading was taken of this reader: it has one part for each path, and one clock for each
    /// active state that names one.
    pub open spec fn is_read_by(&self, reading: SourceReading) -> bool {
        &&& reading.parts@.len() == self.path_list().len()
        &&& self@ is ActiveDpmMhz ==> match reading.parts@[0].text {
            Ok(text) => any_active(lines(text@)) ==> reading.clocks@.len() == active_clocks(
                lines(text@),
            ).len(),
            Err(fault) => true,
        }
    }

    /// Whether a reading was taken of this reader.
    pub fn fits(&self, reading: &SourceReading) -> (fits: bool)
        ensures
            fits == self.is_read_by(*reading),
    {
        let paths = self.paths();
        assert(path_views(paths@).len() == paths@.len());
        if reading.parts.len() != paths.len() {
            return false;
        }
        if let MetricReader::ActiveDpmMhz(path) = self {
            if let Ok(text) = &reading.parts[0].text {
                if let Ok(texts) = active_clock_texts(text.as_str()) {
                    assert(texts@.map_values(|t: String| t@).len() == texts@.len());
                    return texts.len() == reading.clocks.len();
                }
            }
        }
        true
    }

    /// What a number that was read is divided by.
    pub fn unit(&self) -> (unit: Unit)
        ensures
            unit == unit_of(self@),
    {
        match self {
            MetricReader::MilliCelsius(path) => Unit::Thousand,
            MetricReader::MicroWatts(path) => Unit::Million,
            MetricReader::MicroJoules(path) => Unit::Million,
            MetricReader::HertzToMhz(path) => Unit::Million,
            _ => Unit::One,
        }
    }
}

/// What a number that was read is divided by.
pub open spec fn unit_of(reader: ReaderModel) -> Unit {
    match reader {
        ReaderModel::MilliCelsius(path) => Unit::Thousand,
        ReaderModel::MicroWatts(path) => Unit::Million,
        ReaderModel::MicroJoules(path) => Unit::Million,
        ReaderModel::HertzToMhz(path) => Unit::Million,
        _ => Unit::One,
    }
}

/// The kinds of failure of a read that are told apart.
#[derive(Clone, Copy, Debug, PartialEq, Eq, Structural)]
pub enum FaultKind {
    PermissionDenied,
    NotFound,
    WouldBlock,
    Interrupted,
    InvalidData,
    Other,
}

/// A read that failed.
#[derive(Debug)]
pub struct ReadFault {
    pub kind: FaultKind,
    pub words: String,
    /// The directory of the device was still there.
    pub device_exists: bool,
}

/// A number as it was read, and how it is written once it is in the unit of its metric.
#[derive(Debug)]
pub struct Measured {
    pub value: Binary64,
    pub text: String,
}

/// What one path gave.
#[derive(Debug)]
pub struct PathReading {
    /// There is something at the path.
    pub present: bool,
    pub text: Result<String, ReadFault>,
    /// The text as a number, or what is wrong with it.
    pub number: Result<Measured, String>,
}

/// What the paths of a source gave.
#[derive(Debug)]
pub struct SourceReading {
    /// One for each path of the reader, in order.
    pub parts: Vec<PathReading>,
    /// How the duty of a fan is written, in percent of its limit.
    pub duty_text: String,
    /// The clocks of the active states in the first part, as numbers where they are some.
    pub clocks: Vec<Option<Binary64>>,
}

/// Why a source gave no value.
#[derive(Debug)]
pub struct MetricReadError {
    pub reason: UnavailableReason,
    pub message: String,
}

/// A read error by its contents.
pub struct ReadErrorModel {
    pub reason: UnavailableReason,
    pub message: Seq<char>,
}

impl View for MetricReadError {
    type V = ReadErrorModel;

    open spec fn view(&self) -> ReadErrorModel {
        ReadErrorModel { reason: self.reason, message: self.message@ }
    }
}

/// What a failed read means for the metric.
pub open spec fn fault_reason(kind: FaultKind, device_exists: bool) -> UnavailableReason {
    match kind {
        FaultKind::PermissionDenied => UnavailableReason::PermissionDenied,
        FaultKind::NotFound => if device_exists {
            UnavailableReason::TemporarilyUnavailable
        } else {
            UnavailableReason::DeviceLost
        },
        FaultKind::WouldBlock => UnavailableReason::TemporarilyUnavailable,
        FaultKind::Interrupted => UnavailableReason::TemporarilyUnavailable,
        FaultKind::InvalidData => UnavailableReason::ProviderError,
        FaultKind::Other => UnavailableReason::ProviderError,
    }
}

/// The error of a failed read.
pub open spec fn fault_error(path: Seq<char>, fault: ReadFault) -> ReadErrorModel {
    ReadErrorModel {
        reason: fault_reason(fault.kind, fault.device_exists),
        message: "could not read "@ + path + ": "@ + fault.words@,
    }
}

/// The error of a value that makes no sense.
pub open spec fn value_error(path: Seq<char>, message: Seq<char>) -> ReadErrorModel {
    ReadErrorModel { reason: UnavailableReason::ProviderError, message: path + ": "@ + message }
}

impl MetricReadError {
    pub fn from_io(path: &str, fault: &ReadFault) -> (error: Self)
        ensures
            error@ == fault_error(path@, *fault),
    {
        let reason = match fault.kind {
            FaultKind::PermissionDenied => UnavailableReason::PermissionDenied,
            FaultKind::NotFound => if fault.device_exists {
                UnavailableReason::TemporarilyUnavailable
            } else {
                UnavailableReason::DeviceLost
            },
            FaultKind::WouldBlock => UnavailableReason::TemporarilyUnavailable,
            FaultKind::Interrupted => UnavailableReason::TemporarilyUnavailable,
            FaultKind::InvalidData => UnavailableReason::ProviderError,
            FaultKind::Other => UnavailableReason::ProviderError,
        };
        let mut message = chars_of("could not read ");
        extend_text(&mut message, path);
        extend_text(&mut message, ": ");
        extend_text(&mut message, fault.words.as_str());
        MetricReadError { reason, message: string_of(&message) }
    }

    pub fn provider(path: &str, words: &str) -> (error: Self)
        ensures
            error@ == value_error(path@, words@),
    {
        let mut message = chars_of(path);
        extend_text(&mut message, ": ");
        extend_text(&mut message, words);
        MetricReadError { reason: UnavailableReason::ProviderError, message: string_of(&message) }
    }

    fn about(path: &str, before: &str, text: &str, after: &str) -> (error: Self)
        ensures
            error@ == value_error(path@, before@ + text@ + after@),
    {
        let mut words = chars_of(before);
        extend_text(&mut words, text);
        extend_text(&mut words, after);
        let words = string_of(&words);
        MetricReadError::provider(path, words.as_str())
    }
}

impl Clone for MetricReadError {
    fn clone(&self) -> (copy: Self)
        ensures
            copy == *self,
    {
        MetricReadError { reason: self.reason, message: self.message.clone() }
    }
}

/// How much a reason counts among the errors of several paths.
pub open spec fn error_rank(reason: UnavailableReason) -> int {
    crate::merge::reason_weight(reason)
}

/// The error that counts most, the last one where several count the same.
pub open spec fn worst_error(errors: Seq<ReadErrorModel>) -> Option<ReadErrorModel>
    decreases errors.len(),
{
    if errors.len() == 0 {
        None
    } else {
        match worst_error(errors.drop_last()) {
            None => Some(errors.last()),
            Some(worst) => if error_rank(errors.last().reason) >= error_rank(worst.reason) {
                Some(errors.last())
            } else {
                Some(worst)
            },
        }
    }
}

/// The contents of a list of errors.
pub open spec fn error_views(errors: Seq<MetricReadError>) -> Seq<ReadErrorModel> {
    errors.map_values(|error: MetricReadError| error@)
}

pub fn select_error(errors: &Vec<MetricReadError>) -> (error: Option<MetricReadError>)
    ensures
        match error {
            Some(error) => worst_error(error_views(errors@)) == Some(error@),
            None => worst_error(error_views(errors@)) is None,
        },
{
    let ghost all = error_views(errors@);
    let mut worst: Option<usize> = None;
    let mut i: usize = 0;
    assert(all.take(0) == Seq::<ReadErrorModel>::empty());
    while i < errors.len()
        invariant
            i <= errors.len(),
            all == error_views(errors@),
            match worst {
                Some(k) => k < i && worst_error(all.take(i as int)) == Some(errors@[k as int]@),
                None => worst_error(all.take(i as int)) is None,
            },
        decreases errors.len() - i,
    {
        assert(all.take(i + 1).drop_last() == all.take(i as int));
        assert(all.take(i + 1).last() == errors@[i as int]@);
        let replace = match worst {
            None => true,
            Some(k) => crate::merge::unavailable_score(errors[i].reason)
                >= crate::merge::unavailable_score(errors[k].reason),
        };
        if replace {
            worst = Some(i);
        }
        i = i + 1;
    }
    assert(all.take(i as int) == all);
    match worst {
        None => None,
        Some(k) => Some(errors[k].clone()),
    }
}

/// A finite number that a path gave in the unit of its metric, and how it is written.
pub struct Reading {
    pub value: Binary64,
    pub text: Seq<char>,
}

/// The finite number that a path gave, or the error that stands for it.
pub open spec fn number_of(path: Seq<char>, part: PathReading, unit: Unit) -> Result<
    Reading,
    ReadErrorModel,
> {
    match part.text {
        Err(fault) => Err(fault_error(path, fault)),
        Ok(text) => match part.number {
            Err(words) => Err(value_error(path, words@)),
            Ok(measured) => if measured.value.finite() {
                Ok(Reading { value: scaled(measured.value, unit), text: measured.text@ })
            } else {
                Err(value_error(path, "value was not finite"@))
            },
        },
    }
}

fn read_number_of<'a>(path: &str, part: &'a PathReading, unit: Unit) -> (result: Result<
    (Binary64, &'a str),
    MetricReadError,
>)
    ensures
        match result {
            Ok((value, text)) => number_of(path@, *part, unit) == Ok::<Reading, ReadErrorModel>(
                Reading { value, text: text@ },
            ) && (unit == Unit::One ==> value.finite()),
            Err(error) => number_of(path@, *part, unit) == Err::<Reading, ReadErrorModel>(error@),
        },
{
    match &part.text {
        Err(fault) => Err(MetricReadError::from_io(path, fault)),
        Ok(text) => match &part.number {
            Err(words) => Err(MetricReadError::provider(path, words.as_str())),
            Ok(measured) => if measured.value.is_finite() {
                Ok((scale(measured.value, unit), measured.text.as_str()))
            } else {
                Err(MetricReadError::provider(path, "value was not finite"))
            },
        },
    }
}

/// The number is at least zero.
pub open spec fn at_least_zero(path: Seq<char>, number: Result<Reading, ReadErrorModel>) -> Result<
    MetricValue,
    ReadErrorModel,
> {
    match number {
        Err(error) => Err(error),
        Ok(reading) => if reading.value.order() >= 0 {
            Ok(MetricValue::Number(reading.value))
        } else {
            Err(value_error(path, "value "@ + reading.text + " was negative"@))
        },
    }
}

fn read_at_least_zero(path: &str, part: &PathReading, unit: Unit) -> (result: Result<
    MetricValue,
    MetricReadError,
>)
    ensures
        same_outcome(result, at_least_zero(path@, number_of(path@, *part, unit))),
{
    match read_number_of(path, part, unit) {
        Err(error) => Err(error),
        Ok((value, text)) => if value.get_order() >= 0 {
            Ok(MetricValue::Number(value))
        } else {
            Err(MetricReadError::about(path, "value ", text, " was negative"))
        },
    }
}

/// The bits of two hundred and fifty.
pub const TWO_HUNDRED_FIFTY: u64 = 0x406f_4000_0000_0000;

/// The clocks that the paths gave, without those that gave none or a negative one.
pub open spec fn clock_values(paths: Seq<Seq<char>>, parts: Seq<PathReading>, n: int) -> Option<
    Binary64,
>
    decreases n,
{
    if n <= 0 {
        None
    } else {
        let before = clock_values(paths, parts, n - 1);
        match number_of(paths[n - 1], parts[n - 1], Unit::One) {
            Ok(measured) => if measured.value.order() >= 0 {
                match before {
                    Some(best) => if total_place(best) > total_place(measured.value) {
                        before
                    } else {
                        Some(measured.value)
                    },
                    None => Some(measured.value),
                }
            } else {
                before
            },
            Err(error) => before,
        }
    }
}

/// The errors of the paths that gave no clock, or a negative one.
pub open spec fn clock_errors(paths: Seq<Seq<char>>, parts: Seq<PathReading>, n: int) -> Seq<
    ReadErrorModel,
>
    decreases n,
{
    if n <= 0 {
        Seq::empty()
    } else {
        let before = clock_errors(paths, parts, n - 1);
        match number_of(paths[n - 1], parts[n - 1], Unit::One) {
            Ok(measured) => if measured.value.order() >= 0 {
                before
            } else {
                before.push(
                    value_error(
                        paths[n - 1],
                        "clock "@ + measured.text + " MHz was negative"@,
                    ),
                )
            },
            Err(error) => before.push(error),
        }
    }
}

/// What a reading of a source means.
pub open spec fn outcome(reader: ReaderModel, reading: SourceReading, device: Seq<char>) -> Result<
    MetricValue,
    ReadErrorModel,
> {
    let part = reading.parts@[0];
    match reader {
        ReaderModel::Percent(path) => match number_of(path, part, unit_of(reader)) {
            Err(error) => Err(error),
            Ok(measured) => if measured.value.percent() {
                Ok(MetricValue::Number(measured.value))
            } else {
                Err(
                    value_error(
                        path,
                        "percentage "@ + measured.text + " was outside 0..=100"@,
                    ),
                )
            },
        },
        ReaderModel::Bytes(path) => match part.text {
            Err(fault) => Err(fault_error(path, fault)),
            Ok(text) => match attribute_number(text@) {
                Ok(n) => Ok(MetricValue::Integer(n as u64)),
                Err(fault) => Err(value_error(path, fault_words(fault))),
            },
        },
        ReaderModel::MilliCelsius(path) => match number_of(path, part, unit_of(reader)) {
            Err(error) => Err(error),
            Ok(measured) => if -HUNDRED <= measured.value.order() <= TWO_HUNDRED_FIFTY {
                Ok(MetricValue::Number(measured.value))
            } else {
                Err(
                    value_error(
                        path,
                        "temperature "@ + measured.text + " C was implausible"@,
                    ),
                )
            },
        },
        ReaderModel::MicroWatts(path) => at_least_zero(path, number_of(path, part, unit_of(reader))),
        ReaderModel::MicroJoules(path) => at_least_zero(path, number_of(path, part, unit_of(reader))),
        ReaderModel::Rpm(path) => at_least_zero(path, number_of(path, part, unit_of(reader))),
        ReaderModel::HertzToMhz(path) => at_least_zero(path, number_of(path, part, unit_of(reader))),
        ReaderModel::PwmPercent { input, maximum } => match number_of(input, part, Unit::One) {
            Err(error) => Err(error),
            Ok(measured) => {
                let limit = if maximum is Some && reading.parts@[1].present {
                    Some(number_of(maximum->0, reading.parts@[1], Unit::One))
                } else {
                    None
                };
                match limit {
                    Some(Err(error)) => Err(error),
                    Some(Ok(limit)) if limit.value.order() <= 0 => Err(
                        value_error(maximum->0, "PWM maximum was not positive"@),
                    ),
                    _ => {
                        let percent = duty(
                            measured.value,
                            match limit {
                                Some(Ok(limit)) => limit.value,
                                _ => Binary64 { bits: FULL_PWM },
                            },
                        );
                        if percent.percent() {
                            Ok(MetricValue::Number(percent))
                        } else {
                            Err(
                                value_error(
                                    input,
                                    "PWM percentage "@ + reading.duty_text@
                                        + " was outside 0..=100"@,
                                ),
                            )
                        }
                    },
                }
            },
        },
        ReaderModel::ActiveDpmMhz(path) => match part.text {
            Err(fault) => Err(fault_error(path, fault)),
            Ok(text) => if !any_active(lines(text@)) {
                Err(value_error(path, "no active DPM state was marked"@))
            } else {
                match highest_clock(reading.clocks@) {
                    Some(value) => Ok(MetricValue::Number(value)),
                    None => Err(
                        value_error(path, "active DPM state did not contain an MHz value"@),
                    ),
                }
            },
        },
        ReaderModel::MaximumMhz(paths) => match clock_values(
            paths,
            reading.parts@,
            paths.len() as int,
        ) {
            Some(value) => Ok(MetricValue::Number(value)),
            None => match worst_error(
                clock_errors(paths, reading.parts@, paths.len() as int),
            ) {
                Some(error) => Err(error),
                None => Err(value_error(device, "no clock paths were present"@)),
            },
        },
    }
}

/// A result with its error by its contents.
pub open spec fn same_outcome(
    result: Result<MetricValue, MetricReadError>,
    model: Result<MetricValue, ReadErrorModel>,
) -> bool {
    match (result, model) {
        (Ok(a), Ok(b)) => a == b,
        (Err(a), Err(b)) => a@ == b,
        _ => false,
    }
}

/// A way to read a metric of a device.
#[derive(Debug)]
pub struct MetricSource {
    pub key: MetricKey,
    pub reader: MetricReader,
    pub quality: MetricQuality,
    pub definition: String,
    pub priority: i16,
}

/// A source by its contents.
pub struct SourceModel {
    pub key: MetricKey,
    pub reader: ReaderModel,
    pub quality: MetricQuality,
    pub definition: Seq<char>,
    pub priority: i16,
}

impl View for MetricSource {
    type V = SourceModel;

    open spec fn view(&self) -> SourceModel {
        SourceModel {
            key: self.key,
            reader: self.reader@,
            quality: self.quality,
            definition: self.definition@,
            priority: self.priority,
        }
    }
}

/// The contents of a list of sources.
pub open spec fn source_views(sources: Seq<MetricSource>) -> Seq<SourceModel> {
    sources.map_values(|source: MetricSource| source@)
}

fn read_maximum(paths: &Vec<String>, parts: &Vec<PathReading>, device: &str) -> (result: Result<
    MetricValue,
    MetricReadError,
>)
    requires
        parts@.len() == paths@.len(),
    ensures
        same_outcome(
            result,
            match clock_values(path_views(paths@), parts@, paths@.len() as int) {
                Some(value) => Ok(MetricValue::Number(value)),
                None => match worst_error(
                    clock_errors(path_views(paths@), parts@, paths@.len() as int),
                ) {
                    Some(error) => Err(error),
                    None => Err(value_error(device@, "no clock paths were present"@)),
                },
            },
        ),
{
    let ghost views = path_views(paths@);
    let mut best: Option<Binary64> = None;
    let mut errors: Vec<MetricReadError> = Vec::new();
    let mut i: usize = 0;
    assert(error_views(errors@) == Seq::<ReadErrorModel>::empty());
    while i < paths.len()
        invariant
            i <= paths.len(),
            parts@.len() == paths@.len(),
            views == path_views(paths@),
            best == clock_values(views, parts@, i as int),
            error_views(errors@) == clock_errors(views, parts@, i as int),
        decreases paths.len() - i,
    {
        let ghost held = error_views(errors@);
        assert(views[i as int] == paths@[i as int]@);
        match read_number_of(paths[i].as_str(), &parts[i], Unit::One) {
            Ok((value, text)) => {
                if value.get_order() >= 0 {
                    best =
                    match best {
                        Some(earlier) => Some(total_max(earlier, value)),
                        None => Some(value),
                    };
                } else {
                    let error = MetricReadError::about(
                        paths[i].as_str(),
                        "clock ",
                        text,
                        " MHz was negative",
                    );
                    errors.push(error);
                    assert(error_views(errors@) == held.push(error@));
                }
            },
            Err(error) => {
                errors.push(error);
                assert(error_views(errors@) == held.push(error@));
            },
        }
        i = i + 1;
    }
    match best {
        Some(value) => Ok(MetricValue::Number(value)),
        None => match select_error(&errors) {
            Some(error) => Err(error),
            None => Err(MetricReadError::provider(device, "no clock paths were present")),
        },
    }
}

impl MetricSource {
    pub fn new(
        key: MetricKey,
        reader: MetricReader,
        quality: MetricQuality,
        definition: &str,
        priority: i16,
    ) -> (source: Self)
        ensures
            source.key == key,
            source.reader == reader,
            source.quality == quality,
            source.definition@ == definition@,
            source.priority == priority,
    {
        MetricSource { key, reader, quality, definition: owned(definition), priority }
    }

    /// Some path of the source is there and can be read.
    pub fn is_present(&self, parts: &Vec<PathReading>) -> (found: bool)
        ensures
            found == exists|i: int|
                0 <= i < parts@.len() && (#[trigger] parts@[i]).present && parts@[i].text is Ok,
    {
        let mut i: usize = 0;
        while i < parts.len()
            invariant
                i <= parts.len(),
                forall|k: int|
                    0 <= k < i ==> !((#[trigger] parts@[k]).present && parts@[k].text is Ok),
            decreases parts.len() - i,
        {
            if parts[i].present && parts[i].text.is_ok() {
                assert(parts@[i as int].present && parts@[i as int].text is Ok);
                return true;
            }
            i = i + 1;
        }
        false
    }

    /// The source gives a value.
    pub fn probe(&self, reading: &SourceReading, device: &str) -> (works: bool)
        requires
            self.reader.is_read_by(*reading),
        ensures
            works == (outcome(self.reader@, *reading, device@) is Ok),
    {
        self.read(reading, device).is_ok()
    }

    /// The value that a reading of the source gives.
    pub fn read(&self, reading: &SourceReading, device: &str) -> (result: Result<
        MetricValue,
        MetricReadError,
    >)
        requires
            self.reader.is_read_by(*reading),
        ensures
            same_outcome(result, outcome(self.reader@, *reading, device@)),
    {
        match &self.reader {
            MetricReader::Percent(path) => match read_number_of(
                path.as_str(),
                &reading.parts[0],
                Unit::One,
            ) {
                Err(error) => Err(error),
                Ok((value, text)) => if value.is_percent() {
                    Ok(MetricValue::Number(value))
                } else {
                    Err(
                        MetricReadError::about(
                            path.as_str(),
                            "percentage ",
                            text,
                            " was outside 0..=100",
                        ),
                    )
                },
            },
            MetricReader::Bytes(path) => match &reading.parts[0].text {
                Err(fault) => Err(MetricReadError::from_io(path.as_str(), fault)),
                Ok(text) => match parse_u64(text.as_str()) {
                    Ok(n) => Ok(MetricValue::Integer(n)),
                    Err(words) => Err(MetricReadError::provider(path.as_str(), words.as_str())),
                },
            },
            MetricReader::MilliCelsius(path) => match read_number_of(
                path.as_str(),
                &reading.parts[0],
                Unit::Thousand,
            ) {
                Err(error) => Err(error),
                Ok((value, text)) => {
                    let order: i64 = value.get_order();
                    if -(HUNDRED as i64) <= order && order <= TWO_HUNDRED_FIFTY as i64 {
                        Ok(MetricValue::Number(value))
                    } else {
                        Err(
                            MetricReadError::about(
                                path.as_str(),
                                "temperature ",
                                text,
                                " C was implausible",
                            ),
                        )
                    }
                },
            },
            MetricReader::MicroWatts(path) => read_at_least_zero(
                path.as_str(),
                &reading.parts[0],
                Unit::Million,
            ),
            MetricReader::MicroJoules(path) => read_at_least_zero(
                path.as_str(),
                &reading.parts[0],
                Unit::Million,
            ),
            MetricReader::Rpm(path) => read_at_least_zero(
                path.as_str(),
                &reading.parts[0],
                Unit::One,
            ),
            MetricReader::HertzToMhz(path) => read_at_least_zero(
                path.as_str(),
                &reading.parts[0],
                Unit::Million,
            ),
            MetricReader::PwmPercent { input, maximum } => {
                let value = match read_number_of(input.as_str(), &reading.parts[0], Unit::One) {
                    Err(error) => return Err(error),
                    Ok((value, text)) => value,
                };
                let mut limit = Binary64::from_bits(FULL_PWM);
                if let Some(path) = maximum {
                    if reading.parts[1].present {
                        match read_number_of(path.as_str(), &reading.parts[1], Unit::One) {
                            Err(error) => return Err(error),
                            Ok((most, text)) => {
                                if most.get_order() <= 0 {
                                    return Err(
                                        MetricReadError::provider(
                                            path.as_str(),
                                            "PWM maximum was not positive",
                                        ),
                                    );
                                }
                                limit = most;
                            },
                        }
                    }
                }
                let percent = duty_percent(value, limit);
                if percent.is_percent() {
                    Ok(MetricValue::Number(percent))
                } else {
                    Err(
                        MetricReadError::about(
                            input.as_str(),
                            "PWM percentage ",
                            reading.duty_text.as_str(),
                            " was outside 0..=100",
                        ),
                    )
                }
            },
            MetricReader::ActiveDpmMhz(path) => match &reading.parts[0].text {
                Err(fault) => Err(MetricReadError::from_io(path.as_str(), fault)),
                Ok(text) => match active_clock_texts(text.as_str()) {
                    Err(words) => Err(MetricReadError::provider(path.as_str(), words.as_str())),
                    Ok(texts) => match highest_active_clock(&reading.clocks) {
                        Ok(value) => Ok(MetricValue::Number(value)),
                        Err(words) => Err(
                            MetricReadError::provider(path.as_str(), words.as_str()),
                        ),
                    },
                },
            },
            MetricReader::MaximumMhz(paths) => {
                assert(path_views(paths@).len() == paths@.len());
                read_maximum(paths, &reading.parts, device)
            },
        }
    }
}

} // verus!
