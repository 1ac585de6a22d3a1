//! The sensors of a device under hwmon.
use crate::model::{GpuVendor, MetricKey, MetricQuality};
use crate::ordered::{arranged, indices, models, stable_order, stable_order_of, Ordered, Relation};
use crate::providers::linux::metric::{
    source_views, MetricReader, MetricSource, ReaderModel, SourceModel,
};
use crate::providers::linux::parse::{attribute_index, numbered_attribute};
use crate::sorted_map::SortedMap;
use crate::text::{
    chars_of, contains, decimal, decimal_text, extend_text, has, lower_char, relate_text, same_text,
    string_of, text_less, to_lower_char, trim, trimmed, CharClass,
};
use vstd::prelude::*;

verus! {

/// An entry of a directory.
#[derive(Debug)]
pub struct SysEntry {
    pub name: String,
    /// The entry is a file or a symbolic link.
    pub is_file: bool,
    /// What the entry stands for is there.
    pub present: bool,
}

/// A directory of sensors.
pub struct HwmonDirectory {
    /// The absolute path.
    pub path: String,
    /// The name of the chip, empty where it has none.
    pub chip: String,
    pub entries: Vec<SysEntry>,
    /// The texts of the labels that could be read, by the names of their files.
    pub labels: SortedMap<String, String>,
}

/// A label in its normal form: trimmed, in ASCII lower case, with blanks for dashes.
pub open spec fn plain_label(label: Seq<char>) -> Seq<char> {
    trim(CharClass::White, label).map_values(|c: char| plain_label_char(c))
}

pub open spec fn plain_label_char(c: char) -> char {
    if c == '_' || c == '-' {
        ' '
    } else {
        lower_char(c)
    }
}

fn normalize_label(value: &str) -> (result: Vec<char>)
    ensures
        result@ == plain_label(value@),
{
    let chars = chars_of(value);
    let inner = trimmed(CharClass::White, &chars);
    let mut result: Vec<char> = Vec::new();
    let mut i: usize = 0;
    while i < inner.len()
        invariant
            i <= inner.len(),
            result.len() == i,
            forall|k: int| 0 <= k < i ==> #[trigger] result@[k] == plain_label_char(inner@[k]),
        decreases inner.len() - i,
    {
        let c: char = inner[i];
        result.push(
            if c == '_' || c == '-' {
                ' '
            } else {
                to_lower_char(c)
            },
        );
        i = i + 1;
    }
    assert(result@ == plain_label(value@));
    result
}

/// What a temperature sensor measures.
pub struct TemperatureMeaning {
    pub key: MetricKey,
    pub quality: MetricQuality,
    pub words: Seq<char>,
}

/// What the label of a temperature sensor says it measures.
pub open spec fn labelled_temperature(label: Seq<char>) -> Option<TemperatureMeaning> {
    let plain = plain_label(label);
    if contains(plain, "junction"@) || contains(plain, "hotspot"@) || contains(plain, "hot spot"@) {
        Some(
            TemperatureMeaning {
                key: MetricKey::TemperatureHotspotCelsius,
                quality: MetricQuality::Direct,
                words: "hotspot"@,
            },
        )
    } else if contains(plain, "memory"@) || contains(plain, "mem"@) || contains(plain, "vram"@)
        || contains(plain, "hbm"@) {
        Some(
            TemperatureMeaning {
                key: MetricKey::TemperatureMemoryCelsius,
                quality: MetricQuality::Direct,
                words: "memory"@,
            },
        )
    } else if contains(plain, "edge"@) {
        Some(
            TemperatureMeaning {
                key: MetricKey::TemperatureEdgeCelsius,
                quality: MetricQuality::Direct,
                words: "edge"@,
            },
        )
    } else if contains(plain, "gpu"@) || contains(plain, "core"@) || contains(plain, "package"@)
        || contains(plain, "soc"@) || contains(plain, "graphics"@) {
        Some(
            TemperatureMeaning {
                key: MetricKey::TemperatureCoreCelsius,
                quality: MetricQuality::Direct,
                words: "core"@,
            },
        )
    } else {
        None
    }
}

/// What a temperature sensor without a label measures: what AMD documents for its numbers, and
/// for other vendors the first sensor by guess.
pub open spec fn unlabelled_temperature(vendor: GpuVendor, index: nat) -> Option<
    TemperatureMeaning,
> {
    if vendor == GpuVendor::Amd {
        if index == 1 {
            Some(
                TemperatureMeaning {
                    key: MetricKey::TemperatureEdgeCelsius,
                    quality: MetricQuality::Direct,
                    words: "documented AMD edge sensor"@,
                },
            )
        } else if index == 2 {
            Some(
                TemperatureMeaning {
                    key: MetricKey::TemperatureHotspotCelsius,
                    quality: MetricQuality::Direct,
                    words: "documented AMD junction sensor"@,
                },
            )
        } else if index == 3 {
            Some(
                TemperatureMeaning {
                    key: MetricKey::TemperatureMemoryCelsius,
                    quality: MetricQuality::Direct,
                    words: "documented AMD memory sensor"@,
                },
            )
        } else {
            None
        }
    } else if index == 1 {
        Some(
            TemperatureMeaning {
                key: MetricKey::TemperatureCoreCelsius,
                quality: MetricQuality::Estimated,
                words: "unlabelled primary GPU sensor"@,
            },
        )
    } else {
        None
    }
}

/// What a temperature sensor measures; a label counts before the number.
pub open spec fn temperature_meaning(vendor: GpuVendor, index: nat, label: Option<Seq<char>>) -> Option<
    TemperatureMeaning,
> {
    match label {
        Some(label) => labelled_temperature(label),
        None => unlabelled_temperature(vendor, index),
    }
}

/// The result of a test of a temperature sensor by its contents.
pub open spec fn meaning_view(
    meaning: Option<(MetricKey, MetricQuality, &'static str)>,
) -> Option<TemperatureMeaning> {
    match meaning {
        Some((key, quality, words)) => Some(TemperatureMeaning { key, quality, words: words@ }),
        None => None,
    }
}

pub fn temperature_semantic(vendor: GpuVendor, index: u32, label: Option<&str>) -> (meaning: Option<
    (MetricKey, MetricQuality, &'static str),
>)
    ensures
        meaning_view(meaning) == temperature_meaning(
            vendor,
            index as nat,
            match label {
                Some(label) => Some(label@),
                None => None,
            },
        ),
{
    if let Some(label) = label {
        let plain = normalize_label(label);
        if has(&plain, "junction") || has(&plain, "hotspot") || has(&plain, "hot spot") {
            return Some((MetricKey::TemperatureHotspotCelsius, MetricQuality::Direct, "hotspot"));
        }
        if has(&plain, "memory") || has(&plain, "mem") || has(&plain, "vram") || has(
            &plain,
            "hbm",
        ) {
            return Some((MetricKey::TemperatureMemoryCelsius, MetricQuality::Direct, "memory"));
        }
        if has(&plain, "edge") {
            return Some((MetricKey::TemperatureEdgeCelsius, MetricQuality::Direct, "edge"));
        }
        if has(&plain, "gpu") || has(&plain, "core") || has(&plain, "package") || has(
            &plain,
            "soc",
        ) || has(&plain, "graphics") {
            return Some((MetricKey::TemperatureCoreCelsius, MetricQuality::Direct, "core"));
        }
        return None;
    }
    if vendor == GpuVendor::Amd {
        return match index {
            1 => Some(
                (
                    MetricKey::TemperatureEdgeCelsius,
                    MetricQuality::Direct,
                    "documented AMD edge sensor",
                ),
            ),
            2 => Some(
                (
                    MetricKey::TemperatureHotspotCelsius,
                    MetricQuality::Direct,
                    "documented AMD junction sensor",
                ),
            ),
            3 => Some(
                (
                    MetricKey::TemperatureMemoryCelsius,
                    MetricQuality::Direct,
                    "documented AMD memory sensor",
                ),
            ),
            _ => None,
        };
    }
    if index == 1 {
        Some(
            (
                MetricKey::TemperatureCoreCelsius,
                MetricQuality::Estimated,
                "unlabelled primary GPU sensor",
            ),
        )
    } else {
        None
    }
}

/// The kinds of sensors, in the order in which they are looked for.
#[derive(Clone, Copy, Debug, PartialEq, Eq, Structural)]
pub enum SensorKind {
    Temperature,
    PowerAverage,
    PowerInput,
    PowerCap,
    Energy,
    FanSpeed,
    Pwm,
    Frequency,
}

impl SensorKind {
    /// What the names of the attributes begin with.
    pub open spec fn prefix(self) -> Seq<char> {
        match self {
            SensorKind::Temperature => "temp"@,
            SensorKind::PowerAverage => "power"@,
            SensorKind::PowerInput => "power"@,
            SensorKind::PowerCap => "power"@,
            SensorKind::Energy => "energy"@,
            SensorKind::FanSpeed => "fan"@,
            SensorKind::Pwm => "pwm"@,
            SensorKind::Frequency => "freq"@,
        }
    }

    /// What the names of the attributes end with.
    pub open spec fn suffix(self) -> Seq<char> {
        match self {
            SensorKind::PowerAverage => "_average"@,
            SensorKind::PowerCap => "_cap"@,
            SensorKind::Pwm => ""@,
            _ => "_input"@,
        }
    }

    fn prefix_text(self) -> (text: &'static str)
        ensures
            text@ == self.prefix(),
    {
        match self {
            SensorKind::Temperature => "temp",
            SensorKind::PowerAverage => "power",
            SensorKind::PowerInput => "power",
            SensorKind::PowerCap => "power",
            SensorKind::Energy => "energy",
            SensorKind::FanSpeed => "fan",
            SensorKind::Pwm => "pwm",
            SensorKind::Frequency => "freq",
        }
    }

    fn suffix_text(self) -> (text: &'static str)
        ensures
            text@ == self.suffix(),
    {
        match self {
            SensorKind::PowerAverage => "_average",
            SensorKind::PowerCap => "_cap",
            SensorKind::Pwm => "",
            _ => "_input",
        }
    }
}

/// The kinds of sensors, in the order in which they are looked for.
pub open spec fn sensor_kinds() -> Seq<SensorKind> {
    seq![
        SensorKind::Temperature,
        SensorKind::PowerAverage,
        SensorKind::PowerInput,
        SensorKind::PowerCap,
        SensorKind::Energy,
        SensorKind::FanSpeed,
        SensorKind::Pwm,
        SensorKind::Frequency,
    ]
}

/// A numbered attribute.
pub struct NumberedFile {
    pub index: u32,
    pub name: String,
}

/// A numbered attribute by its contents.
pub struct NumberedModel {
    pub index: u32,
    pub name: Seq<char>,
}

impl Ordered for NumberedFile {
    type Model = NumberedModel;

    open spec fn model(&self) -> NumberedModel {
        NumberedModel { index: self.index, name: self.name@ }
    }

    open spec fn less(a: NumberedModel, b: NumberedModel) -> bool {
        if a.index != b.index {
            a.index < b.index
        } else {
            text_less(a.name, b.name)
        }
    }

    proof fn less_irreflexive(a: NumberedModel) {
        String::less_irreflexive(a.name);
    }

    proof fn less_transitive(a: NumberedModel, b: NumberedModel, c: NumberedModel) {
        if a.index == b.index && b.index == c.index {
            String::less_transitive(a.name, b.name, c.name);
        }
    }

    proof fn less_total(a: NumberedModel, b: NumberedModel) {
        String::less_total(a.name, b.name);
    }

    fn relation(&self, other: &Self) -> (relation: Relation) {
        if self.index < other.index {
            Relation::Before
        } else if self.index > other.index {
            Relation::After
        } else {
            relate_text(self.name.as_str(), other.name.as_str())
        }
    }
}

/// The files of a directory with a prefix, a number and a suffix, in the order of the directory.
pub open spec fn numbered_entries(
    entries: Seq<SysEntry>,
    prefix: Seq<char>,
    suffix: Seq<char>,
) -> Seq<NumberedModel>
    decreases entries.len(),
{
    if entries.len() == 0 {
        Seq::empty()
    } else {
        let before = numbered_entries(entries.drop_last(), prefix, suffix);
        match attribute_index(entries.last().name@, prefix, suffix) {
            Some(index) => if entries.last().is_file {
                before.push(
                    NumberedModel { index: index as u32, name: entries.last().name@ },
                )
            } else {
                before
            },
            None => before,
        }
    }
}

/// The numbered files of a kind of sensors, in ascending order of their numbers.
pub open spec fn sensor_files(directory: HwmonDirectory, kind: SensorKind) -> Seq<NumberedModel> {
    let all = numbered_entries(directory.entries@, kind.prefix(), kind.suffix());
    arranged(all, stable_order_of::<NumberedFile>(all))
}

fn numbered_files(directory: &HwmonDirectory, kind: SensorKind) -> (files: Vec<NumberedFile>)
    ensures
        models(files@) == sensor_files(*directory, kind),
{
    let mut files: Vec<NumberedFile> = Vec::new();
    let entries = &directory.entries;
    let mut i: usize = 0;
    assert(models(files@) == Seq::<NumberedModel>::empty());
    while i < entries.len()
        invariant
            i <= entries.len(),
            entries@ == directory.entries@,
            models(files@) == numbered_entries(
                entries@.take(i as int),
                kind.prefix(),
                kind.suffix(),
            ),
        decreases entries.len() - i,
    {
        assert(entries@.take(i + 1).drop_last() == entries@.take(i as int));
        let ghost held = models(files@);
        if let Some(index) = numbered_attribute(
            entries[i].name.as_str(),
            kind.prefix_text(),
            kind.suffix_text(),
        ) {
            if entries[i].is_file {
                let file = NumberedFile { index, name: entries[i].name.clone() };
                files.push(file);
                assert(models(files@) == held.push(file.model()));
            }
        }
        i = i + 1;
    }
    assert(entries@.take(i as int) == entries@);
    let ghost all = models(files@);
    let order = stable_order(&files);
    let sorted = crate::ordered::arrange(files, &order);
    proof {
        let expected = sensor_files(*directory, kind);
        crate::ordered::lemma_stable_order_exists::<NumberedFile>(all);
        assert forall|k: int| 0 <= k < sorted@.len() implies models(sorted@)[k] == expected[k] by {
            assert(0 <= indices(order@)[k] < all.len());
        }
        assert(models(sorted@) == expected);
    }
    sorted
}

/// The name of the label of a sensor.
pub open spec fn label_name(kind: SensorKind, index: u32) -> Seq<char> {
    kind.prefix() + decimal(index as nat) + "_label"@
}

/// The label of a sensor, where it has one.
pub open spec fn label_of(directory: HwmonDirectory, kind: SensorKind, index: u32) -> Option<
    Seq<char>,
> {
    if directory.labels@.contains_key(label_name(kind, index)) {
        Some(directory.labels@[label_name(kind, index)]@)
    } else {
        None
    }
}

fn sensor_label<'a>(directory: &'a HwmonDirectory, kind: SensorKind, index: u32) -> (label: Option<
    &'a String,
>)
    ensures
        match label {
            Some(label) => label_of(*directory, kind, index) == Some(label@),
            None => label_of(*directory, kind, index) is None,
        },
{
    let mut name = chars_of(kind.prefix_text());
    let number = decimal_text(index as u64);
    extend_text(&mut name, number.as_str());
    extend_text(&mut name, "_label");
    let name = string_of(&name);
    directory.labels.get(&name)
}

/// A path below a directory.
pub open spec fn path_below(directory: Seq<char>, name: Seq<char>) -> Seq<char> {
    directory + "/"@ + name
}

pub fn join_path(directory: &str, name: &str) -> (path: String)
    ensures
        path@ == path_below(directory@, name@),
{
    let mut out = chars_of(directory);
    extend_text(&mut out, "/");
    extend_text(&mut out, name);
    string_of(&out)
}

/// A remark in brackets, where there is something to remark.
pub open spec fn in_brackets(text: Option<Seq<char>>) -> Seq<char> {
    match text {
        Some(text) => " ("@ + text + ")"@,
        None => Seq::empty(),
    }
}

/// The name of the chip in brackets, where it has one.
pub open spec fn chip_remark(chip: Seq<char>) -> Seq<char> {
    if chip.len() == 0 {
        Seq::empty()
    } else {
        in_brackets(Some(chip))
    }
}

fn push_remark(out: &mut Vec<char>, text: &str)
    ensures
        final(out)@ == old(out)@ + (" ("@ + text@ + ")"@),
{
    let ghost before = out@;
    extend_text(out, " (");
    extend_text(out, text);
    extend_text(out, ")");
    assert(out@ == before + (" ("@ + text@ + ")"@));
}

/// The entry with the given name stands for something that is there.
pub open spec fn entry_present(entries: Seq<SysEntry>, name: Seq<char>) -> bool {
    exists|i: int|
        0 <= i < entries.len() && (#[trigger] entries[i]).name@ == name && entries[i].present
}

pub fn has_entry(entries: &Vec<SysEntry>, name: &str) -> (found: bool)
    ensures
        found == entry_present(entries@, name@),
{
    let mut i: usize = 0;
    while i < entries.len()
        invariant
            i <= entries.len(),
            forall|k: int|
                0 <= k < i ==> !((#[trigger] entries@[k]).name@ == name@ && entries@[k].present),
        decreases entries.len() - i,
    {
        if entries[i].present && same_text(entries[i].name.as_str(), name) {
            assert(entries@[i as int].name@ == name@);
            return true;
        }
        i = i + 1;
    }
    false
}

/// What a clock measures, by its label.
pub open spec fn clock_meaning(label: Seq<char>) -> Option<MetricKey> {
    let plain = plain_label(label);
    if contains(plain, "memory"@) || contains(plain, "mem"@) || contains(plain, "mclk"@) {
        Some(MetricKey::ClockMemoryMhz)
    } else if contains(plain, "graphics"@) || contains(plain, "gfx"@) || contains(plain, "sclk"@)
        || contains(plain, "core"@) || contains(plain, "gpu"@) {
        Some(MetricKey::ClockGraphicsMhz)
    } else if contains(plain, "video"@) || contains(plain, "media"@) || contains(plain, "vclk"@) {
        Some(MetricKey::ClockVideoMhz)
    } else {
        None
    }
}

fn clock_semantic(label: &str) -> (key: Option<MetricKey>)
    ensures
        key == clock_meaning(label@),
{
    let plain = normalize_label(label);
    if has(&plain, "memory") || has(&plain, "mem") || has(&plain, "mclk") {
        Some(MetricKey::ClockMemoryMhz)
    } else if has(&plain, "graphics") || has(&plain, "gfx") || has(&plain, "sclk") || has(
        &plain,
        "core",
    ) || has(&plain, "gpu") {
        Some(MetricKey::ClockGraphicsMhz)
    } else if has(&plain, "video") || has(&plain, "media") || has(&plain, "vclk") {
        Some(MetricKey::ClockVideoMhz)
    } else {
        None
    }
}

/// The source that a sensor gives.
pub open spec fn sensor_source(
    directory: HwmonDirectory,
    vendor: GpuVendor,
    kind: SensorKind,
    file: NumberedModel,
) -> Option<SourceModel> {
    let path = path_below(directory.path@, file.name);
    let label = label_of(directory, kind, file.index);
    let chip = chip_remark(directory.chip@);
    match kind {
        SensorKind::Temperature => match temperature_meaning(vendor, file.index as nat, label) {
            None => None,
            Some(meaning) => Some(
                SourceModel {
                    key: meaning.key,
                    reader: ReaderModel::MilliCelsius(path),
                    quality: meaning.quality,
                    definition: "Linux hwmon "@ + (match label {
                        Some(label) => label,
                        None => meaning.words,
                    }) + " temperature in Celsius"@ + chip,
                    priority: if label is Some {
                        120
                    } else {
                        90
                    },
                },
            ),
        },
        SensorKind::PowerAverage => Some(
            SourceModel {
                key: MetricKey::PowerDrawWatts,
                reader: ReaderModel::MicroWatts(path),
                quality: MetricQuality::Direct,
                definition: "Linux hwmon average GPU power in watts"@ + in_brackets(label) + chip,
                priority: 130,
            },
        ),
        SensorKind::PowerInput => Some(
            SourceModel {
                key: MetricKey::PowerDrawWatts,
                reader: ReaderModel::MicroWatts(path),
                quality: MetricQuality::Direct,
                definition: "Linux hwmon instantaneous GPU power in watts"@ + in_brackets(label)
                    + chip,
                priority: 120,
            },
        ),
        SensorKind::PowerCap => Some(
            SourceModel {
                key: MetricKey::PowerLimitWatts,
                reader: ReaderModel::MicroWatts(path),
                quality: MetricQuality::Direct,
                definition: "Linux hwmon GPU power cap in watts"@ + in_brackets(label) + chip,
                priority: 120,
            },
        ),
        SensorKind::Energy => Some(
            SourceModel {
                key: MetricKey::PowerEnergyJoules,
                reader: ReaderModel::MicroJoules(path),
                quality: MetricQuality::Direct,
                definition: "Linux hwmon cumulative GPU energy in joules"@ + in_brackets(label)
                    + chip,
                priority: 120,
            },
        ),
        SensorKind::FanSpeed => Some(
            SourceModel {
                key: MetricKey::FanRpm,
                reader: ReaderModel::Rpm(path),
                quality: MetricQuality::Direct,
                definition: "Linux hwmon GPU fan speed in RPM"@ + in_brackets(label) + chip,
                priority: 120,
            },
        ),
        SensorKind::Pwm => {
            let limit = "pwm"@ + decimal(file.index as nat) + "_max"@;
            Some(
                SourceModel {
                    key: MetricKey::FanPercent,
                    reader: ReaderModel::PwmPercent {
                        input: path,
                        maximum: if entry_present(directory.entries@, limit) {
                            Some(path_below(directory.path@, limit))
                        } else {
                            None
                        },
                    },
                    quality: MetricQuality::Derived,
                    definition: "Linux hwmon GPU PWM duty cycle as a percentage"@ + chip,
                    priority: 110,
                },
            )
        },
        SensorKind::Frequency => match label {
            None => None,
            Some(label) => match clock_meaning(label) {
                None => None,
                Some(key) => Some(
                    SourceModel {
                        key,
                        reader: ReaderModel::HertzToMhz(path),
                        quality: MetricQuality::Direct,
                        definition: "Linux hwmon "@ + label + " clock in MHz"@ + chip,
                        priority: 100,
                    },
                ),
            },
        },
    }
}

fn push_chip(out: &mut Vec<char>, chip: &str)
    ensures
        final(out)@ == old(out)@ + chip_remark(chip@),
{
    let ghost before = out@;
    if !chip.is_empty() {
        push_remark(out, chip);
    }
    assert(out@ == before + chip_remark(chip@));
}

/// A definition with the label of the sensor and the name of the chip in brackets.
fn remarked(words: &str, label: Option<&String>, chip: &str) -> (text: String)
    ensures
        text@ == words@ + in_brackets(
            match label {
                Some(label) => Some(label@),
                None => None,
            },
        ) + chip_remark(chip@),
{
    let mut out = chars_of(words);
    if let Some(label) = label {
        push_remark(&mut out, label.as_str());
    }
    assert(out@ == words@ + in_brackets(
        match label {
            Some(label) => Some(label@),
            None => None,
        },
    ));
    push_chip(&mut out, chip);
    string_of(&out)
}

/// A definition with words in the middle and the name of the chip in brackets.
fn worded(before: &str, middle: &str, after: &str, chip: &str) -> (text: String)
    ensures
        text@ == before@ + middle@ + after@ + chip_remark(chip@),
{
    let mut out = chars_of(before);
    extend_text(&mut out, middle);
    extend_text(&mut out, after);
    push_chip(&mut out, chip);
    string_of(&out)
}

fn make_sensor_source(
    directory: &HwmonDirectory,
    vendor: GpuVendor,
    kind: SensorKind,
    file: &NumberedFile,
) -> (source: Option<MetricSource>)
    ensures
        match source {
            Some(source) => sensor_source(*directory, vendor, kind, file.model()) == Some(source@),
            None => sensor_source(*directory, vendor, kind, file.model()) is None,
        },
{
    let path = join_path(directory.path.as_str(), file.name.as_str());
    let chip = directory.chip.as_str();
    let label = sensor_label(directory, kind, file.index);
    match kind {
        SensorKind::Temperature => {
            let text: Option<&str> = match label {
                Some(label) => Some(label.as_str()),
                None => None,
            };
            match temperature_semantic(vendor, file.index, text) {
                None => None,
                Some((key, quality, words)) => {
                    let sensor: &str = match label {
                        Some(label) => label.as_str(),
                        None => words,
                    };
                    let definition = worded(
                        "Linux hwmon ",
                        sensor,
                        " temperature in Celsius",
                        chip,
                    );
                    let priority: i16 = if label.is_some() {
                        120
                    } else {
                        90
                    };
                    Some(
                        MetricSource {
                            key,
                            reader: MetricReader::MilliCelsius(path),
                            quality,
                            definition,
                            priority,
                        },
                    )
                },
            }
        },
        SensorKind::PowerAverage => Some(
            MetricSource {
                key: MetricKey::PowerDrawWatts,
                reader: MetricReader::MicroWatts(path),
                quality: MetricQuality::Direct,
                definition: remarked("Linux hwmon average GPU power in watts", label, chip),
                priority: 130,
            },
        ),
        SensorKind::PowerInput => Some(
            MetricSource {
                key: MetricKey::PowerDrawWatts,
                reader: MetricReader::MicroWatts(path),
                quality: MetricQuality::Direct,
                definition: remarked("Linux hwmon instantaneous GPU power in watts", label, chip),
                priority: 120,
            },
        ),
        SensorKind::PowerCap => Some(
            MetricSource {
                key: MetricKey::PowerLimitWatts,
                reader: MetricReader::MicroWatts(path),
                quality: MetricQuality::Direct,
                definition: remarked("Linux hwmon GPU power cap in watts", label, chip),
                priority: 120,
            },
        ),
        SensorKind::Energy => Some(
            MetricSource {
                key: MetricKey::PowerEnergyJoules,
                reader: MetricReader::MicroJoules(path),
                quality: MetricQuality::Direct,
                definition: remarked("Linux hwmon cumulative GPU energy in joules", label, chip),
                priority: 120,
            },
        ),
        SensorKind::FanSpeed => Some(
            MetricSource {
                key: MetricKey::FanRpm,
                reader: MetricReader::Rpm(path),
                quality: MetricQuality::Direct,
                definition: remarked("Linux hwmon GPU fan speed in RPM", label, chip),
                priority: 120,
            },
        ),
        SensorKind::Pwm => {
            let mut limit = chars_of("pwm");
            let number = decimal_text(file.index as u64);
            extend_text(&mut limit, number.as_str());
            extend_text(&mut limit, "_max");
            let limit = string_of(&limit);
            let mut definition = chars_of("Linux hwmon GPU PWM duty cycle as a percentage");
            push_chip(&mut definition, chip);
            let maximum = if has_entry(&directory.entries, limit.as_str()) {
                Some(join_path(directory.path.as_str(), limit.as_str()))
            } else {
                None
            };
            Some(
                MetricSource {
                    key: MetricKey::FanPercent,
                    reader: MetricReader::PwmPercent { input: path, maximum },
                    quality: MetricQuality::Derived,
                    definition: string_of(&definition),
                    priority: 110,
                },
            )
        },
        SensorKind::Frequency => match label {
            None => None,
            Some(label) => match clock_semantic(label.as_str()) {
                None => None,
                Some(key) => Some(
                    MetricSource {
                        key,
                        reader: MetricReader::HertzToMhz(path),
                        quality: MetricQuality::Direct,
                        definition: worded(
                            "Linux hwmon ",
                            label.as_str(),
                            " clock in MHz",
                            chip,
                        ),
                        priority: 100,
                    },
                ),
            },
        },
    }
}

/// The sources that the given sensors give.
pub open spec fn file_sources(
    directory: HwmonDirectory,
    vendor: GpuVendor,
    kind: SensorKind,
    files: Seq<NumberedModel>,
) -> Seq<SourceModel>
    decreases files.len(),
{
    if files.len() == 0 {
        Seq::empty()
    } else {
        let before = file_sources(directory, vendor, kind, files.drop_last());
        match sensor_source(directory, vendor, kind, files.last()) {
            Some(source) => before.push(source),
            None => before,
        }
    }
}

/// The sources of the given kinds of sensors.
pub open spec fn kind_sources(
    directory: HwmonDirectory,
    vendor: GpuVendor,
    kinds: Seq<SensorKind>,
) -> Seq<SourceModel>
    decreases kinds.len(),
{
    if kinds.len() == 0 {
        Seq::empty()
    } else {
        kind_sources(directory, vendor, kinds.drop_last()) + file_sources(
            directory,
            vendor,
            kinds.last(),
            sensor_files(directory, kinds.last()),
        )
    }
}

/// The sources of the given directories.
pub open spec fn directory_sources(directories: Seq<HwmonDirectory>, vendor: GpuVendor) -> Seq<
    SourceModel,
>
    decreases directories.len(),
{
    if directories.len() == 0 {
        Seq::empty()
    } else {
        directory_sources(directories.drop_last(), vendor) + kind_sources(
            directories.last(),
            vendor,
            sensor_kinds(),
        )
    }
}

/// The sources of all sensors, the directories in ascending order of their paths.
pub open spec fn hwmon_sources(directories: Seq<HwmonDirectory>, vendor: GpuVendor) -> Seq<
    SourceModel,
> {
    directory_sources(
        arranged(
            directories,
            stable_order_of::<String>(
                directories.map_values(|directory: HwmonDirectory| directory.path@),
            ),
        ),
        vendor,
    )
}

fn discover_kind(
    directory: &HwmonDirectory,
    vendor: GpuVendor,
    kind: SensorKind,
    sources: &mut Vec<MetricSource>,
)
    ensures
        source_views(final(sources)@) == source_views(old(sources)@) + file_sources(
            *directory,
            vendor,
            kind,
            sensor_files(*directory, kind),
        ),
{
    let ghost before = source_views(sources@);
    let files = numbered_files(directory, kind);
    let ghost all = models(files@);
    let mut i: usize = 0;
    assert(all.take(0) == Seq::<NumberedModel>::empty());
    while i < files.len()
        invariant
            i <= files.len(),
            all == models(files@),
            source_views(sources@) == before + file_sources(
                *directory,
                vendor,
                kind,
                all.take(i as int),
            ),
        decreases files.len() - i,
    {
        let ghost held = source_views(sources@);
        assert(all.take(i + 1).drop_last() == all.take(i as int));
        assert(all.take(i + 1).last() == files@[i as int].model());
        if let Some(source) = make_sensor_source(directory, vendor, kind, &files[i]) {
            sources.push(source);
            assert(source_views(sources@) == held.push(source@));
        }
        i = i + 1;
    }
    assert(all.take(i as int) == all);
}

fn discover_directory(
    directory: &HwmonDirectory,
    vendor: GpuVendor,
    sources: &mut Vec<MetricSource>,
)
    ensures
        source_views(final(sources)@) == source_views(old(sources)@) + kind_sources(
            *directory,
            vendor,
            sensor_kinds(),
        ),
{
    let ghost before = source_views(sources@);
    let kinds: Vec<SensorKind> = vec![
        SensorKind::Temperature,
        SensorKind::PowerAverage,
        SensorKind::PowerInput,
        SensorKind::PowerCap,
        SensorKind::Energy,
        SensorKind::FanSpeed,
        SensorKind::Pwm,
        SensorKind::Frequency,
    ];
    assert(kinds@ == sensor_kinds());
    let mut i: usize = 0;
    while i < kinds.len()
        invariant
            i <= kinds.len(),
            source_views(sources@) == before + kind_sources(
                *directory,
                vendor,
                kinds@.take(i as int),
            ),
        decreases kinds.len() - i,
    {
        assert(kinds@.take(i + 1).drop_last() == kinds@.take(i as int));
        discover_kind(directory, vendor, kinds[i], sources);
        i = i + 1;
    }
    assert(kinds@.take(i as int) == kinds@);
}

/// The sources of all sensors of a device.
pub fn discover(directories: Vec<HwmonDirectory>, vendor: GpuVendor) -> (sources: Vec<MetricSource>)
    ensures
        source_views(sources@) == hwmon_sources(directories@, vendor),
{
    let ghost given = directories@;
    let mut paths: Vec<String> = Vec::new();
    let mut i: usize = 0;
    while i < directories.len()
        invariant
            i <= directories.len(),
            paths.len() == i,
            forall|k: int| 0 <= k < i ==> (#[trigger] paths@[k])@ == directories@[k].path@,
        decreases directories.len() - i,
    {
        paths.push(directories[i].path.clone());
        i = i + 1;
    }
    let order = stable_order(&paths);
    assert(models(paths@) == given.map_values(|directory: HwmonDirectory| directory.path@));
    let sorted = crate::ordered::arrange(directories, &order);
    let mut sources: Vec<MetricSource> = Vec::new();
    let mut i: usize = 0;
    assert(source_views(sources@) == Seq::<SourceModel>::empty());
    while i < sorted.len()
        invariant
            i <= sorted.len(),
            source_views(sources@) == directory_sources(sorted@.take(i as int), vendor),
        decreases sorted.len() - i,
    {
        assert(sorted@.take(i + 1).drop_last() == sorted@.take(i as int));
        discover_directory(&sorted[i], vendor, &mut sources);
        i = i + 1;
    }
    assert(sorted@.take(i as int) == sorted@);
    sources
}

} // verus!
