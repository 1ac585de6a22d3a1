//! What the system management controller answers, and what it means.
use crate::binary64::{Binary64, SIGN};
use crate::float_arithmetic::{round_quotient, rounded_bits};
use crate::model::UnavailableReason;
use crate::ordered::{Ordered, Relation};
use crate::text::{
    chars_of, decimal, decimal_text, digits, digits_of, extend, extend_text, owned, string_of,
};
use vstd::prelude::*;
use vstd::utf8::{encode_utf8, valid_utf8};

verus! {

pub const SMC_SELECTOR: u32 = 2;

pub const SMC_READ_KEY: u8 = 5;

pub const SMC_READ_INDEX: u8 = 8;

pub const SMC_READ_KEY_INFO: u8 = 9;

pub const SMC_KEY_NOT_FOUND: u8 = 0x84;

/// The most keys that are looked through.
pub const MAX_SMC_KEYS: u32 = 16_384;

/// The most sensors that are read.
pub const MAX_GPU_TEMPERATURE_KEYS: usize = 64;

/// The size of a request and of an answer.
pub const KEY_DATA_BYTES: usize = 80;

/// The type `flt `: a little-endian single-precision value.
pub const TYPE_FLT: u32 = 0x666c_7420;

/// The type `sp78`: a big-endian signed value with eight bits behind the point.
pub const TYPE_SP78: u32 = 0x7370_3738;

/// The bits of one.
pub const ONE_DEGREE: u64 = 0x3ff0_0000_0000_0000;

/// The bits of one hundred and fifty.
pub const HUNDRED_FIFTY_DEGREES: u64 = 0x4062_c000_0000_0000;

/// How the value of a key is stored.
#[derive(Clone, Copy, Debug, PartialEq, Eq, Structural)]
pub struct KeyInfo {
    pub data_size: u32,
    pub data_type: u32,
    pub attributes: u8,
}

/// A key whose value is a temperature.
#[derive(Clone, Copy, Debug, PartialEq, Eq, Structural)]
pub struct TemperatureSensor {
    pub key: u32,
    pub info: KeyInfo,
}

/// What went wrong.
#[derive(Debug)]
pub struct SmcFailure {
    pub reason: UnavailableReason,
    pub message: String,
}

/// What went wrong, by its contents.
pub struct SmcFailureModel {
    pub reason: UnavailableReason,
    pub message: Seq<char>,
}

impl View for SmcFailure {
    type V = SmcFailureModel;

    open spec fn view(&self) -> SmcFailureModel {
        SmcFailureModel { reason: self.reason, message: self.message@ }
    }
}

pub open spec fn lasting(message: Seq<char>) -> SmcFailureModel {
    SmcFailureModel { reason: UnavailableReason::ProviderError, message }
}

pub open spec fn passing(message: Seq<char>) -> SmcFailureModel {
    SmcFailureModel { reason: UnavailableReason::TemporarilyUnavailable, message }
}

impl SmcFailure {
    pub fn provider(message: &str) -> (failure: Self)
        ensures
            failure@ == lasting(message@),
    {
        SmcFailure { reason: UnavailableReason::ProviderError, message: owned(message) }
    }

    pub fn temporary(message: &str) -> (failure: Self)
        ensures
            failure@ == passing(message@),
    {
        SmcFailure { reason: UnavailableReason::TemporarilyUnavailable, message: owned(message) }
    }

    pub fn duplicate(&self) -> (copy: Self)
        ensures
            copy@ == self@,
    {
        SmcFailure { reason: self.reason, message: self.message.clone() }
    }
}

/// Four characters as one number, the first one in the highest byte.
pub open spec fn four_characters(a: u8, b: u8, c: u8, d: u8) -> nat {
    (a as nat) * 0x100_0000 + (b as nat) * 0x1_0000 + (c as nat) * 0x100 + d as nat
}

pub fn fourcc(bytes: [u8; 4]) -> (code: u32)
    ensures
        code == four_characters(bytes@[0], bytes@[1], bytes@[2], bytes@[3]),
{
    bytes[0] as u32 * 0x100_0000 + bytes[1] as u32 * 0x1_0000 + bytes[2] as u32 * 0x100
        + bytes[3] as u32
}

/// The keys that common machines have: `Tg0f`, `Tg0j`, `TG0P` and `TG0D`.
pub open spec fn common_keys() -> Seq<nat> {
    seq![
        four_characters(0x54, 0x67, 0x30, 0x66),
        four_characters(0x54, 0x67, 0x30, 0x6a),
        four_characters(0x54, 0x47, 0x30, 0x50),
        four_characters(0x54, 0x47, 0x30, 0x44),
    ]
}

/// The keys that are tried by name, for machines that do not list theirs.
pub fn known_keys() -> (keys: Vec<u32>)
    ensures
        keys@.map_values(|key: u32| key as nat) == common_keys(),
{
    let mut keys: Vec<u32> = Vec::new();
    keys.push(fourcc([0x54, 0x67, 0x30, 0x66]));
    keys.push(fourcc([0x54, 0x67, 0x30, 0x6a]));
    keys.push(fourcc([0x54, 0x47, 0x30, 0x50]));
    keys.push(fourcc([0x54, 0x47, 0x30, 0x44]));
    assert(keys@.map_values(|key: u32| key as nat) =~= common_keys());
    keys
}

/// The bytes of a number, the highest one first.
pub open spec fn four_bytes(value: u32) -> Seq<u8> {
    seq![
        (value as int / 0x100_0000) as u8,
        (value as int / 0x1_0000 % 0x100) as u8,
        (value as int / 0x100 % 0x100) as u8,
        (value as int % 0x100) as u8,
    ]
}

/// What `String::from_utf8_lossy` of std makes of bytes.
pub uninterp spec fn lossy_utf8(bytes: Seq<u8>) -> Seq<char>;

/// `String::from_utf8_lossy` of std: the text that the bytes encode, where they are valid UTF-8;
/// else a text that depends on the bytes alone, with replacement characters for what is not valid.
#[verifier::external_body]
fn utf8_lossy(bytes: &Vec<u8>) -> (text: String)
    ensures
        text@ == lossy_utf8(bytes@),
        valid_utf8(bytes@) ==> encode_utf8(text@) == bytes@,
{
    String::from_utf8_lossy(bytes).into_owned()
}

/// A number as the four characters that it stands for.
pub fn fourcc_string(value: u32) -> (text: String)
    ensures
        text@ == lossy_utf8(four_bytes(value)),
        valid_utf8(four_bytes(value)) ==> encode_utf8(text@) == four_bytes(value),
{
    let mut bytes: Vec<u8> = Vec::new();
    bytes.push((value / 0x100_0000) as u8);
    bytes.push((value / 0x1_0000 % 0x100) as u8);
    bytes.push((value / 0x100 % 0x100) as u8);
    bytes.push((value % 0x100) as u8);
    assert(bytes@ == four_bytes(value));
    utf8_lossy(&bytes)
}

/// The key names a temperature of a graphics device, stored as such keys are.
pub open spec fn is_gpu_temperature(key: u32, info: KeyInfo) -> bool {
    &&& four_bytes(key)[0] == 0x54
    &&& (four_bytes(key)[1] == 0x67 && info.data_type == TYPE_FLT && info.data_size == 4) || (
    four_bytes(key)[1] == 0x47 && info.data_type == TYPE_SP78 && info.data_size == 2)
}

pub fn is_gpu_temperature_key(key: u32, info: KeyInfo) -> (holds: bool)
    ensures
        holds == is_gpu_temperature(key, info),
{
    let first: u32 = key / 0x100_0000;
    let second: u32 = key / 0x1_0000 % 0x100;
    first == 0x54 && ((second == 0x67 && info.data_type == TYPE_FLT && info.data_size == 4) || (
    second == 0x47 && info.data_type == TYPE_SP78 && info.data_size == 2))
}

/// A number in hexadecimal, behind its mark.
pub open spec fn hexadecimal(value: nat) -> Seq<char> {
    "0x"@ + digits(value, 16)
}

fn extend_hexadecimal(text: &mut Vec<char>, value: u64)
    ensures
        final(text)@ == old(text)@ + hexadecimal(value as nat),
{
    let ghost before = text@;
    extend_text(text, "0x");
    let number = digits_of(value, 16);
    extend(text, &number);
    assert(text@ == before + hexadecimal(value as nat));
}

/// What a request came to: whether it could be made, the size of the answer, and what the
/// controller says of it.
pub open spec fn reply_fault(status: u32, size: usize, result: u8) -> Option<SmcFailureModel> {
    if status != 0 {
        Some(
            lasting("AppleSMC request failed with IOKit status "@ + hexadecimal(status as nat)),
        )
    } else if size != KEY_DATA_BYTES {
        Some(
            lasting(
                "AppleSMC returned an unexpected payload size ("@ + decimal(size as nat) + ")"@,
            ),
        )
    } else if result == SMC_KEY_NOT_FOUND {
        Some(passing("AppleSMC key was not found"@))
    } else if result != 0 {
        Some(lasting("AppleSMC returned result code "@ + hexadecimal(result as nat)))
    } else {
        None
    }
}

pub fn check_reply(status: u32, size: usize, result: u8) -> (fault: Option<SmcFailure>)
    ensures
        match fault {
            Some(fault) => reply_fault(status, size, result) == Some(fault@),
            None => reply_fault(status, size, result) is None,
        },
{
    if status != 0 {
        let mut text = chars_of("AppleSMC request failed with IOKit status ");
        extend_hexadecimal(&mut text, status as u64);
        let message = string_of(&text);
        return Some(SmcFailure::provider(message.as_str()));
    }
    if size != KEY_DATA_BYTES {
        let mut text = chars_of("AppleSMC returned an unexpected payload size (");
        let number = decimal_text(size as u64);
        extend_text(&mut text, number.as_str());
        extend_text(&mut text, ")");
        let message = string_of(&text);
        return Some(SmcFailure::provider(message.as_str()));
    }
    if result == SMC_KEY_NOT_FOUND {
        return Some(SmcFailure::temporary("AppleSMC key was not found"));
    }
    if result != 0 {
        let mut text = chars_of("AppleSMC returned result code ");
        extend_hexadecimal(&mut text, result as u64);
        let message = string_of(&text);
        return Some(SmcFailure::provider(message.as_str()));
    }
    None
}

/// The service was opened, or why not.
pub fn check_opened(status: u32, connection: u32) -> (fault: Option<SmcFailure>)
    ensures
        match fault {
            Some(fault) => (status != 0 || connection == 0) && fault@ == lasting(
                "IOServiceOpen(AppleSMC) failed with IOKit status "@ + hexadecimal(
                    status as nat,
                ),
            ),
            None => status == 0 && connection != 0,
        },
{
    if status != 0 || connection == 0 {
        let mut text = chars_of("IOServiceOpen(AppleSMC) failed with IOKit status ");
        extend_hexadecimal(&mut text, status as u64);
        let message = string_of(&text);
        return Some(SmcFailure::provider(message.as_str()));
    }
    None
}

/// How a key is stored can be believed.
pub fn check_key_info(key: u32, info: KeyInfo) -> (result: Result<KeyInfo, SmcFailure>)
    ensures
        match result {
            Ok(kept) => kept == info && 0 < info.data_size <= 32,
            Err(fault) => !(0 < info.data_size <= 32) && fault@ == lasting(
                "AppleSMC key "@ + lossy_utf8(four_bytes(key)) + " reported invalid size "@
                    + decimal(info.data_size as nat),
            ),
        },
{
    if info.data_size == 0 || info.data_size > 32 {
        let mut text = chars_of("AppleSMC key ");
        let name = fourcc_string(key);
        extend_text(&mut text, name.as_str());
        extend_text(&mut text, " reported invalid size ");
        let number = decimal_text(info.data_size as u64);
        extend_text(&mut text, number.as_str());
        let message = string_of(&text);
        return Err(SmcFailure::provider(message.as_str()));
    }
    Ok(info)
}

/// The number of keys is stored so that it can be read.
pub fn check_count_info(info: KeyInfo) -> (fault: Option<SmcFailure>)
    ensures
        match fault {
            Some(fault) => info.data_size < 4 && fault@ == lasting(
                "AppleSMC #KEY payload was shorter than four bytes"@,
            ),
            None => info.data_size >= 4,
        },
{
    if info.data_size < 4 {
        return Some(SmcFailure::provider("AppleSMC #KEY payload was shorter than four bytes"));
    }
    None
}

/// The number of keys in the first four bytes of an answer.
pub fn read_key_count(bytes: &[u8; 32]) -> (result: Result<u32, SmcFailure>)
    ensures
        ({
            let count = four_characters(bytes@[0], bytes@[1], bytes@[2], bytes@[3]);
            match result {
                Ok(read) => read == count && count <= MAX_SMC_KEYS,
                Err(fault) => count > MAX_SMC_KEYS && fault@ == lasting(
                    "AppleSMC reported an unreasonable key count ("@ + decimal(count) + ")"@,
                ),
            }
        }),
{
    let count: u32 = fourcc([bytes[0], bytes[1], bytes[2], bytes[3]]);
    if count > MAX_SMC_KEYS {
        let mut text = chars_of("AppleSMC reported an unreasonable key count (");
        let number = decimal_text(count as u64);
        extend_text(&mut text, number.as_str());
        extend_text(&mut text, ")");
        let message = string_of(&text);
        return Err(SmcFailure::provider(message.as_str()));
    }
    Ok(count)
}

/// The magnitude of a single-precision value is that of a number.
pub open spec fn single_is_finite(bits: nat) -> bool {
    bits % 0x8000_0000 < 0x7f80_0000
}

/// The double-precision value of a finite single-precision one.
pub open spec fn widened(bits: nat) -> int {
    let magnitude = bits % 0x8000_0000;
    let exponent = magnitude / 0x80_0000;
    let fraction = magnitude % 0x80_0000;
    let wide = if exponent == 0 {
        rounded_bits(fraction, 1, 925)
    } else {
        rounded_bits(0x80_0000 + fraction, 1, 924 + exponent as int)
    };
    if bits >= 0x8000_0000 {
        wide + SIGN
    } else {
        wide
    }
}

/// The temperature that the bytes hold.
pub open spec fn stored_temperature(info: KeyInfo, bytes: Seq<u8>) -> Result<int, SmcFailureModel> {
    if info.data_type == TYPE_FLT && info.data_size == 4 {
        let bits = four_characters(bytes[3], bytes[2], bytes[1], bytes[0]);
        if single_is_finite(bits) {
            Ok(widened(bits))
        } else {
            Err(lasting("AppleSMC temperature was not finite"@))
        }
    } else if info.data_type == TYPE_SP78 && info.data_size == 2 {
        let word = bytes[0] as nat * 0x100 + bytes[1] as nat;
        if word < 0x8000 {
            Ok(rounded_bits(word, 1, 1066))
        } else {
            Ok(rounded_bits((0x1_0000 - word) as nat, 1, 1066) + SIGN)
        }
    } else {
        Err(
            lasting(
                "unsupported AppleSMC temperature type "@ + lossy_utf8(four_bytes(info.data_type))
                    + " with size "@ + decimal(info.data_size as nat),
            ),
        )
    }
}

pub fn decode_temperature(info: KeyInfo, bytes: &[u8; 32]) -> (result: Result<
    Binary64,
    SmcFailure,
>)
    ensures
        match (result, stored_temperature(info, bytes@)) {
            (Ok(value), Ok(bits)) => value.bits == bits,
            (Err(fault), Err(expected)) => fault@ == expected,
            _ => false,
        },
{
    if info.data_type == TYPE_FLT && info.data_size == 4 {
        let bits: u32 = fourcc([bytes[3], bytes[2], bytes[1], bytes[0]]);
        let magnitude: u32 = bits % 0x8000_0000;
        if magnitude >= 0x7f80_0000 {
            return Err(SmcFailure::provider("AppleSMC temperature was not finite"));
        }
        let exponent: u32 = magnitude / 0x80_0000;
        let fraction: u32 = magnitude % 0x80_0000;
        let wide = if exponent == 0 {
            round_quotient(fraction as u128, 1, 925)
        } else {
            round_quotient(0x80_0000 + fraction as u128, 1, 924 + exponent as i64)
        };
        if bits >= 0x8000_0000 {
            Ok(Binary64::from_bits(wide.bits + SIGN))
        } else {
            Ok(wide)
        }
    } else if info.data_type == TYPE_SP78 && info.data_size == 2 {
        let word: u32 = bytes[0] as u32 * 0x100 + bytes[1] as u32;
        if word < 0x8000 {
            Ok(round_quotient(word as u128, 1, 1066))
        } else {
            let wide = round_quotient((0x1_0000 - word) as u128, 1, 1066);
            Ok(Binary64::from_bits(wide.bits + SIGN))
        }
    } else {
        let mut text = chars_of("unsupported AppleSMC temperature type ");
        let name = fourcc_string(info.data_type);
        extend_text(&mut text, name.as_str());
        extend_text(&mut text, " with size ");
        let number = decimal_text(info.data_size as u64);
        extend_text(&mut text, number.as_str());
        let message = string_of(&text);
        Err(SmcFailure::provider(message.as_str()))
    }
}

/// A temperature that a device can have.
pub open spec fn is_plausible(bits: int) -> bool {
    ONE_DEGREE <= bits <= HUNDRED_FIFTY_DEGREES
}

/// Why there is no temperature.
#[derive(Debug)]
pub enum TemperatureFault {
    Failure(SmcFailure),
    /// The value cannot be the temperature of a device.
    Implausible(Binary64),
}

/// The temperature that an answer holds.
pub fn read_temperature(sensor: TemperatureSensor, bytes: &[u8; 32]) -> (result: Result<
    Binary64,
    TemperatureFault,
>)
    ensures
        match (result, stored_temperature(sensor.info, bytes@)) {
            (Ok(value), Ok(bits)) => value.bits == bits && is_plausible(bits),
            (Err(TemperatureFault::Implausible(value)), Ok(bits)) => value.bits == bits
                && !is_plausible(bits),
            (Err(TemperatureFault::Failure(fault)), Err(expected)) => fault@ == expected,
            _ => false,
        },
{
    match decode_temperature(sensor.info, bytes) {
        Err(fault) => Err(TemperatureFault::Failure(fault)),
        Ok(value) => if ONE_DEGREE <= value.bits && value.bits <= HUNDRED_FIFTY_DEGREES {
            Ok(value)
        } else {
            Err(TemperatureFault::Implausible(value))
        },
    }
}

/// What is said of an implausible temperature, which is shown as the given text.
pub fn implausible(sensor: TemperatureSensor, shown: &str) -> (fault: SmcFailure)
    ensures
        fault@ == lasting(
            "AppleSMC key "@ + lossy_utf8(four_bytes(sensor.key))
                + " returned implausible temperature "@ + shown@,
        ),
{
    let mut text = chars_of("AppleSMC key ");
    let name = fourcc_string(sensor.key);
    extend_text(&mut text, name.as_str());
    extend_text(&mut text, " returned implausible temperature ");
    extend_text(&mut text, shown);
    let message = string_of(&text);
    SmcFailure::provider(message.as_str())
}

/// A whole number by which sensors are ordered: the key, then the size, the type and the
/// attributes of its value.
pub open spec fn sensor_place(sensor: TemperatureSensor) -> int {
    ((sensor.key * 0x1_0000_0000 + sensor.info.data_size) * 0x1_0000_0000 + sensor.info.data_type)
        * 0x100 + sensor.info.attributes
}

proof fn lemma_places_differ(a: TemperatureSensor, b: TemperatureSensor)
    requires
        sensor_place(a) == sensor_place(b),
    ensures
        a == b,
{
}

impl Ordered for TemperatureSensor {
    type Model = TemperatureSensor;

    open spec fn model(&self) -> TemperatureSensor {
        *self
    }

    open spec fn less(a: TemperatureSensor, b: TemperatureSensor) -> bool {
        sensor_place(a) < sensor_place(b)
    }

    proof fn less_irreflexive(a: TemperatureSensor) {
    }

    proof fn less_transitive(a: TemperatureSensor, b: TemperatureSensor, c: TemperatureSensor) {
    }

    proof fn less_total(a: TemperatureSensor, b: TemperatureSensor) {
        if sensor_place(a) == sensor_place(b) {
            lemma_places_differ(a, b);
        }
    }

    fn relation(&self, other: &Self) -> (relation: Relation) {
        if self.key != other.key {
            return if self.key < other.key {
                Relation::Before
            } else {
                Relation::After
            };
        }
        if self.info.data_size != other.info.data_size {
            return if self.info.data_size < other.info.data_size {
                Relation::Before
            } else {
                Relation::After
            };
        }
        if self.info.data_type != other.info.data_type {
            return if self.info.data_type < other.info.data_type {
                Relation::Before
            } else {
                Relation::After
            };
        }
        if self.info.attributes < other.info.attributes {
            Relation::Before
        } else if self.info.attributes > other.info.attributes {
            Relation::After
        } else {
            Relation::Same
        }
    }
}

} // verus!
