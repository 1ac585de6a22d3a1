//! The array of formatted counter values that PDH fills in: first the items, one after another,
//! then the names that they point to.
use crate::binary64::Binary64;
use crate::error::{ErrorModel, GpuError};
use crate::model::UnavailableReason;
use crate::providers::windows::dxgi::{utf16_lossy, utf16_text};
use crate::text::{
    chars_of, decimal, decimal_text, extend, extend_text, padded_digits, padded_digits_of,
    string_of,
};
use vstd::arithmetic::power2::pow2;
use vstd::prelude::*;

verus! {

/// The largest array that is read.
pub const MAX_ARRAY_BYTES: u32 = 16_777_216;

/// The most items that are read.
pub const MAX_ARRAY_ITEMS: u32 = 65_536;

/// How often the array is asked for again after it had grown.
pub const MAX_ARRAY_RETRIES: u32 = 3;

/// PDH has more data than the buffer takes.
pub const MORE_DATA: u32 = 0x8000_07d2;

/// A counter with a value.
pub const VALID_DATA: u32 = 0;

/// A counter with a value that was not there before.
pub const NEW_DATA: u32 = 1;

/// The name of the provider.
pub open spec fn pdh_name() -> Seq<char> {
    "windows-pdh"@
}

/// Some words and a status in hexadecimal.
pub open spec fn status_words(words: Seq<char>, status: u32) -> Seq<char> {
    words + "0x"@ + padded_digits(status as nat, 16, 8)
}

/// The error of a call that PDH answered with a status.
pub open spec fn status_error(words: Seq<char>, status: u32) -> ErrorModel {
    ErrorModel::Provider {
        provider: pdh_name(),
        reason: UnavailableReason::TemporarilyUnavailable,
        message: status_words(words, status),
    }
}

pub fn status_text(words: &str, status: u32) -> (text: String)
    ensures
        text@ == status_words(words@, status),
{
    let mut text = chars_of(words);
    extend_text(&mut text, "0x");
    let number = padded_digits_of(status as u64, 16, 8);
    extend(&mut text, &number);
    string_of(&text)
}

pub fn failed_call(words: &str, status: u32) -> (error: GpuError)
    ensures
        error@ == status_error(words@, status),
{
    let text = status_text(words, status);
    GpuError::provider(
        "windows-pdh",
        UnavailableReason::TemporarilyUnavailable,
        text.as_str(),
    )
}

/// The error of an array that is larger than any sensible one.
pub open spec fn oversized_error(bytes: u32, items: u32) -> ErrorModel {
    ErrorModel::Provider {
        provider: pdh_name(),
        reason: UnavailableReason::ProviderError,
        message: "PDH reported an oversized counter array ("@ + decimal(bytes as nat) + " bytes, "@
            + decimal(items as nat) + " items)"@,
    }
}

/// The error of an array that is not laid out as it should be.
pub open spec fn malformed_error() -> ErrorModel {
    ErrorModel::Provider {
        provider: pdh_name(),
        reason: UnavailableReason::ProviderError,
        message: "PDH returned a malformed counter array"@,
    }
}

/// The buffer to be made for an array, in words of eight bytes, after the answer to the question
/// for its size. No words mean that there is nothing to read.
pub fn plan_buffer(status: u32, bytes: u32, items: u32) -> (words: Result<usize, GpuError>)
    ensures
        match words {
            Ok(words) => (status == MORE_DATA || status == 0) && if bytes == 0 || items == 0 {
                words == 0
            } else {
                bytes <= MAX_ARRAY_BYTES && items <= MAX_ARRAY_ITEMS && words == (bytes + 7) / 8
            },
            Err(error) => if status != MORE_DATA && status != 0 {
                error@ == status_error("PDH counter size query failed with "@, status)
            } else {
                &&& bytes > 0 && items > 0
                &&& bytes > MAX_ARRAY_BYTES || items > MAX_ARRAY_ITEMS
                &&& error@ == oversized_error(bytes, items)
            },
        },
{
    if status != MORE_DATA && status != 0 {
        return Err(failed_call("PDH counter size query failed with ", status));
    }
    if bytes == 0 || items == 0 {
        return Ok(0);
    }
    if bytes > MAX_ARRAY_BYTES || items > MAX_ARRAY_ITEMS {
        let mut text = chars_of("PDH reported an oversized counter array (");
        let number = decimal_text(bytes as u64);
        extend_text(&mut text, number.as_str());
        extend_text(&mut text, " bytes, ");
        let number = decimal_text(items as u64);
        extend_text(&mut text, number.as_str());
        extend_text(&mut text, " items)");
        let message = string_of(&text);
        return Err(
            GpuError::provider(
                "windows-pdh",
                UnavailableReason::ProviderError,
                message.as_str(),
            ),
        );
    }
    Ok(((bytes + 7) / 8) as usize)
}

/// Whether the array is there, after the answer to an attempt to read it; where it is not, it has
/// grown, and its size is asked for again.
pub fn array_is_read(status: u32, retries: u32) -> (read: Result<bool, GpuError>)
    ensures
        match read {
            Ok(true) => status == 0,
            Ok(false) => status == MORE_DATA && retries < MAX_ARRAY_RETRIES,
            Err(error) => {
                &&& status != 0
                &&& status != MORE_DATA || retries >= MAX_ARRAY_RETRIES
                &&& error@ == status_error("PDH counter read failed with "@, status)
            },
        },
{
    if status == 0 {
        Ok(true)
    } else if status == MORE_DATA && retries < MAX_ARRAY_RETRIES {
        Ok(false)
    } else {
        Err(failed_call("PDH counter read failed with ", status))
    }
}

/// The number that `n` bytes from `at` hold, the least significant one first.
pub open spec fn little_endian(bytes: Seq<u8>, at: int, n: nat) -> nat
    decreases n,
{
    if n == 0 {
        0
    } else {
        bytes[at] as nat + 256 * little_endian(bytes, at + 1, (n - 1) as nat)
    }
}

proof fn lemma_little_endian_bound(bytes: Seq<u8>, at: int, n: nat)
    ensures
        little_endian(bytes, at, n) < pow2(8 * n),
    decreases n,
{
    vstd::arithmetic::power2::lemma2_to64();
    if n > 0 {
        lemma_little_endian_bound(bytes, at + 1, (n - 1) as nat);
        vstd::arithmetic::power2::lemma_pow2_adds(8, (8 * n - 8) as nat);
    }
}

pub fn read_little_endian(bytes: &Vec<u8>, at: usize, n: usize) -> (value: u64)
    requires
        n <= 8,
        at + n <= bytes@.len(),
    ensures
        value == little_endian(bytes@, at as int, n as nat),
        n == 4 ==> value <= u32::MAX,
        n == 2 ==> value <= u16::MAX,
{
    let size: usize = bytes.len();
    let mut value: u64 = 0;
    let mut k: usize = n;
    while k > 0
        invariant
            k <= n <= 8,
            at + n <= size == bytes@.len(),
            value == little_endian(bytes@, at + k, (n - k) as nat),
        decreases k,
    {
        proof {
            lemma_little_endian_bound(bytes@, at + k, (n - k) as nat);
            vstd::arithmetic::power2::lemma2_to64();
            vstd::arithmetic::power2::lemma2_to64_rest();
            let left = (8 * (n - k)) as nat;
            if left < 56 {
                vstd::arithmetic::power2::lemma_pow2_strictly_increases(left, 56);
            }
        }
        value = bytes[at + k - 1] as u64 + 256 * value;
        k = k - 1;
    }
    proof {
        lemma_little_endian_bound(bytes@, at as int, n as nat);
        vstd::arithmetic::power2::lemma2_to64();
    }
    value
}

/// The UTF-16 units from `at` up to a zero, where that comes before `end`.
pub open spec fn units_at(bytes: Seq<u8>, at: int, end: int) -> Option<Seq<u16>>
    decreases end - at,
{
    if at + 2 > end {
        None
    } else if little_endian(bytes, at, 2) == 0 {
        Some(Seq::empty())
    } else {
        match units_at(bytes, at + 2, end) {
            Some(rest) => Some(seq![little_endian(bytes, at, 2) as u16] + rest),
            None => None,
        }
    }
}

/// What was read, and then what is still to be read.
spec fn units_after(read: Seq<u16>, rest: Option<Seq<u16>>) -> Option<Seq<u16>> {
    match rest {
        Some(rest) => Some(read + rest),
        None => None,
    }
}

fn read_units(bytes: &Vec<u8>, at: usize, end: usize) -> (units: Option<Vec<u16>>)
    requires
        at <= end <= bytes@.len(),
    ensures
        match units {
            Some(units) => units_at(bytes@, at as int, end as int) == Some(units@),
            None => units_at(bytes@, at as int, end as int) is None,
        },
{
    let mut units: Vec<u16> = Vec::new();
    let mut here: usize = at;
    proof {
        if let Some(rest) = units_at(bytes@, at as int, end as int) {
            assert(Seq::<u16>::empty() + rest == rest);
        }
    }
    while end - here >= 2
        invariant
            at <= here <= end <= bytes@.len(),
            units_at(bytes@, at as int, end as int) == units_after(
                units@,
                units_at(bytes@, here as int, end as int),
            ),
        decreases end - here,
    {
        let unit: u64 = read_little_endian(bytes, here, 2);
        if unit == 0 {
            assert(units@ + Seq::<u16>::empty() == units@);
            return Some(units);
        }
        proof {
            if let Some(rest) = units_at(bytes@, here + 2, end as int) {
                assert(units@ + (seq![unit as u16] + rest) == units@.push(unit as u16) + rest);
            }
        }
        units.push(unit as u16);
        here = here + 2;
    }
    None
}

/// Every surrogate among the units has its partner.
pub open spec fn is_utf16(units: Seq<u16>) -> bool
    decreases units.len(),
{
    if units.len() == 0 {
        true
    } else if units[0] < 0xd800 || units[0] > 0xdfff {
        is_utf16(units.skip(1))
    } else {
        units[0] <= 0xdbff && units.len() > 1 && 0xdc00 <= units[1] <= 0xdfff && is_utf16(
            units.skip(2),
        )
    }
}

fn has_partners(units: &Vec<u16>) -> (holds: bool)
    ensures
        holds == is_utf16(units@),
{
    let mut i: usize = 0;
    assert(units@.skip(0) == units@);
    while i < units.len()
        invariant
            i <= units.len(),
            is_utf16(units@) == is_utf16(units@.skip(i as int)),
        decreases units.len() - i,
    {
        let ghost rest = units@.skip(i as int);
        assert(rest[0] == units@[i as int]);
        if units[i] < 0xd800 || units[i] > 0xdfff {
            assert(rest.skip(1) == units@.skip(i + 1));
            i = i + 1;
        } else {
            if units.len() - i < 2 || units[i] > 0xdbff {
                return false;
            }
            assert(rest[1] == units@[i + 1]);
            if units[i + 1] < 0xdc00 || units[i + 1] > 0xdfff {
                return false;
            }
            assert(rest.skip(2) == units@.skip(i + 2));
            i = i + 2;
        }
    }
    true
}

/// The text of a name; none where the units are no UTF-16.
pub open spec fn name_text(units: Seq<u16>) -> Seq<char> {
    if is_utf16(units) {
        utf16_text(units)
    } else {
        Seq::empty()
    }
}

/// A counter and its value.
#[derive(Debug)]
pub struct CounterItem {
    pub name: String,
    pub value: Binary64,
}

/// A counter by its contents.
pub struct CounterModel {
    pub name: Seq<char>,
    pub value: Binary64,
}

impl View for CounterItem {
    type V = CounterModel;

    open spec fn view(&self) -> CounterModel {
        CounterModel { name: self.name@, value: self.value }
    }
}

/// The contents of counters.
pub open spec fn counter_models(items: Seq<CounterItem>) -> Seq<CounterModel> {
    items.map_values(|item: CounterItem| item@)
}

/// Every counter holds a percentage.
pub open spec fn all_percent(items: Seq<CounterModel>) -> bool {
    forall|i: int| 0 <= i < items.len() ==> (#[trigger] items[i]).value.percent()
}

/// The status of the item at `i`.
pub open spec fn item_status(bytes: Seq<u8>, i: int) -> nat {
    little_endian(bytes, 24 * i + 8, 4)
}

/// The value of the item at `i`.
pub open spec fn item_value(bytes: Seq<u8>, i: int) -> Binary64 {
    Binary64 { bits: little_endian(bytes, 24 * i + 16, 8) as u64 }
}

/// The item at `i` has a value that is a percentage.
pub open spec fn item_counts(bytes: Seq<u8>, i: int) -> bool {
    (item_status(bytes, i) == VALID_DATA || item_status(bytes, i) == NEW_DATA) && item_value(
        bytes,
        i,
    ).percent()
}

/// The name that the item at `i` points to, where it lies behind the items and ends in the array.
pub open spec fn item_units(
    bytes: Seq<u8>,
    used: int,
    address: u64,
    count: int,
    i: int,
) -> Option<Seq<u16>> {
    let at = little_endian(bytes, 24 * i, 8) - address;
    if 24 * count <= at <= used && at % 2 == 0 {
        units_at(bytes, at, used)
    } else {
        None
    }
}

/// The counters among the first `n` items; none at all where a name is not in its place.
pub open spec fn array_items(
    bytes: Seq<u8>,
    used: int,
    address: u64,
    count: int,
    n: int,
) -> Option<Seq<CounterModel>>
    decreases n,
{
    if n <= 0 {
        Some(Seq::empty())
    } else {
        match array_items(bytes, used, address, count, n - 1) {
            None => None,
            Some(before) => if !item_counts(bytes, n - 1) {
                Some(before)
            } else {
                match item_units(bytes, used, address, count, n - 1) {
                    Some(units) => Some(
                        before.push(
                            CounterModel {
                                name: name_text(units),
                                value: item_value(bytes, n - 1),
                            },
                        ),
                    ),
                    None => None,
                }
            },
        }
    }
}

/// The counters of an array that lies at an address and takes the given part of its buffer; none
/// at all where it is malformed.
pub open spec fn array_counters(bytes: Seq<u8>, used: u32, address: u64, count: u32) -> Option<
    Seq<CounterModel>,
> {
    if address % 8 == 0 && count <= MAX_ARRAY_ITEMS && 24 * count <= used <= bytes.len()
        <= MAX_ARRAY_BYTES {
        array_items(bytes, used as int, address, count as int, count as int)
    } else {
        None
    }
}

proof fn lemma_malformed_stays(
    bytes: Seq<u8>,
    used: int,
    address: u64,
    count: int,
    n: int,
    m: int,
)
    requires
        n <= m,
        array_items(bytes, used, address, count, n) is None,
    ensures
        array_items(bytes, used, address, count, m) is None,
    decreases m - n,
{
    if n < m {
        lemma_malformed_stays(bytes, used, address, count, n, m - 1);
    }
}

fn malformed() -> (error: GpuError)
    ensures
        error@ == malformed_error(),
{
    GpuError::provider(
        "windows-pdh",
        UnavailableReason::ProviderError,
        "PDH returned a malformed counter array",
    )
}

fn read_name(bytes: &Vec<u8>, used: usize, address: u64, count: usize, i: usize) -> (name: Option<
    String,
>)
    requires
        i < count <= MAX_ARRAY_ITEMS,
        24 * count <= used <= bytes@.len() <= MAX_ARRAY_BYTES,
    ensures
        match name {
            Some(name) => item_units(bytes@, used as int, address, count as int, i as int) is Some && name@
                == name_text(item_units(bytes@, used as int, address, count as int, i as int)->0),
            None => item_units(bytes@, used as int, address, count as int, i as int) is None,
        },
{
    let pointer: u64 = read_little_endian(bytes, 24 * i, 8);
    if pointer < address {
        return None;
    }
    let at: u64 = pointer - address;
    if at < 24 * count as u64 || at > used as u64 || at % 2 != 0 {
        return None;
    }
    match read_units(bytes, at as usize, used) {
        None => None,
        Some(units) => if has_partners(&units) {
            Some(utf16_lossy(&units))
        } else {
            let none: Vec<char> = Vec::new();
            Some(string_of(&none))
        },
    }
}

/// Reads the counters of the array that PDH wrote at an address, into the given part of a buffer.
pub fn parse_items(bytes: &Vec<u8>, used: u32, address: u64, count: u32) -> (items: Result<
    Vec<CounterItem>,
    GpuError,
>)
    ensures
        match items {
            Ok(items) => array_counters(bytes@, used, address, count) == Some(counter_models(items@))
                && all_percent(counter_models(items@)),
            Err(error) => array_counters(bytes@, used, address, count) is None && error@
                == malformed_error(),
        },
{
    if address % 8 != 0 || count > MAX_ARRAY_ITEMS || bytes.len() as u64 > MAX_ARRAY_BYTES as u64
        || used as u64 > bytes.len() as u64 || (used as u64) < 24 * count as u64 {
        return Err(malformed());
    }
    let total: usize = count as usize;
    let mut items: Vec<CounterItem> = Vec::new();
    let mut i: usize = 0;
    assert(counter_models(items@) == Seq::<CounterModel>::empty());
    while i < total
        invariant
            i <= total,
            total == count <= MAX_ARRAY_ITEMS,
            24 * count <= used <= bytes@.len() <= MAX_ARRAY_BYTES,
            array_items(bytes@, used as int, address, count as int, i as int) == Some(counter_models(items@)),
            all_percent(counter_models(items@)),
        decreases total - i,
    {
        let status: u64 = read_little_endian(bytes, 24 * i + 8, 4);
        let value = Binary64::from_bits(read_little_endian(bytes, 24 * i + 16, 8));
        if (status == VALID_DATA as u64 || status == NEW_DATA as u64) && value.is_percent() {
            match read_name(bytes, used as usize, address, total, i) {
                Some(name) => {
                    let ghost held = counter_models(items@);
                    items.push(CounterItem { name, value });
                    assert(counter_models(items@) == held.push(
                        CounterModel { name: name@, value },
                    ));
                },
                None => {
                    proof {
                        lemma_malformed_stays(
                            bytes@,
                            used as int,
                            address,
                            count as int,
                            i + 1,
                            count as int,
                        );
                    }
                    return Err(malformed());
                },
            }
        }
        i = i + 1;
    }
    Ok(items)
}

} // verus!
