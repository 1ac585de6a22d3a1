//! The texts of sysfs attributes.
use crate::binary64::{total_max, total_place, Binary64};
use crate::text::{
    all_digits, char_views, chars_of, contains, ends_with, fault_text, fault_words, find_text,
    first_at, index_of, is_in_class, lemma_index_of, lines, lines_of, lower, lowered, only_digits,
    owned, parse_number, position_of, read_number, same, slice_of, starts_with, string_of,
    strip_end, strip_start, trim, trim_end, trimmed, utf8_text, CharClass, NumberFault,
};
use vstd::prelude::*;
use vstd::utf8::{decode_utf8, valid_utf8};

verus! {

/// The largest attribute that is read.
pub const MAX_SYSFS_VALUE_BYTES: usize = 65_536;

/// Why the contents of an attribute are no text.
#[derive(Clone, Copy, Debug, PartialEq, Eq, Structural)]
pub enum TextFault {
    TooLong,
    NotUtf8,
}

/// The text of an attribute without its padding.
pub fn attribute_text(bytes: Vec<u8>) -> (result: Result<String, TextFault>)
    ensures
        match result {
            Ok(text) => bytes@.len() <= MAX_SYSFS_VALUE_BYTES && valid_utf8(bytes@) && text@
                == trim(CharClass::Padding, decode_utf8(bytes@)),
            Err(TextFault::TooLong) => bytes@.len() > MAX_SYSFS_VALUE_BYTES,
            Err(TextFault::NotUtf8) => bytes@.len() <= MAX_SYSFS_VALUE_BYTES && !valid_utf8(
                bytes@,
            ),
        },
{
    if bytes.len() > MAX_SYSFS_VALUE_BYTES {
        return Err(TextFault::TooLong);
    }
    match utf8_text(bytes) {
        None => Err(TextFault::NotUtf8),
        Some(text) => {
            proof {
                vstd::utf8::encode_utf8_decode_utf8(text@);
            }
            let chars = chars_of(text.as_str());
            let inner = trimmed(CharClass::Padding, &chars);
            Ok(string_of(&inner))
        },
    }
}

/// The number that an attribute holds: hexadecimal after `0x`, decimal else.
pub open spec fn attribute_number(text: Seq<char>) -> Result<nat, NumberFault> {
    let inner = trim(CharClass::White, text);
    if starts_with(inner, "0x"@) || starts_with(inner, "0X"@) {
        read_number(inner.skip(2), 16, u64::MAX as nat)
    } else {
        read_number(inner, 10, u64::MAX as nat)
    }
}

pub fn parse_u64(value: &str) -> (result: Result<u64, String>)
    ensures
        match result {
            Ok(n) => attribute_number(value@) == Ok::<nat, NumberFault>(n as nat),
            Err(words) => attribute_number(value@) is Err && words@ == fault_words(
                attribute_number(value@)->Err_0,
            ),
        },
{
    let chars = chars_of(value);
    let inner = trimmed(CharClass::White, &chars);
    proof {
        reveal_strlit("0x");
        reveal_strlit("0X");
    }
    let hex = match strip_start(&inner, "0x") {
        Some(rest) => Some(rest),
        None => strip_start(&inner, "0X"),
    };
    let result = match hex {
        Some(digits) => parse_number(&digits, 16, u64::MAX),
        None => parse_number(&inner, 10, u64::MAX),
    };
    match result {
        Ok(n) => Ok(n),
        Err(fault) => Err(owned(fault_text(fault))),
    }
}

/// A character of a decimal number.
pub open spec fn is_number_char(c: char) -> bool {
    '0' <= c <= '9' || c == '.'
}

/// The longest end of `text` made of digits and points.
pub open spec fn trailing_number(text: Seq<char>) -> Seq<char>
    decreases text.len(),
{
    if text.len() == 0 || !is_number_char(text.last()) {
        Seq::empty()
    } else {
        trailing_number(text.drop_last()).push(text.last())
    }
}

/// The number that stands before the first `MHz` of a line.
pub open spec fn clock_text(line: Seq<char>) -> Option<Seq<char>> {
    if contains(lower(line), "mhz"@) {
        let number = trailing_number(
            trim_end(CharClass::AsciiWhite, line.take(first_at(lower(line), "mhz"@))),
        );
        if number.len() == 0 {
            None
        } else {
            Some(number)
        }
    } else {
        None
    }
}

/// The number that stands before the first `MHz` of a line.
pub fn clock_before_mhz(line: &Vec<char>) -> (text: Option<String>)
    ensures
        match text {
            Some(text) => clock_text(line@) == Some(text@),
            None => clock_text(line@) is None,
        },
{
    let small = lowered(line);
    let at: usize = match find_text(&small, "mhz") {
        None => {
            return None;
        },
        Some(at) => at,
    };
    let ghost before = line@.take(at as int);
    let mut to: usize = at;
    assert(line@.subrange(0, at as int) == before);
    while to > 0 && is_in_class(CharClass::AsciiWhite, line[to - 1])
        invariant
            to <= at <= line.len(),
            before == line@.take(at as int),
            trim_end(CharClass::AsciiWhite, before) == trim_end(
                CharClass::AsciiWhite,
                line@.take(to as int),
            ),
        decreases to,
    {
        assert(line@.take(to as int).drop_last() == line@.take(to - 1));
        to = to - 1;
    }
    let ghost kept = line@.take(to as int);
    assert(trim_end(CharClass::AsciiWhite, before) == kept);
    let mut from: usize = to;
    assert(line@.subrange(to as int, to as int) == Seq::<char>::empty());
    assert(trailing_number(kept) == trailing_number(line@.take(from as int)) + line@.subrange(
        from as int,
        to as int,
    ));
    while from > 0 && (('0' <= line[from - 1] && line[from - 1] <= '9') || line[from - 1] == '.')
        invariant
            from <= to <= line.len(),
            kept == line@.take(to as int),
            trailing_number(kept) == trailing_number(line@.take(from as int)) + line@.subrange(
                from as int,
                to as int,
            ),
        decreases from,
    {
        assert(line@.take(from as int).drop_last() == line@.take(from - 1));
        assert(line@.subrange(from - 1, to as int) == seq![line@[from - 1]] + line@.subrange(
            from as int,
            to as int,
        ));
        from = from - 1;
        assert(trailing_number(kept) == trailing_number(line@.take(from as int)) + line@.subrange(
            from as int,
            to as int,
        ));
    }
    if from == to {
        return None;
    }
    let number = slice_of(line, from, to);
    assert(trailing_number(kept) == number@);
    Some(string_of(&number))
}

/// The numbers of the lines that are marked with an asterisk.
pub open spec fn active_clocks(lines: Seq<Seq<char>>) -> Seq<Seq<char>>
    decreases lines.len(),
{
    if lines.len() == 0 {
        Seq::empty()
    } else {
        let before = active_clocks(lines.drop_last());
        if lines.last().contains('*') && clock_text(lines.last()) is Some {
            before.push(clock_text(lines.last())->0)
        } else {
            before
        }
    }
}

/// Some line is marked with an asterisk.
pub open spec fn any_active(lines: Seq<Seq<char>>) -> bool {
    exists|i: int| 0 <= i < lines.len() && (#[trigger] lines[i]).contains('*')
}

fn marks(line: &Vec<char>) -> (marked: bool)
    ensures
        marked == line@.contains('*'),
{
    let at: usize = position_of(line, '*', 0);
    proof {
        assert(line@.skip(0) == line@);
        lemma_index_of(line@, '*');
        if at < line.len() {
            assert(line@[at as int] == '*');
        }
    }
    at < line.len()
}

/// The numbers of the active states of a DPM table, as they are written.
pub fn active_clock_texts(value: &str) -> (result: Result<Vec<String>, String>)
    ensures
        match result {
            Ok(texts) => any_active(lines(value@)) && texts@.map_values(|t: String| t@)
                == active_clocks(lines(value@)),
            Err(words) => !any_active(lines(value@)) && words@ == "no active DPM state was marked"@,
        },
{
    let chars = chars_of(value);
    let rows = lines_of(&chars);
    let ghost all = lines(value@);
    let mut texts: Vec<String> = Vec::new();
    let mut active = false;
    let mut i: usize = 0;
    assert(all.take(0) == Seq::<Seq<char>>::empty());
    assert(texts@.map_values(|t: String| t@) == Seq::<Seq<char>>::empty());
    while i < rows.len()
        invariant
            i <= rows.len(),
            all == char_views(rows@),
            active == any_active(all.take(i as int)),
            texts@.map_values(|t: String| t@) == active_clocks(all.take(i as int)),
        decreases rows.len() - i,
    {
        assert(all.take(i + 1).drop_last() == all.take(i as int));
        assert(all.take(i + 1).last() == rows@[i as int]@);
        let ghost held = texts@.map_values(|t: String| t@);
        let marked = marks(&rows[i]);
        if marked {
            active = true;
            assert(all.take(i + 1)[i as int].contains('*'));
            if let Some(text) = clock_before_mhz(&rows[i]) {
                texts.push(text);
                assert(texts@.map_values(|t: String| t@) == held.push(text@));
            }
        }
        proof {
            if any_active(all.take(i + 1)) && !marked {
                let k = choose|k: int|
                    0 <= k < all.take(i + 1).len() && (#[trigger] all.take(i + 1)[k]).contains('*');
                assert(all.take(i as int)[k].contains('*'));
            }
            if any_active(all.take(i as int)) {
                let k = choose|k: int|
                    0 <= k < all.take(i as int).len() && (#[trigger] all.take(
                        i as int,
                    )[k]).contains('*');
                assert(all.take(i + 1)[k].contains('*'));
            }
        }
        i = i + 1;
    }
    assert(all.take(i as int) == all);
    if active {
        Ok(texts)
    } else {
        Err(owned("no active DPM state was marked"))
    }
}

/// The largest of the clocks that are finite and at least zero, where there is one.
pub open spec fn highest_clock(values: Seq<Option<Binary64>>) -> Option<Binary64>
    decreases values.len(),
{
    if values.len() == 0 {
        None
    } else {
        let before = highest_clock(values.drop_last());
        match values.last() {
            Some(value) => if value.non_negative() {
                match before {
                    Some(best) => if total_place(best) > total_place(value) {
                        before
                    } else {
                        Some(value)
                    },
                    None => Some(value),
                }
            } else {
                before
            },
            None => before,
        }
    }
}

/// The clock of an active DPM state, out of the numbers that its lines hold.
pub fn highest_active_clock(values: &Vec<Option<Binary64>>) -> (result: Result<Binary64, String>)
    ensures
        match result {
            Ok(value) => highest_clock(values@) == Some(value),
            Err(words) => highest_clock(values@) is None && words@
                == "active DPM state did not contain an MHz value"@,
        },
{
    let mut best: Option<Binary64> = None;
    let mut i: usize = 0;
    while i < values.len()
        invariant
            i <= values.len(),
            best == highest_clock(values@.take(i as int)),
        decreases values.len() - i,
    {
        assert(values@.take(i + 1).drop_last() == values@.take(i as int));
        if let Some(value) = values[i] {
            if value.is_non_negative() {
                best =
                match best {
                    Some(earlier) => Some(total_max(earlier, value)),
                    None => Some(value),
                };
            }
        }
        i = i + 1;
    }
    assert(values@.take(i as int) == values@);
    match best {
        Some(value) => Ok(value),
        None => Err(owned("active DPM state did not contain an MHz value")),
    }
}

/// A name made of a prefix and digits.
pub open spec fn is_numbered(name: Seq<char>, prefix: Seq<char>) -> bool {
    &&& starts_with(name, prefix)
    &&& name.len() > prefix.len()
    &&& all_digits(name.skip(prefix.len() as int))
}

/// A name made of a prefix and digits.
pub fn has_number(name: &Vec<char>, prefix: &str) -> (numbered: bool)
    ensures
        numbered == is_numbered(name@, prefix@),
{
    match strip_start(name, prefix) {
        None => false,
        Some(rest) => rest.len() > 0 && only_digits(&rest),
    }
}

/// A primary or render node of a display device, not one of its connectors.
pub fn drm_node_name(name: &str) -> (primary: bool)
    ensures
        primary == (is_numbered(name@, "card"@) || is_numbered(name@, "renderD"@)),
{
    let chars = chars_of(name);
    has_number(&chars, "card") || has_number(&chars, "renderD")
}

/// The digits between a prefix and a suffix.
pub open spec fn between(name: Seq<char>, prefix: Seq<char>, suffix: Seq<char>) -> Seq<char> {
    name.subrange(prefix.len() as int, name.len() - suffix.len())
}

/// The number of an attribute named by a prefix, a number and a suffix.
pub open spec fn attribute_index(
    name: Seq<char>,
    prefix: Seq<char>,
    suffix: Seq<char>,
) -> Option<nat> {
    if starts_with(name, prefix) && ends_with(name.skip(prefix.len() as int), suffix) && name.len()
        > prefix.len() + suffix.len() && all_digits(between(name, prefix, suffix)) {
        match read_number(between(name, prefix, suffix), 10, u32::MAX as nat) {
            Ok(n) => Some(n),
            Err(fault) => None,
        }
    } else {
        None
    }
}

pub fn numbered_attribute(name: &str, prefix: &str, suffix: &str) -> (index: Option<u32>)
    ensures
        match index {
            Some(n) => attribute_index(name@, prefix@, suffix@) == Some(n as nat),
            None => attribute_index(name@, prefix@, suffix@) is None,
        },
{
    let chars = chars_of(name);
    match strip_start(&chars, prefix) {
        None => None,
        Some(rest) => match strip_end(&rest, suffix) {
            None => None,
            Some(digits) => {
                assert(digits@ == between(name@, prefix@, suffix@));
                if digits.len() > 0 && only_digits(&digits) {
                    match parse_number(&digits, 10, u32::MAX as u64) {
                        Ok(n) => Some(n as u32),
                        Err(fault) => None,
                    }
                } else {
                    None
                }
            },
        },
    }
}

/// The value of `key` in the first line that gives one.
pub open spec fn uevent_field(lines: Seq<Seq<char>>, key: Seq<char>) -> Option<Seq<char>>
    decreases lines.len(),
{
    if lines.len() == 0 {
        None
    } else {
        let line = lines[0];
        let at = index_of(line, '=');
        if at < line.len() && line.take(at) == key {
            Some(trim(CharClass::White, line.skip(at + 1)))
        } else {
            uevent_field(lines.skip(1), key)
        }
    }
}

pub fn uevent_value(contents: &str, key: &str) -> (value: Option<String>)
    ensures
        match value {
            Some(text) => uevent_field(lines(contents@), key@) == Some(text@),
            None => uevent_field(lines(contents@), key@) is None,
        },
{
    let chars = chars_of(contents);
    let rows = lines_of(&chars);
    let ghost all = lines(contents@);
    let mut i: usize = 0;
    assert(all.skip(0) == all);
    while i < rows.len()
        invariant
            i <= rows.len(),
            all == lines(contents@),
            all == char_views(rows@),
            uevent_field(all, key@) == uevent_field(all.skip(i as int), key@),
        decreases rows.len() - i,
    {
        let line = &rows[i];
        assert(all.skip(i as int)[0] == line@);
        assert(all.skip(i as int).skip(1) == all.skip(i + 1));
        let at: usize = position_of(line, '=', 0);
        assert(line@.skip(0) == line@);
        if at < line.len() {
            let name = slice_of(line, 0, at);
            assert(name@ == line@.take(at as int));
            if same(&name, key) {
                let rest = slice_of(line, at + 1, line.len());
                assert(rest@ == line@.skip(at + 1));
                let inner = trimmed(CharClass::White, &rest);
                return Some(string_of(&inner));
            }
        }
        i = i + 1;
    }
    None
}

} // verus!
