//! The counters of a device are those with its identifier.
use crate::providers::windows::dxgi::{luid_text, unsigned_word};
use crate::providers::windows::pdh::{cut, instance_of, EngineModel, InstanceModel};
use crate::text::{
    digit_char, digit_value, digits, first_at, is_first_at, lower, occurs_at, padded_digits,
    read_digits, read_number, NumberFault,
};
use vstd::prelude::*;

verus! {

/// The text does not hold the character.
pub open spec fn lacks(text: Seq<char>, c: char) -> bool {
    forall|i: int| 0 <= i < text.len() ==> #[trigger] text[i] != c
}

proof fn lemma_cut(before: Seq<char>, pattern: Seq<char>, after: Seq<char>)
    requires
        pattern.len() > 0,
        lacks(before, pattern[0]),
    ensures
        cut(before + pattern + after, pattern) == Some((before, after)),
{
    let text = before + pattern + after;
    let at = before.len() as int;
    assert(text.subrange(at, at + pattern.len()) == pattern);
    assert(occurs_at(text, pattern, at));
    assert forall|earlier: int| earlier < at implies !#[trigger] occurs_at(
        text,
        pattern,
        earlier,
    ) by {
        if occurs_at(text, pattern, earlier) {
            assert(text.subrange(earlier, earlier + pattern.len())[0] == pattern[0]);
            assert(before[earlier] == pattern[0]);
        }
    }
    assert(is_first_at(text, pattern, at));
    let chosen = first_at(text, pattern);
    assert(is_first_at(text, pattern, chosen));
    assert(chosen == at) by {
        if chosen < at {
            assert(!occurs_at(text, pattern, chosen));
        } else if at < chosen {
            assert(!occurs_at(text, pattern, at));
        }
    }
    assert(text.take(at) == before);
    assert(text.skip(at + pattern.len()) == after);
}

/// Digits in base sixteen are read back.
proof fn lemma_digits_read(value: nat, max: nat)
    requires
        value <= max,
    ensures
        digits(value, 16).len() > 0,
        forall|i: int|
            0 <= i < digits(value, 16).len() ==> is_digit(#[trigger] digits(value, 16)[i]),
        read_digits(digits(value, 16), 16, max) == Ok::<nat, NumberFault>(value),
    decreases value,
{
    let text = digits(value, 16);
    if value < 16 {
        assert(text.drop_last() == Seq::<char>::empty());
        assert(read_digits(text.drop_last(), 16, max) == Ok::<nat, NumberFault>(0));
        assert(digit_value(text.last(), 16) == Some(value));
    } else {
        lemma_digits_read(value / 16, max);
        let rest = value % 16;
        assert(text.drop_last() == digits(value / 16, 16));
        assert(text.last() == digit_char(rest as int));
        assert(digit_value(text.last(), 16) == Some(rest));
        assert(value / 16 * 16 + rest == value);
    }
}

/// A digit in base sixteen.
spec fn is_digit(c: char) -> bool {
    '0' <= c <= '9' || 'a' <= c <= 'f'
}

proof fn lemma_zeros_read(zeros: Seq<char>, text: Seq<char>, max: nat)
    requires
        forall|i: int| 0 <= i < zeros.len() ==> #[trigger] zeros[i] == '0',
    ensures
        read_digits(zeros + text, 16, max) == read_digits(text, 16, max),
    decreases zeros.len() + text.len(),
{
    let whole = zeros + text;
    if text.len() > 0 {
        assert(whole.drop_last() == zeros + text.drop_last());
        lemma_zeros_read(zeros, text.drop_last(), max);
    } else if zeros.len() > 0 {
        assert(whole == zeros);
        let rest = zeros.drop_last();
        assert forall|i: int| 0 <= i < rest.len() implies #[trigger] rest[i] == '0' by {
            assert(rest[i] == zeros[i]);
        }
        lemma_zeros_read(rest, text, max);
        assert(rest + text == rest);
        assert(digit_value('0', 16) == Some(0nat));
    } else {
        assert(whole == text);
    }
}

/// A word in hexadecimal is read back, and holds nothing but digits.
proof fn lemma_word_read(word: nat)
    requires
        word <= u32::MAX,
    ensures
        read_number(padded_digits(word, 16, 8), 16, u32::MAX as nat) == Ok::<nat, NumberFault>(
            word,
        ),
        lacks(padded_digits(word, 16, 8), '_'),
{
    let plain = digits(word, 16);
    let text = padded_digits(word, 16, 8);
    lemma_digits_read(word, u32::MAX as nat);
    if plain.len() < 8 {
        let zeros = Seq::new((8 - plain.len()) as nat, |i: int| '0');
        assert(text == zeros + plain);
        lemma_zeros_read(zeros, plain, u32::MAX as nat);
        assert forall|i: int| 0 <= i < text.len() implies is_digit(#[trigger] text[i]) by {
            if i >= zeros.len() {
                assert(text[i] == plain[i - zeros.len()]);
            }
        }
    }
    assert(is_digit(text[0]));
    assert forall|i: int| 0 <= i < text.len() implies #[trigger] text[i] != '_' by {
        assert(is_digit(text[i]));
    }
    if text == seq!['+'] {
        assert(text[0] == '+');
    }
}

/// The name of a counter for an engine of a device, behind its first part.
pub open spec fn counter_name(
    start: Seq<char>,
    high: i32,
    low: u32,
    engine: EngineModel,
) -> Seq<char> {
    start + "luid_0x"@ + (padded_digits(unsigned_word(high), 16, 8) + "_0x"@ + (padded_digits(
        low as nat,
        16,
        8,
    ) + "_phys_"@ + (engine.physical + "_eng_"@ + (engine.engine + "_engtype_"@
        + engine.engine_type))))
}

/// The name of a counter names the device by the text that the list of adapters has for it.
pub proof fn law_counters_name_their_adapter(
    name: Seq<char>,
    start: Seq<char>,
    high: i32,
    low: u32,
    engine: EngineModel,
)
    requires
        lower(name) == counter_name(start, high, low, engine),
        lacks(start, 'l'),
        lacks(engine.physical, '_'),
        lacks(engine.engine, '_'),
    ensures
        instance_of(name) == Some(InstanceModel { luid: luid_text(high, low), engine }),
{
    reveal_strlit("luid_0x");
    reveal_strlit("_0x");
    reveal_strlit("_phys_");
    reveal_strlit("_eng_");
    reveal_strlit("_engtype_");
    let first = padded_digits(unsigned_word(high), 16, 8);
    let second = padded_digits(low as nat, 16, 8);
    let tail3 = engine.engine + "_engtype_"@ + engine.engine_type;
    let tail2 = engine.physical + "_eng_"@ + tail3;
    let tail1 = second + "_phys_"@ + tail2;
    let tail = first + "_0x"@ + tail1;
    lemma_word_read(unsigned_word(high));
    lemma_word_read(low as nat);
    lemma_cut(start, "luid_0x"@, tail);
    lemma_cut(first, "_0x"@, tail1);
    lemma_cut(second, "_phys_"@, tail2);
    lemma_cut(engine.physical, "_eng_"@, tail3);
    lemma_cut(engine.engine, "_engtype_"@, engine.engine_type);
}

} // verus!
