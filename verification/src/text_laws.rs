//! What the operations on texts do, character by character.
use crate::text::{
    contains, decimal, digit_char, digit_value, digits, ends_with, in_class, index_of, lines, lower,
    occurrences, occurs_at, padded_digits, read_digits, read_number, starts_with, text_less, trim,
    trim_end, trim_start, upper, CharClass,
};
use vstd::prelude::*;

verus! {

/// Lower case changes the 26 capitals of ASCII and nothing else.
pub proof fn law_lower_case_changes_capitals(text: Seq<char>, i: int)
    requires
        0 <= i < text.len(),
    ensures
        lower(text).len() == text.len(),
        'A' <= text[i] <= 'Z' ==> lower(text)[i] as u32 == text[i] as u32 + 32,
        !('A' <= text[i] <= 'Z') ==> lower(text)[i] == text[i],
{
}

/// Upper case changes the 26 small letters of ASCII and nothing else.
pub proof fn law_upper_case_changes_small_letters(text: Seq<char>, i: int)
    requires
        0 <= i < text.len(),
    ensures
        upper(text).len() == text.len(),
        'a' <= text[i] <= 'z' ==> upper(text)[i] as u32 == text[i] as u32 - 32,
        !('a' <= text[i] <= 'z') ==> upper(text)[i] == text[i],
{
}

/// Two texts that differ in case alone have the same lower case.
pub proof fn law_case_does_not_count(text: Seq<char>)
    ensures
        lower(upper(text)) == lower(text),
        upper(lower(text)) == upper(text),
        lower(lower(text)) == lower(text),
{
    assert forall|i: int| 0 <= i < text.len() implies lower(upper(text))[i] == lower(text)[i] by {}
    assert forall|i: int| 0 <= i < text.len() implies upper(lower(text))[i] == upper(text)[i] by {}
    assert forall|i: int| 0 <= i < text.len() implies lower(lower(text))[i] == lower(text)[i] by {}
    assert(lower(upper(text)) =~= lower(text));
    assert(upper(lower(text)) =~= upper(text));
    assert(lower(lower(text)) =~= lower(text));
}

/// All characters are of the class.
pub open spec fn all_in(class: CharClass, text: Seq<char>) -> bool {
    forall|i: int| 0 <= i < text.len() ==> in_class(class, #[trigger] text[i])
}

pub proof fn lemma_trim_start_with(class: CharClass, first: Seq<char>, second: Seq<char>)
    ensures
        all_in(class, first) ==> trim_start(class, first + second) == trim_start(class, second),
        !all_in(class, first) ==> trim_start(class, first + second) == trim_start(class, first)
            + second,
        all_in(class, first) <==> trim_start(class, first).len() == 0,
    decreases first.len(),
{
    let whole = first + second;
    if first.len() == 0 {
        assert(whole == second);
    } else if in_class(class, first[0]) {
        assert(whole[0] == first[0]);
        assert(whole.skip(1) == first.skip(1) + second);
        lemma_trim_start_with(class, first.skip(1), second);
        assert(all_in(class, first) <==> all_in(class, first.skip(1))) by {
            assert forall|i: int| 0 <= i < first.skip(1).len() && all_in(class, first) implies
                in_class(class, #[trigger] first.skip(1)[i]) by {
                assert(in_class(class, first[i + 1]));
            }
            if all_in(class, first.skip(1)) {
                assert forall|i: int| 0 <= i < first.len() implies in_class(
                    class,
                    #[trigger] first[i],
                ) by {
                    if i > 0 {
                        assert(in_class(class, first.skip(1)[i - 1]));
                    }
                }
            }
        }
    } else {
        assert(whole[0] == first[0]);
        assert(!all_in(class, first));
    }
}

pub proof fn lemma_trim_end_with(class: CharClass, first: Seq<char>, second: Seq<char>)
    ensures
        all_in(class, second) ==> trim_end(class, first + second) == trim_end(class, first),
        !all_in(class, second) ==> trim_end(class, first + second) == first + trim_end(
            class,
            second,
        ),
        all_in(class, second) <==> trim_end(class, second).len() == 0,
    decreases second.len(),
{
    let whole = first + second;
    if second.len() == 0 {
        assert(whole == first);
    } else if in_class(class, second.last()) {
        let rest = second.drop_last();
        assert(whole.last() == second.last());
        assert(whole.drop_last() == first + rest);
        lemma_trim_end_with(class, first, rest);
        assert(all_in(class, second) <==> all_in(class, rest)) by {
            assert forall|i: int| 0 <= i < rest.len() && all_in(class, second) implies in_class(
                class,
                #[trigger] rest[i],
            ) by {
                assert(in_class(class, second[i]));
            }
            if all_in(class, rest) {
                assert forall|i: int| 0 <= i < second.len() implies in_class(
                    class,
                    #[trigger] second[i],
                ) by {
                    if i < rest.len() {
                        assert(in_class(class, rest[i]));
                    }
                }
            }
        }
    } else {
        assert(whole.last() == second.last());
        assert(second[second.len() - 1] == second.last());
        assert(!all_in(class, second));
    }
}

/// What is trimmed stands between characters of the class, begins and ends with another one, and
/// is otherwise as it was.
pub proof fn law_trimming_takes_the_ends(
    class: CharClass,
    before: Seq<char>,
    inner: Seq<char>,
    after: Seq<char>,
)
    requires
        all_in(class, before),
        all_in(class, after),
        inner.len() > 0 ==> !in_class(class, inner[0]) && !in_class(class, inner.last()),
    ensures
        trim(class, before + inner + after) == inner,
{
    assert(before + inner + after == before + (inner + after));
    lemma_trim_start_with(class, before, inner + after);
    lemma_trim_start_with(class, inner, after);
    if inner.len() == 0 {
        assert(inner + after == after);
        lemma_trim_start_with(class, after, Seq::empty());
        assert(trim_start(class, after) =~= inner);
    } else {
        assert(!all_in(class, inner));
        lemma_trim_end_with(class, inner, after);
    }
}

/// The blanks and line ends of ASCII are white space; no other character of ASCII is, but for the
/// vertical tab and, in what the kernel pads with, the NUL.
pub proof fn law_white_space_is_known(c: char)
    requires
        c as u32 <= 0x7f,
    ensures
        in_class(CharClass::AsciiWhite, c) <==> c == ' ' || c == '\t' || c == '\n' || c == '\r'
            || c as u32 == 12,
        in_class(CharClass::White, c) <==> in_class(CharClass::AsciiWhite, c) || c as u32 == 11,
        in_class(CharClass::Padding, c) <==> c == ' ' || c == '\t' || c == '\n' || c == '\r' || c
            as u32 == 0,
{
}

/// Beyond ASCII white space is what Unicode counts as such.
pub proof fn law_white_space_beyond_ascii_is_known(c: char)
    requires
        c as u32 > 0x7f,
    ensures
        !in_class(CharClass::AsciiWhite, c),
        !in_class(CharClass::Padding, c),
        in_class(CharClass::White, c) <==> {
            ||| c as u32 == 0x85
            ||| c as u32 == 0xa0
            ||| c as u32 == 0x1680
            ||| 0x2000 <= c as u32 <= 0x200a
            ||| 0x2028 <= c as u32 <= 0x2029
            ||| c as u32 == 0x202f
            ||| c as u32 == 0x205f
            ||| c as u32 == 0x3000
        },
{
}

/// A text is contained in another where that one is made of something before it, the text, and
/// something after it.
pub proof fn law_parts_are_contained(before: Seq<char>, part: Seq<char>, after: Seq<char>)
    ensures
        contains(before + part + after, part),
        starts_with(part + after, part),
        ends_with(before + part, part),
{
    let whole = before + part + after;
    assert(whole.subrange(before.len() as int, (before.len() + part.len()) as int) =~= part);
    assert(occurs_at(whole, part, before.len() as int));
    assert((part + after).subrange(0, part.len() as int) =~= part);
    let tail = before + part;
    assert(tail.subrange(before.len() as int, (before.len() + part.len()) as int) =~= part);
}

/// A text that contains another is made of something before it, the text, and something after.
pub proof fn law_contained_parts_are_there(whole: Seq<char>, part: Seq<char>)
    requires
        contains(whole, part),
    ensures
        exists|before: Seq<char>, after: Seq<char>| whole == #[trigger] (before + part + after),
{
    let at = choose|at: int| #[trigger] occurs_at(whole, part, at);
    let before = whole.take(at);
    let after = whole.skip(at + part.len());
    assert(whole.subrange(at, at + part.len()) == part);
    assert(whole =~= before + part + after);
}

/// A text comes before another where it ends first, or where it has the smaller character at the
/// first place at which they differ.
pub proof fn law_order_is_by_the_first_difference(common: Seq<char>, a: Seq<char>, b: Seq<char>)
    ensures
        text_less(common + a, common + b) == text_less(a, b),
        a.len() > 0 && b.len() > 0 && a[0] < b[0] ==> text_less(common + a, common + b),
        a.len() > 0 && b.len() > 0 && a[0] > b[0] ==> !text_less(common + a, common + b),
        a.len() == 0 && b.len() > 0 ==> text_less(common + a, common + b),
        b.len() == 0 ==> !text_less(common + a, common + b),
    decreases common.len(),
{
    if common.len() == 0 {
        assert(common + a == a);
        assert(common + b == b);
    } else {
        let rest = common.skip(1);
        assert((common + a).skip(1) == rest + a);
        assert((common + b).skip(1) == rest + b);
        law_order_is_by_the_first_difference(rest, a, b);
    }
}

/// A character is found at its first place.
pub proof fn law_characters_are_found_where_they_first_stand(text: Seq<char>, c: char, i: int)
    requires
        0 <= i <= text.len(),
        i < text.len() ==> text[i] == c,
        forall|j: int| 0 <= j < i ==> #[trigger] text[j] != c,
    ensures
        index_of(text, c) == i,
    decreases text.len(),
{
    if text.len() > 0 && i > 0 {
        assert(text[0] != c);
        let rest = text.skip(1);
        assert forall|j: int| 0 <= j < i - 1 implies #[trigger] rest[j] != c by {
            assert(text[j + 1] != c);
        }
        law_characters_are_found_where_they_first_stand(rest, c, i - 1);
    }
}

/// A character occurs as often as it stands in the text.
pub proof fn law_occurrences_are_counted(text: Seq<char>, c: char)
    ensures
        occurrences(text, c) == text.to_multiset().count(c),
    decreases text.len(),
{
    broadcast use vstd::seq_lib::group_to_multiset_ensures;

    if text.len() > 0 {
        let rest = text.drop_last();
        law_occurrences_are_counted(rest, c);
        assert(text == rest.push(text.last()));
    }
}

proof fn lemma_digit(value: int, radix: nat)
    requires
        0 <= value < radix,
        2 <= radix <= 16,
    ensures
        digit_value(digit_char(value), radix) == Some(value as nat),
        digit_char(value) != '+',
        value < 10 ==> digit_char(value) as u32 == '0' as u32 + value,
        value >= 10 ==> digit_char(value) as u32 == 'a' as u32 + (value - 10),
{
    assert(('0' as u8) + value <= 255);
    assert(('a' as u8) + (value - 10) <= 255);
}

proof fn lemma_read_digits(value: nat, radix: nat, max: nat)
    requires
        2 <= radix <= 16,
        value <= max,
    ensures
        read_digits(digits(value, radix), radix, max) == Ok::<nat, crate::text::NumberFault>(value),
        digits(value, radix).len() > 0,
        digits(value, radix)[0] != '+',
    decreases value,
{
    let text = digits(value, radix);
    if value < radix {
        lemma_digit(value as int, radix);
        assert(text.drop_last() == Seq::<char>::empty());
        assert(read_digits(text.drop_last(), radix, max) == Ok::<nat, crate::text::NumberFault>(0));
        assert(0 * radix == 0);
    } else {
        assert(value / radix < value) by (nonlinear_arith)
            requires
                value >= radix,
                radix >= 2,
        ;
        lemma_read_digits(value / radix, radix, max);
        lemma_digit((value % radix) as int, radix);
        assert(text.drop_last() == digits(value / radix, radix));
        vstd::arithmetic::div_mod::lemma_fundamental_div_mod(value as int, radix as int);
        assert((value / radix) * radix + value % radix == value) by (nonlinear_arith)
            requires
                value == radix * (value / radix) + value % radix,
        ;
    }
}

/// A number that is written in digits is read back as it was.
pub proof fn law_written_numbers_are_read_back(value: nat, radix: nat, max: nat)
    requires
        2 <= radix <= 16,
        value <= max,
    ensures
        read_number(digits(value, radix), radix, max) == Ok::<nat, crate::text::NumberFault>(value),
{
    lemma_read_digits(value, radix, max);
}

/// Zeros in front do not change a number that is read.
pub proof fn law_padding_does_not_change_the_number(
    value: nat,
    radix: nat,
    width: nat,
    max: nat,
)
    requires
        2 <= radix <= 16,
        value <= max,
    ensures
        read_number(padded_digits(value, radix, width), radix, max) == Ok::<
            nat,
            crate::text::NumberFault,
        >(value),
        padded_digits(value, radix, width).len() >= width,
{
    let plain = digits(value, radix);
    lemma_read_digits(value, radix, max);
    if plain.len() < width {
        let zeros = Seq::new((width - plain.len()) as nat, |i: int| '0');
        lemma_zeros(zeros, plain, radix, max);
        assert((zeros + plain)[0] == '0');
    }
}

proof fn lemma_zeros(zeros: Seq<char>, text: Seq<char>, radix: nat, max: nat)
    requires
        2 <= radix,
        forall|i: int| 0 <= i < zeros.len() ==> #[trigger] zeros[i] == '0',
    ensures
        read_digits(zeros + text, radix, max) == read_digits(text, radix, max),
    decreases zeros.len() + text.len(),
{
    let whole = zeros + text;
    if text.len() > 0 {
        assert(whole.drop_last() == zeros + text.drop_last());
        lemma_zeros(zeros, text.drop_last(), radix, max);
        assert(whole.last() == text.last());
    } else if zeros.len() > 0 {
        let fewer = zeros.drop_last();
        assert(whole.drop_last() == fewer + text);
        assert forall|i: int| 0 <= i < fewer.len() implies #[trigger] fewer[i] == '0' by {
            assert(zeros[i] == '0');
        }
        lemma_zeros(fewer, text, radix, max);
        assert(whole.last() == zeros[zeros.len() - 1]);
        assert(digit_value('0', radix) == Some(0nat));
        assert(0 * radix + 0 == 0);
    } else {
        assert(whole == text);
    }
}

/// The decimal digits of a number: the last is the remainder by ten, the others are those of the
/// tenth part.
pub proof fn law_decimal_digits_are_by_tens(value: nat)
    requires
        value >= 10,
    ensures
        decimal(value).last() as u32 == '0' as u32 + value % 10,
        decimal(value).drop_last() == decimal(value / 10),
{
    lemma_digit((value % 10) as int, 10);
    assert(decimal(value).drop_last() =~= decimal(value / 10));
}

/// Texts that hold no line end are the lines of the texts that are joined from them.
pub proof fn law_lines_end_with_line_feeds(line: Seq<char>, rest: Seq<char>)
    requires
        forall|i: int| 0 <= i < line.len() ==> #[trigger] line[i] != '\n',
        line.len() > 0 ==> line.last() != '\r',
    ensures
        lines(line.push('\n') + rest) == seq![line] + lines(rest),
        lines(line.push('\r').push('\n') + rest) == seq![line] + lines(rest),
        line.len() > 0 ==> lines(line) == seq![line],
{
    let n = line.len() as int;
    let plain = line.push('\n') + rest;
    assert(plain[n] == '\n');
    assert forall|j: int| 0 <= j < n implies #[trigger] plain[j] != '\n' by {
        assert(plain[j] == line[j]);
    }
    law_characters_are_found_where_they_first_stand(plain, '\n', n);
    assert(plain.take(n) == line);
    assert(plain.skip(n + 1) == rest);
    let returned = line.push('\r').push('\n') + rest;
    assert(returned[n + 1] == '\n');
    assert forall|j: int| 0 <= j < n + 1 implies #[trigger] returned[j] != '\n' by {
        if j < n {
            assert(returned[j] == line[j]);
        }
    }
    law_characters_are_found_where_they_first_stand(returned, '\n', n + 1);
    assert(returned.take(n + 1) == line.push('\r'));
    assert(line.push('\r').drop_last() == line);
    assert(returned.skip(n + 2) == rest);
    law_characters_are_found_where_they_first_stand(line, '\n', n);
}

} // verus!
