//! A normal form is its own normal form, and what it leaves out does not count.
use crate::normalize::{identifier, pci_address, plain_name, unspaced};
use crate::text::{
    in_class, lower, lower_char, occurrences, trim, trim_end, trim_start, upper, CharClass,
};
use crate::text_laws::{
    all_in, law_case_does_not_count, law_occurrences_are_counted, lemma_trim_end_with,
    lemma_trim_start_with,
};
use vstd::prelude::*;

verus! {

/// The text is empty, or neither its first nor its last character is white space.
spec fn is_trimmed(text: Seq<char>) -> bool {
    text.len() > 0 ==> !in_class(CharClass::White, text[0]) && !in_class(
        CharClass::White,
        text.last(),
    )
}

/// No character is an ASCII capital or ASCII white space.
spec fn is_plain(text: Seq<char>) -> bool {
    forall|i: int|
        0 <= i < text.len() ==> is_plain_char(#[trigger] text[i])
}

spec fn is_plain_char(c: char) -> bool {
    !('A' <= c <= 'Z') && !in_class(CharClass::AsciiWhite, c)
}

proof fn lemma_trim_end_trims(text: Seq<char>)
    requires
        text.len() > 0 ==> !in_class(CharClass::White, text[0]),
    ensures
        is_trimmed(trim_end(CharClass::White, text)),
    decreases text.len(),
{
    if text.len() > 0 && in_class(CharClass::White, text.last()) {
        let rest = text.drop_last();
        if rest.len() > 0 {
            assert(rest[0] == text[0]);
        }
        lemma_trim_end_trims(rest);
    }
}

proof fn lemma_trim_start_trims(text: Seq<char>)
    ensures
        ({
            let rest = trim_start(CharClass::White, text);
            rest.len() > 0 ==> !in_class(CharClass::White, rest[0])
        }),
    decreases text.len(),
{
    if text.len() > 0 && in_class(CharClass::White, text[0]) {
        lemma_trim_start_trims(text.skip(1));
    }
}

proof fn lemma_trim_trims(text: Seq<char>)
    ensures
        is_trimmed(trim(CharClass::White, text)),
{
    lemma_trim_start_trims(text);
    lemma_trim_end_trims(trim_start(CharClass::White, text));
}

/// Without its inner white space a text keeps its last character, where that is none.
proof fn lemma_unspaced(text: Seq<char>)
    requires
        forall|i: int| 0 <= i < text.len() ==> !('A' <= #[trigger] text[i] <= 'Z'),
    ensures
        is_plain(unspaced(text)),
        text.len() > 0 && !in_class(CharClass::AsciiWhite, text.last()) ==> unspaced(text).len()
            > 0 && unspaced(text).last() == text.last(),
        text.len() > 0 && !in_class(CharClass::AsciiWhite, text[0]) ==> unspaced(text).len() > 0
            && unspaced(text)[0] == text[0],
    decreases text.len(),
{
    if text.len() > 0 {
        let rest = text.drop_last();
        assert forall|i: int| 0 <= i < rest.len() implies !('A' <= #[trigger] rest[i] <= 'Z') by {
            assert(rest[i] == text[i]);
        }
        lemma_unspaced(rest);
        if rest.len() > 0 {
            assert(rest[0] == text[0]);
        } else {
            assert(unspaced(rest) == Seq::<char>::empty());
        }
        let shorter = unspaced(rest);
        let whole = unspaced(text);
        assert forall|i: int| 0 <= i < whole.len() implies is_plain_char(#[trigger] whole[i]) by {
            if i < shorter.len() {
                assert(whole[i] == shorter[i]);
            } else {
                assert(whole[i] == text.last());
                assert(text.last() == text[text.len() - 1]);
            }
        }
    }
}

proof fn lemma_unspaced_fixed(text: Seq<char>)
    requires
        is_plain(text),
    ensures
        unspaced(text) == text,
    decreases text.len(),
{
    if text.len() > 0 {
        let rest = text.drop_last();
        assert forall|i: int| 0 <= i < rest.len() implies is_plain_char(#[trigger] rest[i]) by {
            assert(rest[i] == text[i]);
        }
        lemma_unspaced_fixed(rest);
        assert(is_plain_char(text[text.len() - 1]));
        assert(rest.push(text.last()) == text);
    }
}

proof fn lemma_plain_fixed(text: Seq<char>)
    requires
        is_plain(text),
        is_trimmed(text),
    ensures
        identifier(text) == text,
{
    assert(trim(CharClass::White, text) == text);
    assert(lower(text) == text) by {
        assert forall|i: int| 0 <= i < text.len() implies lower(text)[i] == text[i] by {
            assert(is_plain_char(text[i]));
        }
    }
    lemma_unspaced_fixed(text);
}

proof fn lemma_identifier_plain(text: Seq<char>)
    ensures
        is_plain(identifier(text)),
        is_trimmed(identifier(text)),
{
    lemma_trim_trims(text);
    let inner = trim(CharClass::White, text);
    let small = lower(inner);
    assert forall|i: int| 0 <= i < small.len() implies !('A' <= #[trigger] small[i] <= 'Z') by {
        assert(small[i] == lower_char(inner[i]));
    }
    lemma_unspaced(small);
    if small.len() > 0 {
        assert(small[0] == lower_char(inner[0]));
        assert(small.last() == lower_char(inner.last()));
    }
}

/// An identifier in its normal form stays as it is.
pub proof fn law_normal_identifiers_are_fixed(text: Seq<char>)
    ensures
        identifier(identifier(text)) == identifier(text),
{
    lemma_identifier_plain(text);
    lemma_plain_fixed(identifier(text));
}

proof fn lemma_occurrences_added(first: Seq<char>, second: Seq<char>, c: char)
    ensures
        occurrences(first + second, c) == occurrences(first, c) + occurrences(second, c),
    decreases second.len(),
{
    let whole = first + second;
    if second.len() > 0 {
        assert(whole.drop_last() == first + second.drop_last());
        lemma_occurrences_added(first, second.drop_last(), c);
    } else {
        assert(whole == first);
    }
}

/// A PCI address in its normal form stays as it is.
pub proof fn law_normal_addresses_are_fixed(text: Seq<char>)
    ensures
        pci_address(pci_address(text)) == pci_address(text),
{
    let plain = identifier(text);
    lemma_identifier_plain(text);
    lemma_plain_fixed(plain);
    if occurrences(plain, ':') == 1 {
        reveal_strlit("0000:");
        let domain = "0000:"@;
        let whole = domain + plain;
        lemma_occurrences_added(domain, plain, ':');
        assert(occurrences(domain, ':') == 1) by {
            let zeros = domain.drop_last();
            assert(domain.last() == ':');
            lemma_no_occurrence(zeros, ':');
        }
        assert(plain.len() > 0);
        assert forall|i: int| 0 <= i < whole.len() implies is_plain_char(#[trigger] whole[i]) by {
            if i >= 5 {
                assert(whole[i] == plain[i - 5]);
            }
        }
        assert(whole[0] == '0');
        assert(whole.last() == plain.last());
        lemma_plain_fixed(whole);
    }
}

proof fn lemma_no_occurrence(text: Seq<char>, c: char)
    requires
        forall|i: int| 0 <= i < text.len() ==> #[trigger] text[i] != c,
    ensures
        occurrences(text, c) == 0,
    decreases text.len(),
{
    if text.len() > 0 {
        let rest = text.drop_last();
        assert forall|i: int| 0 <= i < rest.len() implies #[trigger] rest[i] != c by {
            assert(rest[i] == text[i]);
        }
        lemma_no_occurrence(rest, c);
        assert(text[text.len() - 1] != c);
    }
}

/// Small letters, digits and marks without white space are an identifier as they stand.
pub proof fn law_plain_identifiers_stay(text: Seq<char>)
    requires
        forall|i: int| 0 <= i < text.len() ==> !('A' <= #[trigger] text[i] <= 'Z'),
        forall|i: int|
            0 <= i < text.len() ==> !in_class(CharClass::White, #[trigger] text[i]),
    ensures
        identifier(text) == text,
{
    lemma_plain_fixed(text);
}

proof fn lemma_trim_upper(text: Seq<char>)
    ensures
        trim(CharClass::White, upper(text)) == upper(trim(CharClass::White, text)),
{
    lemma_trim_start_upper(text);
    lemma_trim_end_upper(trim_start(CharClass::White, text));
}

proof fn lemma_trim_start_upper(text: Seq<char>)
    ensures
        trim_start(CharClass::White, upper(text)) == upper(trim_start(CharClass::White, text)),
    decreases text.len(),
{
    if text.len() > 0 && in_class(CharClass::White, text[0]) {
        assert(upper(text).skip(1) =~= upper(text.skip(1)));
        lemma_trim_start_upper(text.skip(1));
    }
}

proof fn lemma_trim_end_upper(text: Seq<char>)
    ensures
        trim_end(CharClass::White, upper(text)) == upper(trim_end(CharClass::White, text)),
    decreases text.len(),
{
    if text.len() > 0 && in_class(CharClass::White, text.last()) {
        assert(upper(text).drop_last() =~= upper(text.drop_last()));
        lemma_trim_end_upper(text.drop_last());
    }
}

/// The case of an identifier or of an address does not count.
pub proof fn law_case_of_identifiers_does_not_count(text: Seq<char>)
    ensures
        identifier(upper(text)) == identifier(text),
        pci_address(upper(text)) == pci_address(text),
{
    lemma_trim_upper(text);
    law_case_does_not_count(trim(CharClass::White, text));
}

proof fn lemma_unspaced_added(first: Seq<char>, second: Seq<char>)
    ensures
        unspaced(first + second) == unspaced(first) + unspaced(second),
    decreases second.len(),
{
    let whole = first + second;
    if second.len() == 0 {
        assert(whole == first);
        assert(unspaced(first) + unspaced(second) == unspaced(first));
    } else {
        assert(whole.drop_last() == first + second.drop_last());
        lemma_unspaced_added(first, second.drop_last());
        assert(unspaced(whole) =~= unspaced(first) + unspaced(second));
    }
}

/// The identifier that is left of a text that needs no trimming at one end.
proof fn lemma_gap(first: Seq<char>, c: char, second: Seq<char>)
    requires
        in_class(CharClass::AsciiWhite, c),
    ensures
        unspaced(lower(first + seq![c] + second)) == unspaced(lower(first + second)),
{
    assert(lower(first + seq![c] + second) =~= lower(first) + seq![c] + lower(second));
    assert(lower(first + second) =~= lower(first) + lower(second));
    lemma_unspaced_added(lower(first) + seq![c], lower(second));
    lemma_unspaced_added(lower(first), seq![c]);
    lemma_unspaced_added(lower(first), lower(second));
    assert(seq![c].drop_last() =~= Seq::<char>::empty());
    assert(unspaced(Seq::<char>::empty()) == Seq::<char>::empty());
    assert(unspaced(seq![c]) == Seq::<char>::empty());
    assert(unspaced(lower(first)) + Seq::<char>::empty() =~= unspaced(lower(first)));
}

/// ASCII white space counts nowhere in an identifier.
pub proof fn law_white_space_in_identifiers_does_not_count(
    first: Seq<char>,
    c: char,
    second: Seq<char>,
)
    requires
        in_class(CharClass::AsciiWhite, c),
    ensures
        identifier(first + seq![c] + second) == identifier(first + second),
        pci_address(first + seq![c] + second) == pci_address(first + second),
{
    let white = CharClass::White;
    let gap = seq![c];
    assert(in_class(white, c));
    assert(all_in(white, gap));
    assert(first + gap + second == first + (gap + second));
    lemma_trim_start_with(white, first, gap + second);
    lemma_trim_start_with(white, first, second);
    lemma_trim_start_with(white, gap, second);
    if !all_in(white, first) {
        let head = trim_start(white, first);
        assert(head + (gap + second) == (head + gap) + second);
        lemma_trim_end_with(white, head + gap, second);
        lemma_trim_end_with(white, head, second);
        lemma_trim_end_with(white, head, gap);
        if !all_in(white, second) {
            lemma_gap(head, c, trim_end(white, second));
        }
    }
}

/// White space of any kind around an identifier does not count.
pub proof fn law_white_space_around_identifiers_does_not_count(
    before: Seq<char>,
    text: Seq<char>,
    after: Seq<char>,
)
    requires
        all_in(CharClass::White, before),
        all_in(CharClass::White, after),
    ensures
        identifier(before + text + after) == identifier(text),
        pci_address(before + text + after) == pci_address(text),
{
    let white = CharClass::White;
    assert(before + text + after == before + (text + after));
    lemma_trim_start_with(white, before, text + after);
    lemma_trim_start_with(white, text, after);
    if all_in(white, text) {
        lemma_trim_start_with(white, after, Seq::empty());
        assert(trim_start(white, after) =~= Seq::<char>::empty());
        assert(trim_start(white, text) =~= Seq::<char>::empty());
    } else {
        lemma_trim_end_with(white, trim_start(white, text), after);
    }
}

/// An address with one colon names no domain, and gets the domain `0000`; any other stays.
pub proof fn law_addresses_without_a_domain_get_one(text: Seq<char>)
    ensures
        identifier(text).to_multiset().count(':') == 1 ==> pci_address(text) == "0000:"@
            + identifier(text),
        identifier(text).to_multiset().count(':') != 1 ==> pci_address(text) == identifier(text),
{
    law_occurrences_are_counted(identifier(text), ':');
}

/// Names in their normal form, with one blank between them.
pub open spec fn joined(first: Seq<char>, second: Seq<char>) -> Seq<char> {
    if first.len() == 0 {
        second
    } else if second.len() == 0 {
        first
    } else {
        first + seq![' '] + second
    }
}

/// White space divides a name into words, with one blank between them in the normal form, however
/// much of it there is, and none around them.
pub proof fn law_white_space_divides_names(first: Seq<char>, c: char, second: Seq<char>)
    requires
        in_class(CharClass::White, c),
    ensures
        plain_name(first + seq![c] + second) == joined(plain_name(first), plain_name(second)),
    decreases second.len(),
{
    let whole = first + seq![c] + second;
    if second.len() == 0 {
        assert(whole.drop_last() == first);
        assert(whole.last() == c);
    } else {
        let rest = second.drop_last();
        assert(whole.drop_last() == first + seq![c] + rest);
        assert(whole.last() == second.last());
        law_white_space_divides_names(first, c, rest);
        if rest.len() == 0 {
            assert(plain_name(rest) == Seq::<char>::empty());
            assert(whole[whole.len() - 2] == c);
        } else {
            assert(whole[whole.len() - 2] == rest.last());
            assert(second[second.len() - 2] == rest.last());
        }
        assert(plain_name(whole) =~= joined(plain_name(first), plain_name(second)));
    }
}

/// A single word of a name is its lower case.
pub proof fn law_words_of_names_are_in_lower_case(word: Seq<char>)
    requires
        forall|i: int| 0 <= i < word.len() ==> !in_class(CharClass::White, #[trigger] word[i]),
    ensures
        plain_name(word) == lower(word),
    decreases word.len(),
{
    if word.len() > 0 {
        let rest = word.drop_last();
        assert forall|i: int| 0 <= i < rest.len() implies !in_class(
            CharClass::White,
            #[trigger] rest[i],
        ) by {
            assert(rest[i] == word[i]);
        }
        law_words_of_names_are_in_lower_case(rest);
        assert(!in_class(CharClass::White, word[word.len() - 1]));
        if word.len() > 1 {
            assert(!in_class(CharClass::White, word[word.len() - 2]));
        }
        assert(lower(word) =~= lower(rest).push(lower_char(word.last())));
    } else {
        assert(lower(word) =~= Seq::<char>::empty());
    }
}

} // verus!
