//! Normal forms of identifiers, PCI addresses and names.
use crate::text::{
    chars_of, count_of, extend, in_class, is_in_class, lower, lower_char, lowered, occurrences,
    string_of, to_lower_char, trim, trimmed, CharClass,
};
use vstd::prelude::*;

verus! {

/// `text` without ASCII white space.
pub open spec fn unspaced(text: Seq<char>) -> Seq<char>
    decreases text.len(),
{
    if text.len() == 0 {
        Seq::empty()
    } else if in_class(CharClass::AsciiWhite, text.last()) {
        unspaced(text.drop_last())
    } else {
        unspaced(text.drop_last()).push(text.last())
    }
}

/// An identifier in its normal form: trimmed, in ASCII lower case, without ASCII white space.
pub open spec fn identifier(text: Seq<char>) -> Seq<char> {
    unspaced(lower(trim(CharClass::White, text)))
}

/// A PCI address in its normal form, with the domain `0000` where it names none.
pub open spec fn pci_address(text: Seq<char>) -> Seq<char> {
    let plain = identifier(text);
    if occurrences(plain, ':') == 1 {
        "0000:"@ + plain
    } else {
        plain
    }
}

fn identifier_chars(value: &str) -> (result: Vec<char>)
    ensures
        result@ == identifier(value@),
{
    let chars = chars_of(value);
    let inner = trimmed(CharClass::White, &chars);
    let small = lowered(&inner);
    let mut result: Vec<char> = Vec::new();
    let mut i: usize = 0;
    while i < small.len()
        invariant
            i <= small.len(),
            result@ == unspaced(small@.take(i as int)),
        decreases small.len() - i,
    {
        assert(small@.take(i + 1).drop_last() == small@.take(i as int));
        if !is_in_class(CharClass::AsciiWhite, small[i]) {
            result.push(small[i]);
        }
        i = i + 1;
    }
    assert(small@.take(i as int) == small@);
    result
}

pub fn normalize_identifier(value: &str) -> (result: String)
    ensures
        result@ == identifier(value@),
{
    let chars = identifier_chars(value);
    string_of(&chars)
}

pub fn normalize_pci_address(value: &str) -> (result: String)
    ensures
        result@ == pci_address(value@),
{
    let plain = identifier_chars(value);
    if count_of(&plain, ':') == 1 {
        let mut chars = chars_of("0000:");
        extend(&mut chars, &plain);
        string_of(&chars)
    } else {
        string_of(&plain)
    }
}

/// A name in its normal form: its words in ASCII lower case with one blank between them.
pub open spec fn plain_name(text: Seq<char>) -> Seq<char>
    decreases text.len(),
{
    if text.len() == 0 {
        Seq::empty()
    } else {
        let before = plain_name(text.drop_last());
        let c = text.last();
        if in_class(CharClass::White, c) {
            before
        } else if before.len() > 0 && in_class(CharClass::White, text[text.len() - 2]) {
            before.push(' ').push(lower_char(c))
        } else {
            before.push(lower_char(c))
        }
    }
}

pub fn normalize_name(value: &str) -> (result: String)
    ensures
        result@ == plain_name(value@),
{
    let chars = chars_of(value);
    let mut result: Vec<char> = Vec::new();
    let mut i: usize = 0;
    while i < chars.len()
        invariant
            i <= chars.len(),
            result@ == plain_name(chars@.take(i as int)),
        decreases chars.len() - i,
    {
        assert(chars@.take(i + 1).drop_last() == chars@.take(i as int));
        let c: char = chars[i];
        if !is_in_class(CharClass::White, c) {
            proof {
                if i == 0 {
                    assert(chars@.take(0) == Seq::<char>::empty());
                }
            }
            if result.len() > 0 && is_in_class(CharClass::White, chars[i - 1]) {
                result.push(' ');
            }
            result.push(to_lower_char(c));
        }
        i = i + 1;
    }
    assert(chars@.take(i as int) == chars@);
    string_of(&result)
}

} // verus!
