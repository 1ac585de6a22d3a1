//! Text as sequences of characters: trimming, case, searching, splitting, numbers.
use crate::ordered::{Ordered, Relation};
use vstd::prelude::*;
use vstd::utf8::{encode_utf8, valid_utf8};

verus! {

/// `String::push` of std appends one character.
pub assume_specification[ String::push ](text: &mut String, c: char)
    ensures
        final(text)@ == old(text)@.push(c),
;

/// `String::from_utf8` of std: the text that the bytes encode, where they are valid UTF-8.
#[verifier::external_body]
pub(crate) fn utf8_text(bytes: Vec<u8>) -> (text: Option<String>)
    ensures
        match text {
            Some(text) => valid_utf8(bytes@) && encode_utf8(text@) == bytes@,
            None => !valid_utf8(bytes@),
        },
{
    String::from_utf8(bytes).ok()
}

/// The characters of a text.
pub fn chars_of(text: &str) -> (chars: Vec<char>)
    ensures
        chars@ == text@,
{
    let mut chars: Vec<char> = Vec::new();
    for c in it: text.chars()
        invariant
            it.seq() == text@,
            chars@ == text@.take(it.index() as int),
    {
        chars.push(c);
    }
    chars
}

/// The text made of `chars`.
pub fn string_of(chars: &Vec<char>) -> (text: String)
    ensures
        text@ == chars@,
{
    let mut text = String::new();
    let mut i: usize = 0;
    while i < chars.len()
        invariant
            i <= chars.len(),
            text@ == chars@.take(i as int),
        decreases chars.len() - i,
    {
        text.push(chars[i]);
        i = i + 1;
    }
    assert(chars@.take(chars@.len() as int) == chars@);
    text
}

/// An owned copy of a text.
pub fn owned(text: &str) -> (copy: String)
    ensures
        copy@ == text@,
{
    text.to_owned()
}

/// Classes of characters that texts are trimmed or split by.
#[derive(Clone, Copy, Debug, PartialEq, Eq, Structural)]
pub enum CharClass {
    /// The Unicode White_Space property.
    White,
    /// Space, tab, line feed, form feed and carriage return.
    AsciiWhite,
    /// What kernel attributes are padded with: NUL, line breaks, blanks.
    Padding,
}

pub open spec fn in_class(class: CharClass, c: char) -> bool {
    match class {
        CharClass::White => {
            ||| '\u{9}' <= c <= '\u{d}'
            ||| c == '\u{20}'
            ||| c == '\u{85}'
            ||| c == '\u{a0}'
            ||| c == '\u{1680}'
            ||| '\u{2000}' <= c <= '\u{200a}'
            ||| c == '\u{2028}'
            ||| c == '\u{2029}'
            ||| c == '\u{202f}'
            ||| c == '\u{205f}'
            ||| c == '\u{3000}'
        },
        CharClass::AsciiWhite => {
            ||| c == '\u{20}'
            ||| c == '\u{9}'
            ||| c == '\u{a}'
            ||| c == '\u{c}'
            ||| c == '\u{d}'
        },
        CharClass::Padding => {
            ||| c == '\u{0}'
            ||| c == '\u{a}'
            ||| c == '\u{d}'
            ||| c == '\u{20}'
            ||| c == '\u{9}'
        },
    }
}

pub fn is_in_class(class: CharClass, c: char) -> (member: bool)
    ensures
        member == in_class(class, c),
{
    match class {
        CharClass::White => ('\u{9}' <= c && c <= '\u{d}') || c == '\u{20}' || c == '\u{85}' || c
            == '\u{a0}' || c == '\u{1680}' || ('\u{2000}' <= c && c <= '\u{200a}') || c
            == '\u{2028}' || c == '\u{2029}' || c == '\u{202f}' || c == '\u{205f}' || c
            == '\u{3000}',
        CharClass::AsciiWhite => c == '\u{20}' || c == '\u{9}' || c == '\u{a}' || c == '\u{c}' || c
            == '\u{d}',
        CharClass::Padding => c == '\u{0}' || c == '\u{a}' || c == '\u{d}' || c == '\u{20}' || c
            == '\u{9}',
    }
}

/// `text` without the leading characters of the class.
pub open spec fn trim_start(class: CharClass, text: Seq<char>) -> Seq<char>
    decreases text.len(),
{
    if text.len() > 0 && in_class(class, text[0]) {
        trim_start(class, text.skip(1))
    } else {
        text
    }
}

/// `text` without the trailing characters of the class.
pub open spec fn trim_end(class: CharClass, text: Seq<char>) -> Seq<char>
    decreases text.len(),
{
    if text.len() > 0 && in_class(class, text.last()) {
        trim_end(class, text.drop_last())
    } else {
        text
    }
}

/// `text` without the leading and trailing characters of the class.
pub open spec fn trim(class: CharClass, text: Seq<char>) -> Seq<char> {
    trim_end(class, trim_start(class, text))
}

/// The characters of `chars` from `from` up to `to`.
pub fn slice_of(chars: &Vec<char>, from: usize, to: usize) -> (part: Vec<char>)
    requires
        from <= to <= chars.len(),
    ensures
        part@ == chars@.subrange(from as int, to as int),
{
    let mut part: Vec<char> = Vec::new();
    let mut i: usize = from;
    while i < to
        invariant
            from <= i <= to <= chars.len(),
            part@ == chars@.subrange(from as int, i as int),
        decreases to - i,
    {
        part.push(chars[i]);
        i = i + 1;
        assert(chars@.subrange(from as int, i as int) == chars@.subrange(
            from as int,
            i - 1,
        ).push(chars@[i - 1]));
    }
    part
}

pub fn trimmed(class: CharClass, chars: &Vec<char>) -> (inner: Vec<char>)
    ensures
        inner@ == trim(class, chars@),
{
    let mut from: usize = 0;
    assert(chars@.skip(0) == chars@);
    while from < chars.len() && is_in_class(class, chars[from])
        invariant
            from <= chars.len(),
            trim_start(class, chars@) == trim_start(class, chars@.skip(from as int)),
        decreases chars.len() - from,
    {
        assert(chars@.skip(from as int).skip(1) == chars@.skip(from + 1));
        from = from + 1;
    }
    let ghost kept = chars@.skip(from as int);
    assert(trim_start(class, chars@) == kept);
    let mut to: usize = chars.len();
    assert(chars@.subrange(from as int, to as int) == kept);
    while to > from && is_in_class(class, chars[to - 1])
        invariant
            from <= to <= chars.len(),
            kept == chars@.skip(from as int),
            trim_end(class, kept) == trim_end(class, chars@.subrange(from as int, to as int)),
        decreases to,
    {
        assert(chars@.subrange(from as int, to as int).drop_last() == chars@.subrange(
            from as int,
            to - 1,
        ));
        to = to - 1;
    }
    slice_of(chars, from, to)
}

/// The ASCII lower-case form of a character; other characters are unchanged.
pub open spec fn lower_char(c: char) -> char {
    if 'A' <= c <= 'Z' {
        ((c as u8) + 32) as char
    } else {
        c
    }
}

/// The ASCII upper-case form of a character; other characters are unchanged.
pub open spec fn upper_char(c: char) -> char {
    if 'a' <= c <= 'z' {
        ((c as u8) - 32) as char
    } else {
        c
    }
}

pub open spec fn lower(text: Seq<char>) -> Seq<char> {
    text.map_values(|c: char| lower_char(c))
}

pub open spec fn upper(text: Seq<char>) -> Seq<char> {
    text.map_values(|c: char| upper_char(c))
}

pub fn to_lower_char(c: char) -> (lowered: char)
    ensures
        lowered == lower_char(c),
{
    if 'A' <= c && c <= 'Z' {
        ((c as u8) + 32) as char
    } else {
        c
    }
}

pub fn to_upper_char(c: char) -> (raised: char)
    ensures
        raised == upper_char(c),
{
    if 'a' <= c && c <= 'z' {
        ((c as u8) - 32) as char
    } else {
        c
    }
}

pub fn lowered(chars: &Vec<char>) -> (result: Vec<char>)
    ensures
        result@ == lower(chars@),
{
    let mut result: Vec<char> = Vec::new();
    let mut i: usize = 0;
    while i < chars.len()
        invariant
            i <= chars.len(),
            result@ == lower(chars@.take(i as int)),
        decreases chars.len() - i,
    {
        result.push(to_lower_char(chars[i]));
        i = i + 1;
        assert(result@ == lower(chars@.take(i as int)));
    }
    assert(chars@.take(i as int) == chars@);
    result
}

pub fn raised(chars: &Vec<char>) -> (result: Vec<char>)
    ensures
        result@ == upper(chars@),
{
    let mut result: Vec<char> = Vec::new();
    let mut i: usize = 0;
    while i < chars.len()
        invariant
            i <= chars.len(),
            result@ == upper(chars@.take(i as int)),
        decreases chars.len() - i,
    {
        result.push(to_upper_char(chars[i]));
        i = i + 1;
        assert(result@ == upper(chars@.take(i as int)));
    }
    assert(chars@.take(i as int) == chars@);
    result
}

/// `pattern` stands in `text` at position `at`.
pub open spec fn occurs_at(text: Seq<char>, pattern: Seq<char>, at: int) -> bool {
    &&& 0 <= at
    &&& at + pattern.len() <= text.len()
    &&& text.subrange(at, at + pattern.len()) == pattern
}

/// `pattern` stands somewhere in `text`.
pub open spec fn contains(text: Seq<char>, pattern: Seq<char>) -> bool {
    exists|at: int| #[trigger] occurs_at(text, pattern, at)
}

pub open spec fn starts_with(text: Seq<char>, pattern: Seq<char>) -> bool {
    occurs_at(text, pattern, 0)
}

pub open spec fn ends_with(text: Seq<char>, pattern: Seq<char>) -> bool {
    occurs_at(text, pattern, text.len() - pattern.len())
}

pub fn stands_at(chars: &Vec<char>, pattern: &Vec<char>, at: usize) -> (found: bool)
    ensures
        found == occurs_at(chars@, pattern@, at as int),
{
    if at > chars.len() || pattern.len() > chars.len() - at {
        return false;
    }
    let mut i: usize = 0;
    while i < pattern.len()
        invariant
            i <= pattern.len(),
            at + pattern.len() <= chars.len(),
            forall|k: int| 0 <= k < i ==> #[trigger] pattern@[k] == chars@[at + k],
        decreases pattern.len() - i,
    {
        if chars[at + i] != pattern[i] {
            assert(chars@.subrange(at as int, at + pattern.len())[i as int] != pattern@[i as int]);
            return false;
        }
        i = i + 1;
    }
    assert(chars@.subrange(at as int, at + pattern.len()) == pattern@);
    true
}

/// The first position at which `pattern` stands.
pub fn find(chars: &Vec<char>, pattern: &Vec<char>) -> (at: Option<usize>)
    ensures
        match at {
            Some(at) => occurs_at(chars@, pattern@, at as int) && forall|earlier: int|
                earlier < at ==> !#[trigger] occurs_at(chars@, pattern@, earlier),
            None => !contains(chars@, pattern@),
        },
{
    if pattern.len() > chars.len() {
        return None;
    }
    let last: usize = chars.len() - pattern.len();
    let mut at: usize = 0;
    loop
        invariant
            last == chars.len() - pattern.len(),
            at <= last,
            forall|earlier: int| earlier < at ==> !#[trigger] occurs_at(chars@, pattern@, earlier),
        decreases last - at,
    {
        if stands_at(chars, pattern, at) {
            return Some(at);
        }
        if at == last {
            return None;
        }
        at = at + 1;
    }
}

pub fn has(chars: &Vec<char>, pattern: &str) -> (found: bool)
    ensures
        found == contains(chars@, pattern@),
{
    let pattern = chars_of(pattern);
    match find(chars, &pattern) {
        Some(at) => true,
        None => false,
    }
}

pub fn begins(chars: &Vec<char>, pattern: &str) -> (found: bool)
    ensures
        found == starts_with(chars@, pattern@),
{
    let pattern = chars_of(pattern);
    stands_at(chars, &pattern, 0)
}

pub fn ends(chars: &Vec<char>, pattern: &str) -> (found: bool)
    ensures
        found == ends_with(chars@, pattern@),
{
    let pattern = chars_of(pattern);
    if pattern.len() > chars.len() {
        false
    } else {
        stands_at(chars, &pattern, chars.len() - pattern.len())
    }
}

/// The characters equal `text`.
pub fn same(chars: &Vec<char>, text: &str) -> (equal: bool)
    ensures
        equal == (chars@ == text@),
{
    let other = chars_of(text);
    if chars.len() != other.len() {
        return false;
    }
    let equal = stands_at(chars, &other, 0);
    assert(chars@.subrange(0, chars@.len() as int) == chars@);
    equal
}

/// Two texts hold the same characters.
pub fn same_text(a: &str, b: &str) -> (equal: bool)
    ensures
        equal == (a@ == b@),
{
    let a = chars_of(a);
    same(&a, b)
}

/// The first position of `c`, or the length where it does not occur.
pub open spec fn index_of(text: Seq<char>, c: char) -> int
    decreases text.len(),
{
    if text.len() == 0 || text[0] == c {
        0
    } else {
        1 + index_of(text.skip(1), c)
    }
}

pub proof fn lemma_index_of(text: Seq<char>, c: char)
    ensures
        0 <= index_of(text, c) <= text.len(),
        index_of(text, c) < text.len() ==> text[index_of(text, c)] == c,
        forall|i: int| 0 <= i < index_of(text, c) ==> #[trigger] text[i] != c,
    decreases text.len(),
{
    if text.len() != 0 && text[0] != c {
        lemma_index_of(text.skip(1), c);
        assert forall|i: int| 0 <= i < index_of(text, c) implies #[trigger] text[i] != c by {
            if i > 0 {
                assert(text.skip(1)[i - 1] == text[i]);
            }
        }
    }
}

/// The first position of `c` at or after `from`.
pub fn position_of(chars: &Vec<char>, c: char, from: usize) -> (at: usize)
    requires
        from <= chars.len(),
    ensures
        at == from + index_of(chars@.skip(from as int), c),
        from <= at <= chars.len(),
{
    let mut at: usize = from;
    while at < chars.len() && chars[at] != c
        invariant
            from <= at <= chars.len(),
            index_of(chars@.skip(from as int), c) == at - from + index_of(
                chars@.skip(at as int),
                c,
            ),
        decreases chars.len() - at,
    {
        assert(chars@.skip(at as int).skip(1) == chars@.skip(at + 1));
        at = at + 1;
    }
    at
}

/// How often `c` occurs.
pub open spec fn occurrences(text: Seq<char>, c: char) -> nat
    decreases text.len(),
{
    if text.len() == 0 {
        0
    } else {
        occurrences(text.drop_last(), c) + if text.last() == c {
            1nat
        } else {
            0nat
        }
    }
}

pub fn count_of(chars: &Vec<char>, c: char) -> (n: usize)
    ensures
        n == occurrences(chars@, c),
{
    let mut n: usize = 0;
    let mut i: usize = 0;
    while i < chars.len()
        invariant
            n <= i <= chars.len(),
            n == occurrences(chars@.take(i as int), c),
        decreases chars.len() - i,
    {
        assert(chars@.take(i + 1).drop_last() == chars@.take(i as int));
        if chars[i] == c {
            n = n + 1;
        }
        i = i + 1;
    }
    assert(chars@.take(i as int) == chars@);
    n
}

/// Appends `more` to `chars`.
pub fn extend(chars: &mut Vec<char>, more: &Vec<char>)
    ensures
        final(chars)@ == old(chars)@ + more@,
{
    let ghost before = chars@;
    let mut i: usize = 0;
    while i < more.len()
        invariant
            i <= more.len(),
            chars@ == before + more@.take(i as int),
        decreases more.len() - i,
    {
        chars.push(more[i]);
        i = i + 1;
        assert(more@.take(i as int) == more@.take(i - 1).push(more@[i - 1]));
    }
    assert(more@.take(i as int) == more@);
}

pub fn extend_text(chars: &mut Vec<char>, more: &str)
    ensures
        final(chars)@ == old(chars)@ + more@,
{
    let more = chars_of(more);
    extend(chars, &more);
}

/// Two texts one after the other.
pub fn joined(first: &str, second: &str) -> (text: String)
    ensures
        text@ == first@ + second@,
{
    let mut text = first.to_owned();
    text.append(second);
    text
}

/// Lexicographic order by code point, which is also the order of the encoded bytes.
pub open spec fn text_less(a: Seq<char>, b: Seq<char>) -> bool
    decreases a.len(),
{
    if b.len() == 0 {
        false
    } else if a.len() == 0 {
        true
    } else if a[0] == b[0] {
        text_less(a.skip(1), b.skip(1))
    } else {
        a[0] < b[0]
    }
}

pub proof fn lemma_text_less_irreflexive(a: Seq<char>)
    ensures
        !text_less(a, a),
    decreases a.len(),
{
    if a.len() > 0 {
        lemma_text_less_irreflexive(a.skip(1));
    }
}

pub proof fn lemma_text_less_transitive(a: Seq<char>, b: Seq<char>, c: Seq<char>)
    requires
        text_less(a, b),
        text_less(b, c),
    ensures
        text_less(a, c),
    decreases a.len(),
{
    if a.len() > 0 && a[0] == b[0] && b[0] == c[0] {
        lemma_text_less_transitive(a.skip(1), b.skip(1), c.skip(1));
    }
}

pub proof fn lemma_text_less_total(a: Seq<char>, b: Seq<char>)
    ensures
        text_less(a, b) || a == b || text_less(b, a),
    decreases a.len(),
{
    if a.len() > 0 && b.len() > 0 {
        if a[0] == b[0] {
            lemma_text_less_total(a.skip(1), b.skip(1));
            if a.skip(1) == b.skip(1) {
                assert(a == seq![a[0]] + a.skip(1));
                assert(b == seq![b[0]] + b.skip(1));
            }
        }
    } else if a.len() == 0 && b.len() == 0 {
        assert(a == b);
    }
}

/// How the text `a` stands to the text `b`.
pub fn relate_text(a: &str, b: &str) -> (relation: Relation)
    ensures
        match relation {
            Relation::Before => text_less(a@, b@),
            Relation::Same => a@ == b@,
            Relation::After => text_less(b@, a@),
        },
{
    let x = chars_of(a);
    let y = chars_of(b);
    let mut i: usize = 0;
    assert(x@.skip(0) == x@ && y@.skip(0) == y@);
    while i < x.len() && i < y.len() && x[i] == y[i]
        invariant
            i <= x.len(),
            i <= y.len(),
            x@.take(i as int) == y@.take(i as int),
            text_less(x@, y@) == text_less(x@.skip(i as int), y@.skip(i as int)),
            text_less(y@, x@) == text_less(y@.skip(i as int), x@.skip(i as int)),
        decreases x.len() - i,
    {
        assert(x@.skip(i as int).skip(1) == x@.skip(i + 1));
        assert(y@.skip(i as int).skip(1) == y@.skip(i + 1));
        assert(x@.take(i + 1) == x@.take(i as int).push(x@[i as int]));
        assert(y@.take(i + 1) == y@.take(i as int).push(y@[i as int]));
        i = i + 1;
    }
    if i == x.len() && i == y.len() {
        assert(x@.take(i as int) == x@ && y@.take(i as int) == y@);
        Relation::Same
    } else if i == x.len() {
        Relation::Before
    } else if i == y.len() {
        Relation::After
    } else if x[i] < y[i] {
        Relation::Before
    } else {
        Relation::After
    }
}

impl Ordered for String {
    type Model = Seq<char>;

    open spec fn model(&self) -> Seq<char> {
        self@
    }

    open spec fn less(a: Seq<char>, b: Seq<char>) -> bool {
        text_less(a, b)
    }

    proof fn less_irreflexive(a: Seq<char>) {
        lemma_text_less_irreflexive(a);
        assert(!Self::less(a, a));
    }

    proof fn less_transitive(a: Seq<char>, b: Seq<char>, c: Seq<char>) {
        lemma_text_less_transitive(a, b, c);
    }

    proof fn less_total(a: Seq<char>, b: Seq<char>) {
        lemma_text_less_total(a, b);
    }

    fn relation(&self, other: &Self) -> (relation: Relation) {
        relate_text(self.as_str(), other.as_str())
    }
}

/// The digit with the value `value` (lower case past nine).
pub open spec fn digit_char(value: int) -> char {
    if value < 10 {
        (('0' as u8) + value) as char
    } else {
        (('a' as u8) + (value - 10)) as char
    }
}

/// The digits of `value` in base `radix`, without leading zeros.
pub open spec fn digits(value: nat, radix: nat) -> Seq<char>
    decreases value,
{
    if radix < 2 || value < radix {
        seq![digit_char(value as int)]
    } else {
        proof {
            assert(value / radix < value) by (nonlinear_arith)
                requires
                    value >= radix,
                    radix >= 2,
            ;
        }
        digits(value / radix, radix).push(digit_char((value % radix) as int))
    }
}

/// The digits of `value`, padded with zeros to at least `width` characters.
pub open spec fn padded_digits(value: nat, radix: nat, width: nat) -> Seq<char> {
    let plain = digits(value, radix);
    if plain.len() < width {
        Seq::new((width - plain.len()) as nat, |i: int| '0') + plain
    } else {
        plain
    }
}

/// The decimal text of a number.
pub open spec fn decimal(value: nat) -> Seq<char> {
    digits(value, 10)
}

pub fn digits_of(value: u64, radix: u64) -> (result: Vec<char>)
    requires
        2 <= radix <= 16,
    ensures
        result@ == digits(value as nat, radix as nat),
    decreases value,
{
    let last: u8 = (value % radix) as u8;
    let c: char = if last < 10 {
        (('0' as u8) + last) as char
    } else {
        (('a' as u8) + (last - 10)) as char
    };
    if value < radix {
        let mut result: Vec<char> = Vec::new();
        result.push(c);
        assert(value % radix == value) by (nonlinear_arith)
            requires
                0 <= value < radix,
        ;
        assert(result@ == digits(value as nat, radix as nat));
        result
    } else {
        assert(value / radix < value) by (nonlinear_arith)
            requires
                value >= radix,
                radix >= 2,
        ;
        let mut result = digits_of(value / radix, radix);
        result.push(c);
        result
    }
}

pub fn padded_digits_of(value: u64, radix: u64, width: usize) -> (result: Vec<char>)
    requires
        2 <= radix <= 16,
    ensures
        result@ == padded_digits(value as nat, radix as nat, width as nat),
{
    let plain = digits_of(value, radix);
    if plain.len() >= width {
        return plain;
    }
    let mut result: Vec<char> = Vec::new();
    let missing: usize = width - plain.len();
    while result.len() < missing
        invariant
            result.len() <= missing,
            result@ == Seq::new(result@.len(), |i: int| '0'),
        decreases missing - result.len(),
    {
        result.push('0');
    }
    extend(&mut result, &plain);
    result
}

/// The decimal text of a number.
pub fn decimal_text(value: u64) -> (text: String)
    ensures
        text@ == decimal(value as nat),
{
    let digits = digits_of(value, 10);
    string_of(&digits)
}

/// The value of a digit in base `radix`.
pub open spec fn digit_value(c: char, radix: nat) -> Option<nat> {
    let value: nat = if '0' <= c <= '9' {
        (c as u32 - '0' as u32) as nat
    } else if 'a' <= c <= 'z' {
        (c as u32 - 'a' as u32 + 10) as nat
    } else if 'A' <= c <= 'Z' {
        (c as u32 - 'A' as u32 + 10) as nat
    } else {
        36
    };
    if value < radix {
        Some(value)
    } else {
        None
    }
}

pub fn value_of_digit(c: char, radix: u32) -> (value: Option<u32>)
    requires
        radix <= 36,
    ensures
        match value {
            Some(v) => digit_value(c, radix as nat) == Some(v as nat),
            None => digit_value(c, radix as nat) is None,
        },
{
    let value: u32 = if '0' <= c && c <= '9' {
        c as u32 - '0' as u32
    } else if 'a' <= c && c <= 'z' {
        c as u32 - 'a' as u32 + 10
    } else if 'A' <= c && c <= 'Z' {
        c as u32 - 'A' as u32 + 10
    } else {
        36
    };
    if value < radix {
        Some(value)
    } else {
        None
    }
}

/// Why a text is no unsigned number.
#[derive(Clone, Copy, Debug, PartialEq, Eq, Structural)]
pub enum NumberFault {
    Empty,
    InvalidDigit,
    TooLarge,
}

/// What reading digits from left to right gives: the value, or the first fault.
pub open spec fn read_digits(text: Seq<char>, radix: nat, max: nat) -> Result<nat, NumberFault>
    decreases text.len(),
{
    if text.len() == 0 {
        Ok(0)
    } else {
        match read_digits(text.drop_last(), radix, max) {
            Err(fault) => Err(fault),
            Ok(value) => match digit_value(text.last(), radix) {
                None => Err(NumberFault::InvalidDigit),
                Some(digit) => if value * radix + digit > max {
                    Err(NumberFault::TooLarge)
                } else {
                    Ok(value * radix + digit)
                },
            },
        }
    }
}

/// An unsigned number with an optional leading `+`.
pub open spec fn read_number(text: Seq<char>, radix: nat, max: nat) -> Result<nat, NumberFault> {
    if text.len() == 0 {
        Err(NumberFault::Empty)
    } else if text == seq!['+'] {
        Err(NumberFault::InvalidDigit)
    } else if text[0] == '+' {
        read_digits(text.skip(1), radix, max)
    } else {
        read_digits(text, radix, max)
    }
}

/// A result on natural numbers as one on machine integers.
pub open spec fn same_number(machine: Result<u64, NumberFault>, model: Result<nat, NumberFault>) -> bool {
    match (machine, model) {
        (Ok(a), Ok(b)) => a == b,
        (Err(a), Err(b)) => a == b,
        _ => false,
    }
}

proof fn lemma_fault_stays(text: Seq<char>, n: int, radix: nat, max: nat)
    requires
        0 <= n <= text.len(),
        read_digits(text.take(n), radix, max) is Err,
    ensures
        read_digits(text, radix, max) == read_digits(text.take(n), radix, max),
    decreases text.len() - n,
{
    if n == text.len() {
        assert(text.take(n) == text);
    } else {
        assert(text.take(n + 1).drop_last() == text.take(n));
        lemma_fault_stays(text, n + 1, radix, max);
    }
}

/// Reads an unsigned number no larger than `max`.
pub fn parse_number(chars: &Vec<char>, radix: u32, max: u64) -> (result: Result<u64, NumberFault>)
    requires
        2 <= radix <= 36,
    ensures
        same_number(result, read_number(chars@, radix as nat, max as nat)),
{
    if chars.len() == 0 {
        return Err(NumberFault::Empty);
    }
    let from: usize = if chars[0] == '+' {
        1
    } else {
        0
    };
    if from == 1 && chars.len() == 1 {
        assert(chars@ == seq!['+']);
        return Err(NumberFault::InvalidDigit);
    }
    let ghost body = chars@.skip(from as int);
    assert(from == 0 ==> body == chars@);
    assert(read_number(chars@, radix as nat, max as nat) == read_digits(
        body,
        radix as nat,
        max as nat,
    ));
    let mut value: u64 = 0;
    let mut i: usize = from;
    while i < chars.len()
        invariant
            2 <= radix <= 36,
            from <= i <= chars.len(),
            body == chars@.skip(from as int),
            read_digits(body.take(i - from), radix as nat, max as nat) == Ok::<nat, NumberFault>(
                value as nat,
            ),
            read_number(chars@, radix as nat, max as nat) == read_digits(
                body,
                radix as nat,
                max as nat,
            ),
        decreases chars.len() - i,
    {
        let ghost seen = body.take(i - from + 1);
        assert(seen.drop_last() == body.take(i - from));
        assert(seen.last() == chars@[i as int]);
        match value_of_digit(chars[i], radix) {
            None => {
                proof {
                    lemma_fault_stays(body, i - from + 1, radix as nat, max as nat);
                }
                return Err(NumberFault::InvalidDigit);
            },
            Some(digit) => {
                assert(value * radix <= 36 * u64::MAX) by (nonlinear_arith)
                    requires
                        0 <= value <= u64::MAX,
                        0 <= radix <= 36,
                ;
                let wide: u128 = value as u128 * radix as u128 + digit as u128;
                if wide > max as u128 {
                    proof {
                        lemma_fault_stays(body, i - from + 1, radix as nat, max as nat);
                    }
                    return Err(NumberFault::TooLarge);
                }
                value = wide as u64;
            },
        }
        i = i + 1;
    }
    assert(body.take(i - from) == body);
    Ok(value)
}

/// A line without the carriage return at its end.
pub open spec fn without_return(line: Seq<char>) -> Seq<char> {
    if line.len() > 0 && line.last() == '\r' {
        line.drop_last()
    } else {
        line
    }
}

/// The lines of a text; a line ends with a line feed, or a carriage return and a line feed.
pub open spec fn lines(text: Seq<char>) -> Seq<Seq<char>>
    decreases text.len(),
{
    if text.len() == 0 {
        Seq::empty()
    } else {
        let at = index_of(text, '\n');
        if at >= text.len() {
            seq![text]
        } else {
            proof {
                lemma_index_of(text, '\n');
            }
            seq![without_return(text.take(at))] + lines(text.skip(at + 1))
        }
    }
}

/// The contents of a list of texts.
pub open spec fn char_views(list: Seq<Vec<char>>) -> Seq<Seq<char>> {
    list.map_values(|chars: Vec<char>| chars@)
}

pub fn lines_of(chars: &Vec<char>) -> (result: Vec<Vec<char>>)
    ensures
        char_views(result@) == lines(chars@),
{
    let mut result: Vec<Vec<char>> = Vec::new();
    let mut from: usize = 0;
    assert(chars@.skip(0) == chars@);
    assert(char_views(result@) + lines(chars@) == lines(chars@));
    while from < chars.len()
        invariant
            from <= chars.len(),
            char_views(result@) + lines(chars@.skip(from as int)) == lines(chars@),
        decreases chars.len() - from,
    {
        let ghost rest = chars@.skip(from as int);
        let ghost held = char_views(result@);
        let at: usize = position_of(chars, '\n', from);
        if at == chars.len() {
            let line = slice_of(chars, from, at);
            assert(line@ == rest);
            result.push(line);
            assert(char_views(result@) == held.push(rest));
            assert(lines(rest) == seq![rest]);
            assert(lines(chars@.skip(chars@.len() as int)) == Seq::<Seq<char>>::empty());
            assert(chars@.skip(at as int) == chars@.skip(chars@.len() as int));
            from = at;
            assert(char_views(result@) + lines(chars@.skip(from as int)) == held + seq![rest]);
        } else {
            let to: usize = if at > from && chars[at - 1] == '\r' {
                at - 1
            } else {
                at
            };
            let line = slice_of(chars, from, to);
            proof {
                let plain = rest.take(at - from);
                assert(plain == chars@.subrange(from as int, at as int));
                assert(line@ == without_return(plain));
                assert(rest.skip(at - from + 1) == chars@.skip(at + 1));
            }
            result.push(line);
            assert(char_views(result@) == held.push(line@));
            from = at + 1;
            assert(char_views(result@) + lines(chars@.skip(from as int)) == held + (seq![line@]
                + lines(chars@.skip(from as int))));
        }
    }
    assert(lines(chars@.skip(from as int)) == Seq::<Seq<char>>::empty());
    result
}

/// Every character of `text` is an ASCII digit.
pub open spec fn all_digits(text: Seq<char>) -> bool {
    forall|i: int| 0 <= i < text.len() ==> '0' <= #[trigger] text[i] <= '9'
}

/// `from` up to the end is made of ASCII digits alone.
pub fn only_digits(chars: &Vec<char>) -> (result: bool)
    ensures
        result == all_digits(chars@),
{
    let mut i: usize = 0;
    while i < chars.len()
        invariant
            i <= chars.len(),
            forall|k: int| 0 <= k < i ==> '0' <= #[trigger] chars@[k] <= '9',
        decreases chars.len() - i,
    {
        if !('0' <= chars[i] && chars[i] <= '9') {
            return false;
        }
        i = i + 1;
    }
    true
}

/// What follows `prefix`.
pub fn strip_start(chars: &Vec<char>, prefix: &str) -> (rest: Option<Vec<char>>)
    ensures
        match rest {
            Some(rest) => starts_with(chars@, prefix@) && rest@ == chars@.skip(
                prefix@.len() as int,
            ),
            None => !starts_with(chars@, prefix@),
        },
{
    let pattern = chars_of(prefix);
    if stands_at(chars, &pattern, 0) {
        let rest = slice_of(chars, pattern.len(), chars.len());
        assert(rest@ == chars@.skip(prefix@.len() as int));
        Some(rest)
    } else {
        None
    }
}

/// What stands before `suffix`.
pub fn strip_end(chars: &Vec<char>, suffix: &str) -> (rest: Option<Vec<char>>)
    ensures
        match rest {
            Some(rest) => ends_with(chars@, suffix@) && rest@ == chars@.take(
                chars@.len() - suffix@.len(),
            ),
            None => !ends_with(chars@, suffix@),
        },
{
    let pattern = chars_of(suffix);
    if pattern.len() <= chars.len() && stands_at(chars, &pattern, chars.len() - pattern.len()) {
        let rest = slice_of(chars, 0, chars.len() - pattern.len());
        assert(rest@ == chars@.take(chars@.len() - suffix@.len()));
        Some(rest)
    } else {
        None
    }
}

/// The words that std has for a fault in a number.
pub open spec fn fault_words(fault: NumberFault) -> Seq<char> {
    match fault {
        NumberFault::Empty => "cannot parse integer from empty string"@,
        NumberFault::InvalidDigit => "invalid digit found in string"@,
        NumberFault::TooLarge => "number too large to fit in target type"@,
    }
}

pub fn fault_text(fault: NumberFault) -> (text: &'static str)
    ensures
        text@ == fault_words(fault),
{
    match fault {
        NumberFault::Empty => "cannot parse integer from empty string",
        NumberFault::InvalidDigit => "invalid digit found in string",
        NumberFault::TooLarge => "number too large to fit in target type",
    }
}

/// The first position at which `pattern` stands in `text`.
pub open spec fn first_at(text: Seq<char>, pattern: Seq<char>) -> int {
    choose|at: int| is_first_at(text, pattern, at)
}

/// `pattern` stands at `at` and nowhere before.
pub open spec fn is_first_at(text: Seq<char>, pattern: Seq<char>, at: int) -> bool {
    &&& occurs_at(text, pattern, at)
    &&& forall|earlier: int| earlier < at ==> !#[trigger] occurs_at(text, pattern, earlier)
}

/// The first position at which `pattern` stands, where it does.
pub fn find_text(chars: &Vec<char>, pattern: &str) -> (at: Option<usize>)
    ensures
        match at {
            Some(at) => contains(chars@, pattern@) && at == first_at(chars@, pattern@)
                && is_first_at(chars@, pattern@, at as int),
            None => !contains(chars@, pattern@),
        },
{
    let pattern = chars_of(pattern);
    match find(chars, &pattern) {
        None => None,
        Some(at) => {
            proof {
                assert(is_first_at(chars@, pattern@, at as int));
                let chosen = first_at(chars@, pattern@);
                assert(is_first_at(chars@, pattern@, chosen));
                if chosen < at {
                    assert(!occurs_at(chars@, pattern@, chosen));
                } else if at < chosen {
                    assert(!occurs_at(chars@, pattern@, at as int));
                }
            }
            Some(at)
        },
    }
}

/// Texts with a semicolon and a blank between them.
pub open spec fn enumerated(texts: Seq<Seq<char>>) -> Seq<char>
    decreases texts.len(),
{
    if texts.len() == 0 {
        Seq::empty()
    } else if texts.len() == 1 {
        texts[0]
    } else {
        enumerated(texts.drop_last()) + "; "@ + texts.last()
    }
}

pub fn enumerate_texts(texts: &Vec<String>) -> (text: String)
    ensures
        text@ == enumerated(texts@.map_values(|text: String| text@)),
{
    let ghost all = texts@.map_values(|text: String| text@);
    let mut out: Vec<char> = Vec::new();
    let mut i: usize = 0;
    assert(all.take(0) == Seq::<Seq<char>>::empty());
    while i < texts.len()
        invariant
            i <= texts.len(),
            all == texts@.map_values(|text: String| text@),
            out@ == enumerated(all.take(i as int)),
        decreases texts.len() - i,
    {
        assert(all.take(i + 1).drop_last() == all.take(i as int));
        assert(all.take(i + 1).last() == texts@[i as int]@);
        if i > 0 {
            extend_text(&mut out, "; ");
        }
        extend_text(&mut out, texts[i].as_str());
        i = i + 1;
        assert(out@ == enumerated(all.take(i as int)));
    }
    assert(all.take(i as int) == all);
    string_of(&out)
}

/// The contents of a list of literals.
pub open spec fn str_views(names: Seq<&'static str>) -> Seq<Seq<char>> {
    names.map_values(|n: &'static str| n@)
}

/// A name as a list of one, where its flag is set.
pub open spec fn named(flag: bool, name: Seq<char>) -> Seq<Seq<char>> {
    if flag {
        seq![name]
    } else {
        Seq::empty()
    }
}

pub fn push_named(names: &mut Vec<&'static str>, flag: bool, name: &'static str)
    ensures
        str_views(final(names)@) == str_views(old(names)@) + named(flag, name@),
{
    let ghost before = str_views(names@);
    if flag {
        names.push(name);
    }
    assert(str_views(names@) == before + named(flag, name@));
}

} // verus!
