//! Text as sequences of characters: searching, trimming, ordering and formatting.

use vstd::prelude::*;
use vstd::string::*;
use vstd::utf8::*;

verus! {

/// `String::push` appends one character.
pub assume_specification[ String::push ](text: &mut String, character: char)
    ensures
        final(text)@ == old(text)@.push(character),
;

/// The characters of a text.
pub fn to_chars(text: &str) -> (chars: Vec<char>)
    ensures
        chars@ == text@,
{
    let mut chars: Vec<char> = Vec::new();
    for character in it: text.chars()
        invariant
            it.seq() == text@,
            chars@ == text@.take(it.index() as int),
    {
        chars.push(character);
        assert(text@.take(it.index() as int).push(character) =~= text@.take(it.index() + 1));
    }
    assert(text@.take(text@.len() as int) =~= text@);
    chars
}

/// The text made of the characters at positions `from..to`.
pub fn from_chars(chars: &Vec<char>, from: usize, to: usize) -> (text: String)
    requires
        from <= to <= chars@.len(),
    ensures
        text@ == chars@.subrange(from as int, to as int),
{
    let mut text = String::new();
    let mut index: usize = from;
    while index < to
        invariant
            from <= index <= to <= chars@.len(),
            text@ == chars@.subrange(from as int, index as int),
        decreases to - index,
    {
        text.push(chars[index]);
        assert(chars@.subrange(from as int, index as int).push(chars@[index as int])
            =~= chars@.subrange(from as int, index + 1));
        index += 1;
    }
    text
}

/// Whether two texts hold the same characters.
pub fn same_text(left: &str, right: &str) -> (same: bool)
    ensures
        same == (left@ == right@),
{
    let left_bytes = left.as_bytes();
    let right_bytes = right.as_bytes();
    proof {
        encode_utf8_decode_utf8(left@);
        encode_utf8_decode_utf8(right@);
    }
    if left_bytes.len() != right_bytes.len() {
        return false;
    }
    let mut index: usize = 0;
    while index < left_bytes.len()
        invariant
            index <= left_bytes@.len(),
            left_bytes@.len() == right_bytes@.len(),
            left_bytes@ == encode_utf8(left@),
            right_bytes@ == encode_utf8(right@),
            left_bytes@.take(index as int) == right_bytes@.take(index as int),
        decreases left_bytes@.len() - index,
    {
        if left_bytes[index] != right_bytes[index] {
            return false;
        }
        assert(left_bytes@.take(index + 1) =~= left_bytes@.take(index as int).push(left_bytes@[index as int]));
        assert(right_bytes@.take(index + 1) =~= right_bytes@.take(index as int).push(right_bytes@[index as int]));
        index += 1;
    }
    assert(left_bytes@.take(index as int) =~= left_bytes@);
    assert(right_bytes@.take(index as int) =~= right_bytes@);
    true
}

/// Two texts, one after the other.
pub fn concat(first: &str, second: &str) -> (text: String)
    ensures
        text@ == first@ + second@,
{
    let mut text = first.to_owned();
    text.append(second);
    text
}

/// The texts one after the other, with `separator` between neighbours.
pub open spec fn joined(parts: Seq<Seq<char>>, separator: Seq<char>) -> Seq<char>
    decreases parts.len(),
{
    if parts.len() == 0 {
        seq![]
    } else if parts.len() == 1 {
        parts[0]
    } else {
        joined(parts.drop_last(), separator) + separator + parts.last()
    }
}

/// The characters of each text of a list.
pub open spec fn views(texts: Seq<String>) -> Seq<Seq<char>> {
    Seq::new(texts.len(), |i: int| texts[i]@)
}

/// Joins `parts` with `separator` between neighbours.
pub fn join(parts: &Vec<String>, separator: &str) -> (text: String)
    ensures
        text@ == joined(views(parts@), separator@),
{
    let mut text = String::new();
    let mut index: usize = 0;
    assert(views(parts@).take(0) =~= seq![]);
    while index < parts.len()
        invariant
            index <= parts@.len(),
            text@ == joined(views(parts@).take(index as int), separator@),
        decreases parts@.len() - index,
    {
        let ghost done = views(parts@).take(index + 1);
        assert(done.drop_last() =~= views(parts@).take(index as int));
        assert(done.last() == parts@[index as int]@);
        if index > 0 {
            text.append(separator);
        }
        text.append(parts[index].as_str());
        assert(text@ =~= joined(done, separator@));
        index += 1;
    }
    assert(views(parts@).take(index as int) =~= views(parts@));
    text
}

/// `pattern` stands in `text` at position `at`.
pub open spec fn occurs_at(text: Seq<char>, pattern: Seq<char>, at: int) -> bool {
    &&& 0 <= at
    &&& at + pattern.len() <= text.len()
    &&& text.subrange(at, at + pattern.len()) == pattern
}

pub open spec fn starts_with(text: Seq<char>, pattern: Seq<char>) -> bool {
    occurs_at(text, pattern, 0)
}

pub open spec fn ends_with(text: Seq<char>, pattern: Seq<char>) -> bool {
    occurs_at(text, pattern, text.len() - pattern.len())
}

pub open spec fn contains(text: Seq<char>, pattern: Seq<char>) -> bool {
    exists|at: int| occurs_at(text, pattern, at)
}

/// Whether `pattern` stands in `text` at position `at`.
pub fn matches_at(text: &Vec<char>, pattern: &Vec<char>, at: usize) -> (found: bool)
    ensures
        found == occurs_at(text@, pattern@, at as int),
{
    if at > text.len() || pattern.len() > text.len() - at {
        return false;
    }
    let total: usize = text.len();
    let mut index: usize = 0;
    while index < pattern.len()
        invariant
            index <= pattern@.len(),
            total == text@.len(),
            at + pattern@.len() <= total,
            text@.subrange(at as int, at + index) == pattern@.take(index as int),
        decreases pattern@.len() - index,
    {
        if text[at + index] != pattern[index] {
            assert(text@.subrange(at as int, at + pattern@.len())[index as int] != pattern@[index as int]);
            return false;
        }
        assert(text@.subrange(at as int, at + index + 1)
            =~= text@.subrange(at as int, at + index).push(text@[at + index]));
        assert(pattern@.take(index + 1) =~= pattern@.take(index as int).push(pattern@[index as int]));
        index += 1;
    }
    assert(pattern@.take(index as int) =~= pattern@);
    true
}

/// Whether `text` begins with `pattern`.
pub fn has_prefix(text: &Vec<char>, pattern: &str) -> (found: bool)
    ensures
        found == starts_with(text@, pattern@),
{
    let pattern_chars = to_chars(pattern);
    matches_at(text, &pattern_chars, 0)
}

/// Whether `text` ends with `pattern`.
pub fn has_suffix(text: &Vec<char>, pattern: &str) -> (found: bool)
    ensures
        found == ends_with(text@, pattern@),
{
    let pattern_chars = to_chars(pattern);
    if pattern_chars.len() > text.len() {
        return false;
    }
    matches_at(text, &pattern_chars, text.len() - pattern_chars.len())
}

/// Whether `pattern` stands anywhere in `text`.
pub fn has_part(text: &Vec<char>, pattern: &str) -> (found: bool)
    ensures
        found == contains(text@, pattern@),
{
    let pattern_chars = to_chars(pattern);
    if pattern_chars.len() > text.len() {
        return false;
    }
    let last: usize = text.len() - pattern_chars.len();
    let mut at: usize = 0;
    while at <= last
        invariant
            at <= last + 1,
            last == text@.len() - pattern_chars@.len(),
            pattern_chars@ == pattern@,
            forall|i: int| 0 <= i < at ==> !occurs_at(text@, pattern@, i),
        decreases last + 1 - at,
    {
        if matches_at(text, &pattern_chars, at) {
            return true;
        }
        if at == last {
            assert forall|i: int| !occurs_at(text@, pattern@, i) by {
                if i == at {
                }
            }
            return false;
        }
        at += 1;
    }
    false
}

/// The lower-case form of an ASCII letter; any other character unchanged.
pub open spec fn ascii_lower(character: char) -> char {
    if 'A' <= character <= 'Z' {
        (character as u32 + 32) as char
    } else {
        character
    }
}

/// The upper-case form of an ASCII letter; any other character unchanged.
pub open spec fn ascii_upper(character: char) -> char {
    if 'a' <= character <= 'z' {
        (character as u32 - 32) as char
    } else {
        character
    }
}

pub open spec fn lowered(text: Seq<char>) -> Seq<char> {
    Seq::new(text.len(), |i: int| ascii_lower(text[i]))
}

pub open spec fn raised(text: Seq<char>) -> Seq<char> {
    Seq::new(text.len(), |i: int| ascii_upper(text[i]))
}

/// The characters of `text` with its ASCII letters in lower case.
pub fn lower_chars(text: &str) -> (chars: Vec<char>)
    ensures
        chars@ == lowered(text@),
{
    let mut chars = to_chars(text);
    let mut index: usize = 0;
    while index < chars.len()
        invariant
            index <= chars@.len(),
            chars@.len() == text@.len(),
            forall|i: int| 0 <= i < index ==> chars@[i] == ascii_lower(text@[i]),
            forall|i: int| index <= i < chars@.len() ==> chars@[i] == text@[i],
        decreases chars@.len() - index,
    {
        let character = chars[index];
        if 'A' <= character && character <= 'Z' {
            chars.set(index, (character as u8 + 32) as char);
        }
        index += 1;
    }
    assert(chars@ =~= lowered(text@));
    chars
}

/// The characters of `text` with its ASCII letters in upper case.
pub fn upper_chars(text: &str) -> (chars: Vec<char>)
    ensures
        chars@ == raised(text@),
{
    let mut chars = to_chars(text);
    let mut index: usize = 0;
    while index < chars.len()
        invariant
            index <= chars@.len(),
            chars@.len() == text@.len(),
            forall|i: int| 0 <= i < index ==> chars@[i] == ascii_upper(text@[i]),
            forall|i: int| index <= i < chars@.len() ==> chars@[i] == text@[i],
        decreases chars@.len() - index,
    {
        let character = chars[index];
        if 'a' <= character && character <= 'z' {
            chars.set(index, (character as u8 - 32) as char);
        }
        index += 1;
    }
    assert(chars@ =~= raised(text@));
    chars
}

/// What is stripped from the ends of a text.
#[derive(Clone, Copy, PartialEq, Eq, Structural, Debug)]
pub enum Padding {
    /// Characters with the Unicode property `White_Space`.
    WhiteSpace,
    /// The character U+0000.
    Nul,
    /// The letters `v` and `V` in front of a version number.
    VersionLetter,
}

/// The Unicode property `White_Space`.
pub open spec fn is_white_space(character: char) -> bool {
    let code = character as u32;
    ||| 0x09 <= code <= 0x0d
    ||| code == 0x20
    ||| code == 0x85
    ||| code == 0xa0
    ||| code == 0x1680
    ||| 0x2000 <= code <= 0x200a
    ||| code == 0x2028
    ||| code == 0x2029
    ||| code == 0x202f
    ||| code == 0x205f
    ||| code == 0x3000
}

impl Padding {
    pub open spec fn covers(self, character: char) -> bool {
        match self {
            Padding::WhiteSpace => is_white_space(character),
            Padding::Nul => character as u32 == 0,
            Padding::VersionLetter => character == 'v' || character == 'V',
        }
    }

    fn test(self, character: char) -> (covered: bool)
        ensures
            covered == self.covers(character),
    {
        let code: u32 = character as u32;
        match self {
            Padding::WhiteSpace => (0x09 <= code && code <= 0x0d) || code == 0x20 || code == 0x85
                || code == 0xa0 || code == 0x1680 || (0x2000 <= code && code <= 0x200a)
                || code == 0x2028 || code == 0x2029 || code == 0x202f || code == 0x205f
                || code == 0x3000,
            Padding::Nul => code == 0,
            Padding::VersionLetter => character == 'v' || character == 'V',
        }
    }
}

/// `text` without the padding in front of it.
pub open spec fn without_start(text: Seq<char>, padding: Padding) -> Seq<char>
    decreases text.len(),
{
    if text.len() > 0 && padding.covers(text.first()) {
        without_start(text.drop_first(), padding)
    } else {
        text
    }
}

/// `text` without the padding behind it.
pub open spec fn without_end(text: Seq<char>, padding: Padding) -> Seq<char>
    decreases text.len(),
{
    if text.len() > 0 && padding.covers(text.last()) {
        without_end(text.drop_last(), padding)
    } else {
        text
    }
}

/// `text` without the padding at both of its ends.
pub open spec fn trimmed(text: Seq<char>, padding: Padding) -> Seq<char> {
    without_end(without_start(text, padding), padding)
}

/// Whether `text` holds nothing but padding.
pub open spec fn is_blank(text: Seq<char>) -> bool {
    forall|i: int| 0 <= i < text.len() ==> is_white_space(#[trigger] text[i])
}

/// The number of padding characters in front of `chars`.
pub fn padding_before(chars: &Vec<char>, padding: Padding) -> (start: usize)
    ensures
        start <= chars@.len(),
        chars@.skip(start as int) == without_start(chars@, padding),
{
    let mut start: usize = 0;
    assert(chars@.skip(0) =~= chars@);
    while start < chars.len() && padding.test(chars[start])
        invariant
            start <= chars@.len(),
            without_start(chars@, padding) == without_start(chars@.skip(start as int), padding),
        decreases chars@.len() - start,
    {
        assert(chars@.skip(start as int).first() == chars@[start as int]);
        assert(chars@.skip(start as int).drop_first() =~= chars@.skip(start + 1));
        start += 1;
    }
    proof {
        if start < chars@.len() {
            assert(chars@.skip(start as int).first() == chars@[start as int]);
        }
    }
    start
}

/// Strips the padding at both ends of `text`.
pub fn trim(text: &str, padding: Padding) -> (kept: String)
    ensures
        kept@ == trimmed(text@, padding),
{
    let chars = to_chars(text);
    let start = padding_before(&chars, padding);
    let mut end: usize = chars.len();
    let ghost body = chars@.skip(start as int);
    assert(chars@.subrange(start as int, end as int) =~= body);
    while end > start && padding.test(chars[end - 1])
        invariant
            start <= end <= chars@.len(),
            body == chars@.skip(start as int),
            without_end(body, padding) == without_end(
                chars@.subrange(start as int, end as int),
                padding,
            ),
        decreases end,
    {
        let ghost part = chars@.subrange(start as int, end as int);
        assert(part.last() == chars@[end - 1]);
        assert(part.drop_last() =~= chars@.subrange(start as int, end - 1));
        end -= 1;
    }
    proof {
        let part = chars@.subrange(start as int, end as int);
        if end > start {
            assert(part.last() == chars@[end - 1]);
        }
    }
    from_chars(&chars, start, end)
}

/// Whether every character of `text` is white space.
pub fn blank(text: &str) -> (all: bool)
    ensures
        all == is_blank(text@),
{
    let chars = to_chars(text);
    let mut index: usize = 0;
    while index < chars.len()
        invariant
            index <= chars@.len(),
            chars@ == text@,
            forall|i: int| 0 <= i < index ==> is_white_space(#[trigger] text@[i]),
        decreases chars@.len() - index,
    {
        if !Padding::WhiteSpace.test(chars[index]) {
            assert(!is_white_space(text@[index as int]));
            return false;
        }
        index += 1;
    }
    true
}

/// A text is blank exactly when trimming white space leaves nothing of it.
pub proof fn lemma_blank_is_trimmed_empty(text: Seq<char>)
    ensures
        is_blank(text) <==> trimmed(text, Padding::WhiteSpace).len() == 0,
{
    lemma_without_start_blank(text);
    let rest = without_start(text, Padding::WhiteSpace);
    lemma_without_end_keeps(rest);
}

proof fn lemma_without_start_blank(text: Seq<char>)
    ensures
        is_blank(text) <==> without_start(text, Padding::WhiteSpace).len() == 0,
        without_start(text, Padding::WhiteSpace).len() > 0 ==> !is_white_space(
            without_start(text, Padding::WhiteSpace).first(),
        ),
    decreases text.len(),
{
    if text.len() > 0 && is_white_space(text.first()) {
        lemma_without_start_blank(text.drop_first());
        assert(text =~= seq![text.first()] + text.drop_first());
        if is_blank(text.drop_first()) {
            assert forall|i: int| 0 <= i < text.len() implies is_white_space(#[trigger] text[i]) by {
                if i > 0 {
                    assert(text[i] == text.drop_first()[i - 1]);
                }
            }
        }
        if is_blank(text) {
            assert forall|i: int| 0 <= i < text.drop_first().len() implies is_white_space(
                #[trigger] text.drop_first()[i],
            ) by {
                assert(text.drop_first()[i] == text[i + 1]);
            }
        }
    } else if text.len() > 0 {
        assert(text.first() == text[0]);
    }
}

proof fn lemma_without_end_keeps(text: Seq<char>)
    requires
        text.len() > 0 ==> !is_white_space(text.first()),
    ensures
        without_end(text, Padding::WhiteSpace).len() == 0 <==> text.len() == 0,
    decreases text.len(),
{
    if text.len() > 0 && is_white_space(text.last()) {
        assert(text.drop_last().len() > 0);
        assert(text.drop_last().first() == text.first());
        lemma_without_end_keeps(text.drop_last());
    }
}

/// Lexicographic order of texts by code point: `left` stands before `right` or is the same text.
pub open spec fn text_le(left: Seq<char>, right: Seq<char>) -> bool
    decreases left.len(),
{
    if left.len() == 0 {
        true
    } else if right.len() == 0 {
        false
    } else if left.first() != right.first() {
        left.first() < right.first()
    } else {
        text_le(left.drop_first(), right.drop_first())
    }
}

/// The order of texts is total.
pub proof fn lemma_text_le_total(left: Seq<char>, right: Seq<char>)
    ensures
        text_le(left, right) || text_le(right, left),
    decreases left.len(),
{
    if left.len() > 0 && right.len() > 0 && left.first() == right.first() {
        lemma_text_le_total(left.drop_first(), right.drop_first());
    }
}

/// The order of texts is transitive.
pub proof fn lemma_text_le_transitive(first: Seq<char>, second: Seq<char>, third: Seq<char>)
    requires
        text_le(first, second),
        text_le(second, third),
    ensures
        text_le(first, third),
    decreases first.len(),
{
    if first.len() > 0 && second.len() > 0 && third.len() > 0 && first.first() == second.first()
        && second.first() == third.first() {
        lemma_text_le_transitive(first.drop_first(), second.drop_first(), third.drop_first());
    }
}

/// Only equal texts stand before each other.
pub proof fn lemma_text_le_antisymmetric(left: Seq<char>, right: Seq<char>)
    requires
        text_le(left, right),
        text_le(right, left),
    ensures
        left == right,
    decreases left.len(),
{
    if left.len() > 0 && right.len() > 0 {
        lemma_text_le_antisymmetric(left.drop_first(), right.drop_first());
        assert(left =~= seq![left.first()] + left.drop_first());
        assert(right =~= seq![right.first()] + right.drop_first());
    } else {
        assert(left =~= right);
    }
}

/// Whether `left` stands before `right` in lexicographic order or is the same text.
pub fn at_most(left: &str, right: &str) -> (ordered: bool)
    ensures
        ordered == text_le(left@, right@),
{
    let left_chars = to_chars(left);
    let right_chars = to_chars(right);
    let mut index: usize = 0;
    assert(left@.skip(0) =~= left@);
    assert(right@.skip(0) =~= right@);
    while index < left_chars.len() && index < right_chars.len()
        invariant
            index <= left_chars@.len(),
            index <= right_chars@.len(),
            left_chars@ == left@,
            right_chars@ == right@,
            text_le(left@, right@) == text_le(left@.skip(index as int), right@.skip(index as int)),
        decreases left_chars@.len() - index,
    {
        let ghost left_rest = left@.skip(index as int);
        let ghost right_rest = right@.skip(index as int);
        assert(left_rest.first() == left@[index as int]);
        assert(right_rest.first() == right@[index as int]);
        if left_chars[index] != right_chars[index] {
            return left_chars[index] < right_chars[index];
        }
        assert(left_rest.drop_first() =~= left@.skip(index + 1));
        assert(right_rest.drop_first() =~= right@.skip(index + 1));
        index += 1;
    }
    index == left_chars.len()
}

/// The decimal digit for a number below ten.
pub open spec fn digit(value: nat) -> char {
    (0x30 + value) as char
}

/// The decimal digits of a number, without leading zeros.
pub open spec fn decimal(value: nat) -> Seq<char>
    decreases value,
{
    if value < 10 {
        seq![digit(value)]
    } else {
        decimal(value / 10).push(digit(value % 10))
    }
}

/// The decimal form of a signed number.
pub open spec fn signed_decimal(value: int) -> Seq<char> {
    if value < 0 {
        seq!['-'] + decimal((-value) as nat)
    } else {
        decimal(value as nat)
    }
}

/// Appends the decimal digits of `value` to `text`.
fn append_decimal(text: &mut String, value: u64)
    ensures
        final(text)@ == old(text)@ + decimal(value as nat),
    decreases value,
{
    if value >= 10 {
        append_decimal(text, value / 10);
    }
    let digit_code: u8 = 0x30 + (value % 10) as u8;
    text.push(digit_code as char);
    assert(text@ =~= old(text)@ + decimal(value as nat));
}

/// The decimal form of an unsigned number.
pub fn format_u64(value: u64) -> (text: String)
    ensures
        text@ == decimal(value as nat),
{
    let mut text = String::new();
    append_decimal(&mut text, value);
    assert(text@ =~= decimal(value as nat));
    text
}

/// The decimal form of a signed number.
pub fn format_i64(value: i64) -> (text: String)
    ensures
        text@ == signed_decimal(value as int),
{
    let mut text = String::new();
    if value < 0 {
        text.push('-');
        let magnitude: u64 = (-(value as i128)) as u64;
        append_decimal(&mut text, magnitude);
        assert(text@ =~= signed_decimal(value as int));
    } else {
        append_decimal(&mut text, value as u64);
        assert(text@ =~= signed_decimal(value as int));
    }
    text
}

/// The lower-case hexadecimal digit for a number below sixteen.
pub open spec fn hex_digit(value: u8) -> char {
    if value < 10 {
        (0x30 + value) as char
    } else {
        (0x57 + value) as char
    }
}

/// Two lower-case hexadecimal digits for each byte.
pub open spec fn hex(bytes: Seq<u8>) -> Seq<char> {
    Seq::new(
        2 * bytes.len(),
        |i: int| if i % 2 == 0 {
            hex_digit(bytes[i / 2] / 16)
        } else {
            hex_digit(bytes[i / 2] % 16)
        },
    )
}

fn push_hex_digit(text: &mut String, value: u8)
    requires
        value < 16,
    ensures
        final(text)@ == old(text)@.push(hex_digit(value)),
{
    if value < 10 {
        text.push((0x30 + value) as char);
    } else {
        text.push((0x57 + value) as char);
    }
}

/// The lower-case hexadecimal form of `bytes`.
pub fn format_hex(bytes: &[u8]) -> (text: String)
    ensures
        text@ == hex(bytes@),
{
    let mut text = String::new();
    let mut index: usize = 0;
    assert(text@ =~= hex(bytes@.take(0)));
    while index < bytes.len()
        invariant
            index <= bytes@.len(),
            text@ == hex(bytes@.take(index as int)),
        decreases bytes@.len() - index,
    {
        let byte: u8 = bytes[index];
        push_hex_digit(&mut text, byte / 16);
        push_hex_digit(&mut text, byte % 16);
        assert(text@ =~= hex(bytes@.take(index + 1)));
        index += 1;
    }
    assert(bytes@.take(index as int) =~= bytes@);
    text
}

/// Whether two texts are the same apart from the case of ASCII letters.
pub fn same_ignoring_ascii_case(left: &str, right: &str) -> (same: bool)
    ensures
        same == (lowered(left@) == lowered(right@)),
{
    let left_lower = lower_chars(left);
    let right_lower = lower_chars(right);
    assert(left_lower@.subrange(0, left_lower@.len() as int) =~= left_lower@);
    left_lower.len() == right_lower.len() && matches_at(&left_lower, &right_lower, 0)
}

} // verus!
