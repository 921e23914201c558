//! Versions of a project, and whether one is meant for the public.

use vstd::prelude::*;
use crate::text::{
    from_chars, matches_at, occurs_at, padding_before, same_text, to_chars, without_start, Padding,
};

verus! {

/// A version of the crate `semver`.
#[verifier::external_type_specification]
#[verifier::external_body]
pub struct ExVersion(semver::Version);

/// The parts of a version.
#[verifier::ext_equal]
pub struct VersionParts {
    pub major: u64,
    pub minor: u64,
    pub patch: u64,
    pub pre: Seq<char>,
    pub build: Seq<char>,
}

/// The parts of a version.
pub uninterp spec fn version_parts(version: semver::Version) -> VersionParts;

/// What `semver::Version::parse` makes of a text.
pub uninterp spec fn parsed_version(text: Seq<char>) -> Option<VersionParts>;

/// `semver::Version::parse` reads a version, or refuses the text.
#[verifier::external_body]
fn parse_version(text: &str) -> (version: Option<semver::Version>)
    ensures
        match version {
            Some(version) => parsed_version(text@) == Some(version_parts(version)),
            None => parsed_version(text@) is None,
        },
{
    semver::Version::parse(text).ok()
}

/// `semver::Version::new` makes a version of three numbers alone.
pub assume_specification[ semver::Version::new ](
    major: u64,
    minor: u64,
    patch: u64,
) -> (version: semver::Version)
    ensures
        version_parts(version) == (VersionParts {
            major,
            minor,
            patch,
            pre: seq![],
            build: seq![],
        }),
;

/// The text of `semver::Version::pre`, the part of a version that tells that it is not a release.
#[verifier::external_body]
fn prerelease(version: &semver::Version) -> (pre: String)
    ensures
        pre@ == version_parts(*version).pre,
{
    version.pre.as_str().to_owned()
}

/// A version comes before a release of three numbers: its numbers are less, or they are the same
/// and it is not a release.
pub open spec fn is_before_release(version: VersionParts, major: u64, minor: u64, patch: u64) -> bool {
    ||| version.major < major
    ||| version.major == major && version.minor < minor
    ||| version.major == major && version.minor == minor && version.patch < patch
    ||| version.major == major && version.minor == minor && version.patch == patch
        && version.pre.len() > 0
}

/// The order of `semver::Version`, where the right side has three numbers alone.
#[verifier::external_body]
fn precedes(left: &semver::Version, right: &semver::Version) -> (before: bool)
    requires
        version_parts(*right).pre.len() == 0,
        version_parts(*right).build.len() == 0,
    ensures
        before == is_before_release(
            version_parts(*left),
            version_parts(*right).major,
            version_parts(*right).minor,
            version_parts(*right).patch,
        ),
{
    left < right
}

/// A decimal digit.
pub open spec fn is_digit(character: char) -> bool {
    '0' <= character <= '9'
}

fn test_digit(character: char) -> (found: bool)
    ensures
        found == is_digit(character),
{
    '0' <= character && character <= '9'
}

/// How many digits a text starts with.
pub open spec fn digit_run(text: Seq<char>) -> nat
    decreases text.len(),
{
    if text.len() > 0 && is_digit(text[0]) {
        1 + digit_run(text.skip(1))
    } else {
        0
    }
}

/// The number that some digits stand for.
pub open spec fn number_of(digits: Seq<char>) -> nat
    decreases digits.len(),
{
    if digits.len() == 0 {
        0
    } else {
        number_of(digits.drop_last()) * 10 + (digits.last() as nat - '0' as nat) as nat
    }
}

/// The numbers that a text starts with, at most `limit`, each behind a dot but the first.
///
/// `None` says that one of them is too large.
pub open spec fn leading_numbers(text: Seq<char>, limit: nat) -> Option<Seq<u64>>
    decreases limit,
{
    let run = digit_run(text) as int;
    let number = number_of(text.take(run));
    let rest = text.skip(run);
    if limit == 0 {
        Some(seq![])
    } else if number > u64::MAX {
        None
    } else if rest.len() > 1 && rest[0] == '.' && is_digit(rest[1]) {
        match leading_numbers(rest.skip(1), (limit - 1) as nat) {
            Some(others) => Some(seq![number as u64] + others),
            None => None,
        }
    } else {
        Some(seq![number as u64])
    }
}

/// A text from its first digit on.
pub open spec fn from_first_digit(text: Seq<char>) -> Seq<char>
    decreases text.len(),
{
    if text.len() == 0 || is_digit(text[0]) {
        text
    } else {
        from_first_digit(text.skip(1))
    }
}

/// The number at `index`, or zero where there are fewer.
pub open spec fn number_at(numbers: Seq<u64>, index: int) -> u64 {
    if index < numbers.len() {
        numbers[index]
    } else {
        0
    }
}

/// The version that the first numbers of a text stand for: up to three of them, from the first digit
/// on.
pub open spec fn coerced(text: Seq<char>) -> Option<VersionParts> {
    let start = from_first_digit(text);
    if start.len() == 0 {
        None
    } else {
        match leading_numbers(start, 3) {
            Some(numbers) => Some(
                VersionParts {
                    major: number_at(numbers, 0),
                    minor: number_at(numbers, 1),
                    patch: number_at(numbers, 2),
                    pre: seq![],
                    build: seq![],
                },
            ),
            None => None,
        }
    }
}

/// Reads the digits at `from..to`.
fn read_number(chars: &Vec<char>, from: usize, to: usize) -> (number: Option<u64>)
    requires
        from <= to <= chars@.len(),
        forall|i: int| from <= i < to ==> is_digit(#[trigger] chars@[i]),
    ensures
        match number {
            Some(value) => value == number_of(chars@.subrange(from as int, to as int)),
            None => number_of(chars@.subrange(from as int, to as int)) > u64::MAX,
        },
{
    let ghost digits = chars@.subrange(from as int, to as int);
    let mut value: u64 = 0;
    let mut at: usize = from;
    assert(digits.take(0) =~= seq![]);
    while at < to
        invariant
            from <= at <= to <= chars@.len(),
            digits == chars@.subrange(from as int, to as int),
            forall|i: int| from <= i < to ==> is_digit(#[trigger] chars@[i]),
            value == number_of(digits.take(at - from)),
        decreases to - at,
    {
        let character = chars[at];
        assert(is_digit(chars@[at as int]));
        let digit: u64 = (character as u32 - '0' as u32) as u64;
        proof {
            let part = digits.take(at - from + 1);
            assert(part.drop_last() =~= digits.take(at - from));
            assert(part.last() == character);
            lemma_number_grows(digits, at - from + 1);
            assert(digits.take(digits.len() as int) =~= digits);
        }
        let shifted = match value.checked_mul(10) {
            Some(shifted) => shifted,
            None => {
                return None;
            },
        };
        value = match shifted.checked_add(digit) {
            Some(next) => next,
            None => {
                return None;
            },
        };
        at += 1;
    }
    assert(digits.take(at - from) =~= digits);
    Some(value)
}

proof fn lemma_number_grows(digits: Seq<char>, len: int)
    requires
        0 <= len <= digits.len(),
    ensures
        number_of(digits.take(len)) <= number_of(digits.take(digits.len() as int)),
    decreases digits.len() - len,
{
    if len < digits.len() {
        let longer = digits.take(len + 1);
        assert(longer.drop_last() =~= digits.take(len));
        lemma_number_grows(digits, len + 1);
    }
}

/// The end of the digits that begin at `from`.
fn run_end(chars: &Vec<char>, from: usize) -> (end: usize)
    requires
        from <= chars@.len(),
    ensures
        from <= end <= chars@.len(),
        end - from == digit_run(chars@.skip(from as int)),
        forall|i: int| from <= i < end ==> is_digit(#[trigger] chars@[i]),
{
    let ghost text = chars@.skip(from as int);
    let mut end: usize = from;
    assert(text.skip(0) =~= text);
    while end < chars.len() && test_digit(chars[end])
        invariant
            from <= end <= chars@.len(),
            text == chars@.skip(from as int),
            digit_run(text) == (end - from) + digit_run(text.skip(end - from)),
            forall|i: int| from <= i < end ==> is_digit(#[trigger] chars@[i]),
        decreases chars@.len() - end,
    {
        let ghost part = text.skip(end - from);
        assert(part[0] == chars@[end as int]);
        assert(part.skip(1) =~= text.skip(end - from + 1));
        end += 1;
    }
    proof {
        let part = text.skip(end - from);
        if end < chars@.len() {
            assert(part[0] == chars@[end as int]);
        }
    }
    end
}

/// The numbers that stand from `from` on.
fn read_numbers(chars: &Vec<char>, from: usize, limit: usize) -> (numbers: Option<Vec<u64>>)
    requires
        from <= chars@.len(),
    ensures
        match numbers {
            Some(numbers) => leading_numbers(chars@.skip(from as int), limit as nat) == Some(
                numbers@,
            ),
            None => leading_numbers(chars@.skip(from as int), limit as nat) is None,
        },
    decreases limit,
{
    let mut numbers: Vec<u64> = Vec::new();
    if limit == 0 {
        assert(numbers@ =~= seq![]);
        return Some(numbers);
    }
    let ghost text = chars@.skip(from as int);
    let end = run_end(chars, from);
    proof {
        let run = digit_run(text) as int;
        assert(text.take(run) =~= chars@.subrange(from as int, end as int));
        assert(text.skip(run) =~= chars@.skip(end as int));
    }
    let number: u64 = match read_number(chars, from, end) {
        Some(number) => number,
        None => {
            return None;
        },
    };
    numbers.push(number);
    if chars.len() - end > 1 && chars[end] == '.' && test_digit(chars[end + 1]) {
        assert(chars@.skip(end as int).skip(1) =~= chars@.skip(end + 1));
        match read_numbers(chars, end + 1, limit - 1) {
            Some(mut others) => {
                let ghost tail = others@;
                numbers.append(&mut others);
                assert(numbers@ =~= seq![number] + tail);
                Some(numbers)
            },
            None => None,
        }
    } else {
        assert(numbers@ =~= seq![number]);
        Some(numbers)
    }
}

/// The version that the first numbers of a text stand for.
///
/// This is for texts that are not versions as `semver` reads them.
pub fn coerce_version(version: &str) -> (coerced_version: Option<semver::Version>)
    ensures
        match coerced_version {
            Some(found) => coerced(version@) == Some(version_parts(found)),
            None => coerced(version@) is None,
        },
{
    let chars = to_chars(version);
    let mut start: usize = 0;
    assert(chars@.skip(0) =~= chars@);
    while start < chars.len() && !test_digit(chars[start])
        invariant
            start <= chars@.len(),
            from_first_digit(chars@) == from_first_digit(chars@.skip(start as int)),
        decreases chars@.len() - start,
    {
        let ghost part = chars@.skip(start as int);
        assert(part[0] == chars@[start as int]);
        assert(part.skip(1) =~= chars@.skip(start + 1));
        start += 1;
    }
    let ghost part = chars@.skip(start as int);
    if start == chars.len() {
        return None;
    }
    assert(part[0] == chars@[start as int]);
    let numbers = match read_numbers(&chars, start, 3) {
        Some(numbers) => numbers,
        None => {
            return None;
        },
    };
    let major: u64 = if numbers.len() > 0 {
        numbers[0]
    } else {
        0
    };
    let minor: u64 = if numbers.len() > 1 {
        numbers[1]
    } else {
        0
    };
    let patch: u64 = if numbers.len() > 2 {
        numbers[2]
    } else {
        0
    };
    Some(semver::Version::new(major, minor, patch))
}

/// A text has `tag` between two of its dots, or between a dot and an end.
pub open spec fn has_tag(text: Seq<char>, tag: Seq<char>) -> bool {
    exists|at: int| #[trigger] is_tag_at(text, tag, at)
}

/// `tag` stands at `at`, between two dots or between a dot and an end.
pub open spec fn is_tag_at(text: Seq<char>, tag: Seq<char>, at: int) -> bool {
    &&& occurs_at(text, tag, at)
    &&& at == 0 || text[at - 1] == '.'
    &&& at + tag.len() == text.len() || text[at + tag.len()] == '.'
}

/// Whether a text has `tag` between two of its dots, or between a dot and an end.
fn find_tag(text: &Vec<char>, tag: &str) -> (found: bool)
    ensures
        found == has_tag(text@, tag@),
{
    let tag_chars = to_chars(tag);
    if tag_chars.len() > text.len() {
        return false;
    }
    let total: usize = text.len();
    let last: usize = total - tag_chars.len();
    let mut at: usize = 0;
    while at <= last
        invariant
            tag_chars@ == tag@,
            total == text@.len(),
            last == total - tag@.len(),
            at <= last + 1,
            forall|i: int| 0 <= i < at ==> !#[trigger] is_tag_at(text@, tag@, i),
        decreases last + 1 - at,
    {
        if matches_at(text, &tag_chars, at) && (at == 0 || text[at - 1] == '.') && (at == last
            || text[at + tag_chars.len()] == '.') {
            assert(is_tag_at(text@, tag@, at as int));
            return true;
        }
        if at == last {
            assert forall|i: int| !#[trigger] is_tag_at(text@, tag@, i) by {}
            return false;
        }
        at += 1;
    }
    false
}

/// A version is for testing: below the first release, or marked with something else than `beta` or
/// `rc`.
///
/// A text that is not a version is judged by its first numbers.
pub open spec fn is_debug(version: Seq<char>) -> bool {
    let normalized = without_start(version, Padding::VersionLetter);
    if version.len() == 0 {
        false
    } else if version == "DEBUG_VERSION"@ {
        true
    } else {
        match parsed_version(normalized) {
            Some(parts) => is_debug_release(parts),
            None => match coerced(normalized) {
                Some(parts) => is_before_release(parts, 1, 0, 0),
                None => false,
            },
        }
    }
}

/// A version with the given parts is for testing.
pub open spec fn is_debug_release(parts: VersionParts) -> bool {
    is_before_release(parts, 1, 0, 0) || parts.pre.len() > 0 && !has_tag(parts.pre, "beta"@)
        && !has_tag(parts.pre, "rc"@)
}

/// Whether a version that `semver` has read is for testing.
pub fn is_debug_parsed(version: &semver::Version) -> (debug: bool)
    ensures
        debug == is_debug_release(version_parts(*version)),
{
    let baseline = semver::Version::new(1, 0, 0);
    if precedes(version, &baseline) {
        return true;
    }
    let pre = to_chars(prerelease(version).as_str());
    if pre.len() == 0 {
        return false;
    }
    !(find_tag(&pre, "beta") || find_tag(&pre, "rc"))
}

/// Whether a version is for testing.
pub fn is_debug_version(version: &str) -> (debug: bool)
    ensures
        debug == is_debug(version@),
{
    let chars = to_chars(version);
    if chars.len() == 0 {
        return false;
    }
    if same_text(version, "DEBUG_VERSION") {
        return true;
    }
    let start = padding_before(&chars, Padding::VersionLetter);
    let normalized = from_chars(&chars, start, chars.len());
    assert(normalized@ =~= chars@.skip(start as int));
    match parse_version(normalized.as_str()) {
        Some(parsed) => is_debug_parsed(&parsed),
        None => match coerce_version(normalized.as_str()) {
            Some(coerced_version) => {
                let baseline = semver::Version::new(1, 0, 0);
                precedes(&coerced_version, &baseline)
            },
            None => false,
        },
    }
}

/// Nothing is reported by this build: it is for testing, or the project is, and reporting is not
/// forced.
pub open spec fn is_blocked(force: Option<Seq<char>>, debug_build: bool, app_version: Seq<char>) -> bool {
    force != Some("1"@) && (debug_build || is_debug(app_version))
}

/// Whether nothing is reported by this build.
///
/// `force` is the value of the variable that forces reporting, where it is set.
pub fn is_blocked_by_build(force: Option<&str>, debug_build: bool, app_version: &str) -> (blocked: bool)
    ensures
        blocked == is_blocked(
            match force {
                Some(value) => Some(value@),
                None => None,
            },
            debug_build,
            app_version@,
        ),
{
    if let Some(value) = force {
        if same_text(value, "1") {
            return false;
        }
    }
    debug_build || is_debug_version(app_version)
}

} // verus!
