//! Texts, points in time and paths.

use vstd::prelude::*;
use crate::path::{
    all_normal, archive_path, first_is, has_extension, is_image_path, is_log_path, kind_of,
    lies_under, name_texts, priority_of, ComponentView, OsNameView,
};
use crate::text::{
    contains, decimal, ends_with, hex, is_white_space, joined, lowered, occurs_at, raised,
    signed_decimal, starts_with, text_le, trimmed, without_end, without_start, Padding,
};
use crate::time::{is_modified_since, millis_between, FileStamp, Timestamp};

verus! {

/// A text begins with another one exactly when it is that one with something behind it.
pub proof fn lemma_starts_with(text: Seq<char>, start: Seq<char>)
    ensures
        starts_with(text, start) <==> exists|rest: Seq<char>| text == #[trigger] (start + rest),
        forall|rest: Seq<char>| starts_with(#[trigger] (start + rest), start),
{
    if starts_with(text, start) {
        assert(text =~= start + text.skip(start.len() as int));
    }
    assert forall|rest: Seq<char>| starts_with(#[trigger] (start + rest), start) by {
        assert((start + rest).subrange(0, start.len() as int) =~= start);
    }
}

/// A text ends with another one exactly when it is that one with something in front of it.
pub proof fn lemma_ends_with(text: Seq<char>, end: Seq<char>)
    ensures
        ends_with(text, end) <==> exists|front: Seq<char>| text == #[trigger] (front + end),
        forall|front: Seq<char>| ends_with(#[trigger] (front + end), end),
{
    if ends_with(text, end) {
        assert(text =~= text.take(text.len() - end.len()) + end);
    }
    assert forall|front: Seq<char>| ends_with(#[trigger] (front + end), end) by {
        let all = front + end;
        assert(all.subrange(all.len() - end.len(), all.len() as int) =~= end);
    }
}

/// A text holds another one exactly when it is that one with something around it.
pub proof fn lemma_contains(text: Seq<char>, part: Seq<char>)
    ensures
        contains(text, part) <==> exists|front: Seq<char>, rest: Seq<char>|
            text == #[trigger] (front + part + rest),
        forall|front: Seq<char>, rest: Seq<char>|
            contains(#[trigger] (front + part + rest), part),
{
    if contains(text, part) {
        let at = choose|at: int| occurs_at(text, part, at);
        assert(text =~= text.take(at) + part + text.skip(at + part.len()));
    }
    assert forall|front: Seq<char>, rest: Seq<char>|
        contains(#[trigger] (front + part + rest), part) by {
        let all = front + part + rest;
        assert(all.subrange(front.len() as int, (front.len() + part.len()) as int) =~= part);
        assert(occurs_at(all, part, front.len() as int));
    }
}

/// Changing the case of a text changes its ASCII letters only, and those by the distance between the
/// two alphabets.
pub proof fn lemma_cases(text: Seq<char>, i: int)
    requires
        0 <= i < text.len(),
    ensures
        lowered(text).len() == text.len(),
        raised(text).len() == text.len(),
        65 <= text[i] as u32 <= 90 ==> lowered(text)[i] as u32 == text[i] as u32 + 32,
        !(65 <= text[i] as u32 <= 90) ==> lowered(text)[i] == text[i],
        97 <= text[i] as u32 <= 122 ==> raised(text)[i] as u32 == text[i] as u32 - 32,
        !(97 <= text[i] as u32 <= 122) ==> raised(text)[i] == text[i],
        raised(lowered(text)) == raised(text),
        lowered(raised(text)) == lowered(text),
{
    assert(raised(lowered(text)) =~= raised(text));
    assert(lowered(raised(text)) =~= lowered(text));
}

/// What white space is: the characters that Unicode counts as such.
pub proof fn lemma_white_space(character: char)
    ensures
        is_white_space(character) <==> seq![
            9u32, 10u32, 11u32, 12u32, 13u32, 32u32, 133u32, 160u32, 5760u32, 8192u32, 8193u32,
            8194u32, 8195u32, 8196u32, 8197u32, 8198u32, 8199u32, 8200u32, 8201u32, 8202u32,
            8232u32, 8233u32, 8239u32, 8287u32, 12288u32,
        ].contains(character as u32),
        Padding::WhiteSpace.covers(character) == is_white_space(character),
        Padding::Nul.covers(character) <==> character as u32 == 0,
        Padding::VersionLetter.covers(character) <==> character as u32 == 118 || character as u32
            == 86,
{
    let codes = seq![
        9u32, 10u32, 11u32, 12u32, 13u32, 32u32, 133u32, 160u32, 5760u32, 8192u32, 8193u32,
        8194u32, 8195u32, 8196u32, 8197u32, 8198u32, 8199u32, 8200u32, 8201u32, 8202u32,
        8232u32, 8233u32, 8239u32, 8287u32, 12288u32,
    ];
    let code = character as u32;
    if is_white_space(character) {
        let at: int = if code <= 13 {
            code - 9
        } else if code == 32 {
            5
        } else if code == 133 {
            6
        } else if code == 160 {
            7
        } else if code == 5760 {
            8
        } else if code <= 8202 {
            code - 8192 + 9
        } else if code == 8232 {
            20
        } else if code == 8233 {
            21
        } else if code == 8239 {
            22
        } else if code == 8287 {
            23
        } else {
            24
        };
        assert(codes[at] == code);
    }
}

/// Nothing but padding stands in a text.
pub open spec fn only_padding(text: Seq<char>, padding: Padding) -> bool {
    forall|i: int| 0 <= i < text.len() ==> padding.covers(#[trigger] text[i])
}

proof fn lemma_without_start(text: Seq<char>, padding: Padding) -> (front: Seq<char>)
    ensures
        text == front + without_start(text, padding),
        only_padding(front, padding),
        without_start(text, padding).len() > 0 ==> !padding.covers(
            without_start(text, padding).first(),
        ),
    decreases text.len(),
{
    if text.len() > 0 && padding.covers(text.first()) {
        let rest = lemma_without_start(text.drop_first(), padding);
        let front = seq![text.first()] + rest;
        assert(text =~= seq![text.first()] + text.drop_first());
        assert(text =~= front + without_start(text, padding));
        assert forall|i: int| 0 <= i < front.len() implies padding.covers(#[trigger] front[i]) by {
            if i > 0 {
                assert(front[i] == rest[i - 1]);
            }
        }
        front
    } else {
        assert(text =~= Seq::<char>::empty() + text);
        seq![]
    }
}

proof fn lemma_without_end(text: Seq<char>, padding: Padding) -> (back: Seq<char>)
    ensures
        text == without_end(text, padding) + back,
        only_padding(back, padding),
        without_end(text, padding).len() > 0 ==> !padding.covers(without_end(text, padding).last())
            && without_end(text, padding).first() == text.first(),
    decreases text.len(),
{
    if text.len() > 0 && padding.covers(text.last()) {
        let rest = lemma_without_end(text.drop_last(), padding);
        let back = rest.push(text.last());
        assert(text =~= text.drop_last().push(text.last()));
        assert(text =~= without_end(text, padding) + back);
        assert forall|i: int| 0 <= i < back.len() implies padding.covers(#[trigger] back[i]) by {
            if i < rest.len() {
                assert(back[i] == rest[i]);
            }
        }
        back
    } else {
        assert(text =~= text + Seq::<char>::empty());
        seq![]
    }
}

/// Trimming takes padding away at both ends until none is left there, and nothing else.
pub proof fn lemma_trimmed(text: Seq<char>, padding: Padding)
    ensures
        exists|front: Seq<char>, back: Seq<char>|
            {
                &&& text == #[trigger] (front + trimmed(text, padding) + back)
                &&& only_padding(front, padding)
                &&& only_padding(back, padding)
            },
        trimmed(text, padding).len() > 0 ==> !padding.covers(trimmed(text, padding).first())
            && !padding.covers(trimmed(text, padding).last()),
{
    let front = lemma_without_start(text, padding);
    let back = lemma_without_end(without_start(text, padding), padding);
    assert(text =~= front + trimmed(text, padding) + back);
}

/// Joining puts the separator between neighbours, and nowhere else.
pub proof fn lemma_joined(parts: Seq<Seq<char>>, separator: Seq<char>)
    ensures
        parts.len() == 0 ==> joined(parts, separator) == Seq::<char>::empty(),
        parts.len() == 1 ==> joined(parts, separator) == parts[0],
        parts.len() > 1 ==> joined(parts, separator) == parts[0] + separator + joined(
            parts.skip(1),
            separator,
        ),
    decreases parts.len(),
{
    if parts.len() == 2 {
        assert(parts.drop_last()[0] == parts[0]);
        assert(parts.skip(1)[0] == parts.last());
        assert(joined(parts.drop_last(), separator) == parts[0]);
    } else if parts.len() > 2 {
        let front = parts.drop_last();
        lemma_joined(front, separator);
        assert(front.skip(1) =~= parts.skip(1).drop_last());
        assert(parts.skip(1).last() == parts.last());
        assert(joined(parts, separator) =~= parts[0] + separator + joined(
            parts.skip(1),
            separator,
        ));
    }
}

/// The number that decimal digits stand for.
pub open spec fn value_of_digits(digits: Seq<char>) -> int
    decreases digits.len(),
{
    if digits.len() == 0 {
        0
    } else {
        value_of_digits(digits.drop_last()) * 10 + (digits.last() as u32 - 48)
    }
}

/// The decimal form of a number is made of digits, stands for that number, and has no zero in front.
pub proof fn lemma_decimal(value: nat)
    ensures
        value_of_digits(decimal(value)) == value,
        decimal(value).len() > 0,
        decimal(value).len() > 1 ==> decimal(value)[0] as u32 != 48,
        forall|i: int|
            0 <= i < decimal(value).len() ==> '0' <= #[trigger] decimal(value)[i] <= '9',
    decreases value,
{
    reveal_with_fuel(value_of_digits, 2);
    if value >= 10 {
        lemma_decimal(value / 10);
        assert(decimal(value).drop_last() =~= decimal(value / 10));
        if value / 10 < 10 {
            assert(decimal(value)[0] == decimal(value / 10)[0]);
        }
    } else {
        assert(decimal(value).drop_last() =~= seq![]);
    }
}

/// A negative number is told with a sign in front of its digits.
pub proof fn lemma_signed_decimal(value: int)
    ensures
        value >= 0 ==> value_of_digits(signed_decimal(value)) == value && signed_decimal(value).len() > 0,
        value < 0 ==> signed_decimal(value)[0] as u32 == 45 && value_of_digits(signed_decimal(value).skip(1))
            == -value,
{
    if value >= 0 {
        lemma_decimal(value as nat);
    } else {
        lemma_decimal((-value) as nat);
        assert(signed_decimal(value).skip(1) =~= decimal((-value) as nat));
    }
}

/// Two texts are ordered by the first character in which they differ, and a text stands before one
/// that goes on behind it.
pub proof fn lemma_text_le(common: Seq<char>, left: Seq<char>, right: Seq<char>)
    ensures
        text_le(common, common + right),
        left.len() > 0 ==> !text_le(common + left, common),
        left.len() > 0 && right.len() > 0 && left[0] < right[0] ==> text_le(
            common + left,
            common + right,
        ) && !text_le(common + right, common + left),
    decreases common.len(),
{
    if common.len() == 0 {
        assert(common + left =~= left);
        assert(common + right =~= right);
    } else {
        let rest = common.drop_first();
        lemma_text_le(rest, left, right);
        assert((common + left).drop_first() =~= rest + left);
        assert((common + right).drop_first() =~= rest + right);
    }
}

/// What a hexadecimal digit stands for.
pub open spec fn hex_value(character: char) -> int {
    if 48 <= character as u32 <= 57 {
        character as u32 - 48
    } else {
        character as u32 - 87
    }
}

/// Each byte is told in two lower-case digits that stand for it.
pub proof fn lemma_hex(bytes: Seq<u8>, i: int)
    requires
        0 <= i < bytes.len(),
    ensures
        hex(bytes).len() == 2 * bytes.len(),
        hex_value(hex(bytes)[2 * i]) * 16 + hex_value(hex(bytes)[2 * i + 1]) == bytes[i],
        forall|j: int|
            0 <= j < hex(bytes).len() ==> {
                let code = (#[trigger] hex(bytes)[j]) as u32;
                48 <= code <= 57 || 97 <= code <= 102
            },
{
    assert((2 * i) / 2 == i && (2 * i) % 2 == 0);
    assert((2 * i + 1) / 2 == i && (2 * i + 1) % 2 == 1);
}

/// A point in time in nanoseconds since the Unix epoch.
pub open spec fn nanoseconds(time: Timestamp) -> int {
    time.secs * 1_000_000_000 + time.nanos
}

/// A point in time comes before another one when fewer nanoseconds have passed.
pub proof fn lemma_before(time: Timestamp, other: Timestamp)
    requires
        time.nanos < 1_000_000_000,
        other.nanos < 1_000_000_000,
    ensures
        time.is_before(other) <==> nanoseconds(time) < nanoseconds(other),
{
}

/// A file counts as written since a task started when it was modified at most two seconds before.
/// Without a time, or with one that no clock can tell, it does not.
pub proof fn lemma_modified_since(stamp: FileStamp, started_at: Timestamp)
    requires
        started_at.nanos < 1_000_000_000,
        stamp.modified matches Some(modified) ==> modified.nanos < 1_000_000_000,
    ensures
        is_modified_since(stamp, started_at) <==> {
            &&& stamp.modified matches Some(modified)
            &&& modified.secs <= i64::MAX - 2
            &&& nanoseconds(modified) + 2_000_000_000 >= nanoseconds(started_at)
        },
{
}

/// Durations are told in whole milliseconds; a clock that went back tells none.
pub proof fn lemma_millis(started: u128, now: u128)
    ensures
        now < started ==> millis_between(started, now) == 0,
        started <= now && now - started < 1_000_000 * 0x1_0000_0000_0000_0000 ==> {
            &&& millis_between(started, now) * 1_000_000 <= now - started
            &&& now - started < (millis_between(started, now) + 1) * 1_000_000
        },
{
}

/// A wall time is told in whole milliseconds since the Unix epoch, and not at all before it.
pub proof fn lemma_unix_ms(time: Timestamp)
    requires
        time.nanos < 1_000_000_000,
        time.secs < 1_000_000_000_000_000,
    ensures
        time.unix_ms() is None <==> nanoseconds(time) < 0,
        time.unix_ms() matches Some(millis) ==> millis * 1_000_000 <= nanoseconds(time)
            < (millis + 1) * 1_000_000,
{
}

/// A path lies below a root when it is that root with ordinary names behind it.
pub proof fn lemma_lies_under(root: Seq<ComponentView>, path: Seq<ComponentView>)
    ensures
        lies_under(root, path) <==> exists|names: Seq<OsNameView>|
            path == root + #[trigger] normal_path(names),
        lies_under(root, path) ==> path == root + path.skip(root.len() as int),
{
    if lies_under(root, path) {
        let below = path.skip(root.len() as int);
        assert(path =~= root + below);
        let names = Seq::new(below.len(), |i: int| below[i]->Normal_0);
        assert forall|i: int| 0 <= i < below.len() implies below[i] == normal_path(names)[i] by {
            assert(below[i] is Normal);
        }
        assert(below =~= normal_path(names));
        assert(path == root + normal_path(names));
    }
    assert forall|names: Seq<OsNameView>| path == root + #[trigger] normal_path(names) implies lies_under(
        root,
        path,
    ) by {
        assert(path.take(root.len() as int) =~= root);
        assert(path.skip(root.len() as int) =~= normal_path(names));
    }
}

/// The path along ordinary names.
pub open spec fn normal_path(names: Seq<OsNameView>) -> Seq<ComponentView> {
    Seq::new(names.len(), |i: int| ComponentView::Normal(names[i]))
}

/// The path along names that are valid Unicode.
pub open spec fn text_path(names: Seq<Seq<char>>) -> Seq<ComponentView> {
    Seq::new(names.len(), |i: int| ComponentView::Normal(OsNameView::Text(names[i])))
}

/// A screenshot is a PNG or JPEG file with a name in front of its extension, below `on_error`; case
/// does not matter.
pub proof fn lemma_image_path(names: Seq<Seq<char>>)
    requires
        names.len() > 0,
    ensures
        is_image_path(text_path(names)) <==> {
            &&& lowered(names[0]) == "on_error"@
            &&& exists|stem: Seq<char>, extension: Seq<char>|
                {
                    &&& lowered(names.last()) == #[trigger] (stem + extension)
                    &&& stem.len() > 0
                    &&& extension == ".png"@ || extension == ".jpg"@ || extension == ".jpeg"@
                }
        },
{
    let path = text_path(names);
    assert(path.first() == ComponentView::Normal(OsNameView::Text(names[0])));
    assert(path.last() == ComponentView::Normal(OsNameView::Text(names.last())));
    lemma_lowered_on_error();
    let name = OsNameView::Text(names.last());
    let lower = lowered(names.last());
    assert forall|extension: Seq<char>| #[trigger] has_extension(name, extension) implies exists|
        stem: Seq<char>,
    | lower == #[trigger] (stem + extension) && stem.len() > 0 by {
        lemma_ends_with(lower, extension);
        let stem = lower.take(lower.len() - extension.len());
        assert(lower =~= stem + extension);
    }
    assert forall|stem: Seq<char>, extension: Seq<char>|
        lower == #[trigger] (stem + extension) && stem.len() > 0 implies has_extension(
        name,
        extension,
    ) by {
        lemma_ends_with(lower, extension);
    }
}

proof fn lemma_lowered_on_error()
    ensures
        lowered("on_error"@) == "on_error"@,
        lowered("vision"@) == "vision"@,
{
    reveal_strlit("on_error");
    reveal_strlit("vision");
    assert(lowered("on_error"@) =~= "on_error"@);
    assert(lowered("vision"@) =~= "vision"@);
}

/// A log is a file whose name ends with `.log` or holds `.log.`, neither below `on_error` nor below
/// `vision`; case does not matter.
pub proof fn lemma_log_path(names: Seq<Seq<char>>)
    requires
        names.len() > 0,
    ensures
        is_log_path(text_path(names)) <==> {
            &&& lowered(names[0]) != "on_error"@
            &&& lowered(names[0]) != "vision"@
            &&& (exists|stem: Seq<char>| lowered(names.last()) == #[trigger] (stem + ".log"@))
                || (exists|stem: Seq<char>, rest: Seq<char>|
                lowered(names.last()) == #[trigger] (stem + ".log."@ + rest))
        },
{
    let path = text_path(names);
    assert(path.first() == ComponentView::Normal(OsNameView::Text(names[0])));
    assert(path.last() == ComponentView::Normal(OsNameView::Text(names.last())));
    lemma_lowered_on_error();
    lemma_ends_with(lowered(names.last()), ".log"@);
    lemma_contains(lowered(names.last()), ".log."@);
}

/// No file is both a log and a screenshot.
pub proof fn lemma_kinds_apart(path: Seq<ComponentView>)
    ensures
        !(is_image_path(path) && is_log_path(path)),
{
}

/// The name in an archive is that of each directory and then that of the file, with slashes between
/// them.
pub proof fn lemma_archive_path(names: Seq<Seq<char>>)
    ensures
        names.len() == 0 ==> archive_path(text_path(names)) is None,
        names.len() == 1 && names[0].len() > 0 ==> archive_path(text_path(names)) == Some(names[0]),
        names.len() > 1 ==> archive_path(text_path(names)) == Some(
            joined(names.drop_last(), seq!['/']) + seq!['/'] + names.last(),
        ),
{
    assert(name_texts(text_path(names)) =~= names);
    assert(all_normal(text_path(names)));
    if names.len() > 1 {
        assert(joined(names, seq!['/']).len() > 0);
    }
}

/// Logs of the framework come first, then those of its engine, then those of the application; what a
/// log is called follows from its place.
pub proof fn lemma_log_kinds(directory: Seq<char>, name: Seq<char>)
    requires
        name.len() > 0,
        !name.contains('/'),
        name != seq!['.'],
        name != seq!['.', '.'],
        directory.len() > 0 ==> directory.last() == '/',
    ensures
        ({
            let path = directory + name;
            let lower = lowered(name);
            &&& starts_with(lower, "maafw.log"@) ==> priority_of(path) == 0 && kind_of(path)
                == "maafw"@
            &&& starts_with(lower, "maa.log"@) ==> priority_of(path) == 1 && kind_of(path)
                == "maa"@
            &&& starts_with(lower, "mxu"@) || starts_with(lower, "log-"@) ==> priority_of(path)
                == 2 && kind_of(path) == "mxu"@
            &&& !starts_with(lower, "maafw.log"@) && !starts_with(lower, "maa.log"@)
                && !starts_with(lower, "mxu"@) && !starts_with(lower, "log-"@) ==> priority_of(path)
                == 3 && kind_of(path) == "other"@
        }),
{
    let path = directory + name;
    let lower = lowered(name);
    lemma_segment(directory, name, name.len() as int);
    assert(path.take(path.len() as int) =~= path);
    assert(path.skip(directory.len() as int) =~= name);
    assert(crate::path::final_segment(path) == name);
    reveal_strlit("maafw.log");
    reveal_strlit("maa.log");
    reveal_strlit("mxu");
    reveal_strlit("log-");
    if starts_with(lower, "maa.log"@) {
        assert(lower[3] == "maa.log"@[3]) by {
            assert(lower.subrange(0, 7)[3] == lower[3]);
        }
        if starts_with(lower, "maafw.log"@) {
            assert(lower.subrange(0, 9)[3] == lower[3]);
        }
    }
    if starts_with(lower, "mxu"@) {
        assert(lower.subrange(0, 3)[1] == lower[1]);
        if starts_with(lower, "maafw.log"@) {
            assert(lower.subrange(0, 9)[1] == lower[1]);
        }
        if starts_with(lower, "maa.log"@) {
            assert(lower.subrange(0, 7)[1] == lower[1]);
        }
    }
    if starts_with(lower, "log-"@) {
        assert(lower.subrange(0, 4)[0] == lower[0]);
        if starts_with(lower, "maafw.log"@) {
            assert(lower.subrange(0, 9)[0] == lower[0]);
        }
        if starts_with(lower, "maa.log"@) {
            assert(lower.subrange(0, 7)[0] == lower[0]);
        }
    }
}

proof fn lemma_segment(directory: Seq<char>, name: Seq<char>, count: int)
    requires
        !name.contains('/'),
        directory.len() > 0 ==> directory.last() == '/',
        0 <= count <= name.len(),
    ensures
        crate::path::segment_start((directory + name).take(directory.len() + count))
            == directory.len(),
    decreases count,
{
    let part = (directory + name).take(directory.len() + count);
    if count == 0 {
        assert(part =~= directory);
    } else {
        assert(part.last() == name[count - 1]);
        assert(name.contains(name[count - 1]));
        assert(part.drop_last() =~= (directory + name).take(directory.len() + count - 1));
        lemma_segment(directory, name, count - 1);
    }
}

/// A name counts as that of a directory whatever the case of its letters is, and only where it is
/// valid Unicode.
pub proof fn lemma_first_is(names: Seq<Seq<char>>, expected: Seq<char>)
    requires
        names.len() > 0,
    ensures
        first_is(text_path(names), expected) <==> lowered(names[0]) == lowered(expected),
{
    assert(text_path(names).first() == ComponentView::Normal(OsNameView::Text(names[0])));
}

/// The bytes of a name end with an extension behind something else, whatever the case of its letters
/// is.
pub open spec fn is_named(encoded: Seq<u8>, extension: Seq<char>) -> bool {
    &&& encoded.len() > extension.len()
    &&& forall|i: int|
        0 <= i < extension.len() ==> {
            let byte = encoded[encoded.len() - extension.len() + i];
            let lower = if 65 <= byte <= 90 {
                byte + 32
            } else {
                byte as int
            };
            (lower as u8) as char == #[trigger] extension[i]
        }
}

proof fn lemma_bytes_named(encoded: Seq<u8>, lossy: Seq<char>, extension: Seq<char>)
    ensures
        has_extension(OsNameView::Opaque(encoded, lossy), extension) <==> is_named(
            encoded,
            extension,
        ),
{
}

/// A name that is not Unicode is that of no directory and of no log; a file below `on_error` with such
/// a name is a screenshot when its bytes end with one of the extensions. In an archive it is written
/// with what is not Unicode replaced.
pub proof fn lemma_opaque_names(
    path: Seq<ComponentView>,
    encoded: Seq<u8>,
    lossy: Seq<char>,
    expected: Seq<char>,
)
    requires
        path.len() > 0,
    ensures
        !(path.first() is Normal && path.first()->Normal_0 is Text) ==> !first_is(path, expected)
            && !is_image_path(path),
        path.last() == ComponentView::Normal(OsNameView::Opaque(encoded, lossy)) ==> {
            &&& !is_log_path(path)
            &&& is_image_path(path) <==> first_is(path, "on_error"@) && (is_named(encoded, ".png"@)
                || is_named(encoded, ".jpg"@) || is_named(encoded, ".jpeg"@))
        },
        lossy.len() > 0 ==> archive_path(
            seq![ComponentView::Normal(OsNameView::Opaque(encoded, lossy))],
        ) == Some(lossy),
{
    lemma_bytes_named(encoded, lossy, ".png"@);
    lemma_bytes_named(encoded, lossy, ".jpg"@);
    lemma_bytes_named(encoded, lossy, ".jpeg"@);
    let alone = seq![ComponentView::Normal(OsNameView::Opaque(encoded, lossy))];
    assert(name_texts(alone) =~= seq![lossy]);
    lemma_joined(name_texts(alone), seq!['/']);
}

/// What stands behind the last name of a path and is no name, a slash or a dot, does not change which
/// one it is; behind two dots there is none.
pub proof fn lemma_path_ends(path: Seq<char>)
    ensures
        crate::path::final_segment(path.push('/')) == crate::path::final_segment(path),
        crate::path::final_segment(path + seq!['/', '.']) == crate::path::final_segment(path),
        crate::path::final_segment(path + seq!['/', '.', '.']) == Seq::<char>::empty(),
{
    let directory = path.push('/');
    let empty = Seq::<char>::empty();
    let dot = seq!['.'];
    let dots = seq!['.', '.'];
    assert(!empty.contains('/'));
    assert(!dot.contains('/'));
    assert(!dots.contains('/'));
    lemma_segment(directory, empty, 0);
    lemma_segment(directory, dot, 1);
    lemma_segment(directory, dots, 2);
    assert((directory + empty).take(directory.len() as int) =~= directory);
    assert((directory + dot).take(directory.len() as int + 1) =~= path + seq!['/', '.']);
    assert((directory + dots).take(directory.len() as int + 2) =~= path + seq!['/', '.', '.']);
    assert(directory.skip(directory.len() as int) =~= empty);
    assert((path + seq!['/', '.']).skip(directory.len() as int) =~= dot);
    assert((path + seq!['/', '.', '.']).skip(directory.len() as int) =~= dots);
    assert(directory.take(path.len() as int) =~= path);
    assert((path + seq!['/', '.']).take(path.len() as int) =~= path);
}

} // verus!
