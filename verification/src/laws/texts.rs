//! Texts, paths and points in time as the functions on them give them.

use vstd::prelude::*;
use crate::laws::basics::{
    hex_value, lemma_before, lemma_contains, lemma_decimal, lemma_ends_with, lemma_hex,
    lemma_joined, lemma_lies_under, lemma_log_kinds, lemma_millis, lemma_modified_since,
    lemma_signed_decimal, lemma_starts_with, lemma_trimmed, lemma_unix_ms, nanoseconds, normal_path,
    only_padding, text_path, value_of_digits,
};
use crate::order::{inserted, is_order, lemma_ordered_set, sort_and_dedup, sorted_by};
use crate::path::{
    first_component_is, is_log_file, is_on_error_image, log_kind, log_priority,
    normalize_archive_path, path_view, safe_relative_path, OsNameView, PathComponent,
};
use crate::text::{
    at_most, blank, concat, format_hex, format_i64, format_u64, has_part, has_prefix, has_suffix,
    is_white_space, join, joined, lower_chars, lowered, same_ignoring_ascii_case, starts_with,
    text_le, trim, upper_chars, views, Padding,
};
use crate::time::{elapsed_ms, modified_since, unix_time_ms, FileStamp, Timestamp};

verus! {

/// A prefix, a suffix and a part are what their names say.
pub proof fn lemma_found(text: &Vec<char>, pattern: &str, first: bool, last: bool, within: bool)
    requires
        call_ensures(has_prefix, (text, pattern), first),
        call_ensures(has_suffix, (text, pattern), last),
        call_ensures(has_part, (text, pattern), within),
    ensures
        first <==> exists|rest: Seq<char>| text@ == #[trigger] (pattern@ + rest),
        last <==> exists|front: Seq<char>| text@ == #[trigger] (front + pattern@),
        within <==> exists|front: Seq<char>, rest: Seq<char>|
            text@ == #[trigger] (front + pattern@ + rest),
{
    lemma_starts_with(text@, pattern@);
    lemma_ends_with(text@, pattern@);
    lemma_contains(text@, pattern@);
}

/// A character with another case is the other form of an ASCII letter, or the character itself.
pub proof fn lemma_changed_case(text: &str, lower: Vec<char>, upper: Vec<char>, i: int)
    requires
        call_ensures(lower_chars, (text,), lower),
        call_ensures(upper_chars, (text,), upper),
        0 <= i < text@.len(),
    ensures
        lower@.len() == text@.len(),
        upper@.len() == text@.len(),
        65 <= text@[i] as u32 <= 90 ==> lower@[i] as u32 == text@[i] as u32 + 32,
        !(65 <= text@[i] as u32 <= 90) ==> lower@[i] == text@[i],
        97 <= text@[i] as u32 <= 122 ==> upper@[i] as u32 == text@[i] as u32 - 32,
        !(97 <= text@[i] as u32 <= 122) ==> upper@[i] == text@[i],
{
    crate::laws::basics::lemma_cases(text@, i);
}

/// Texts that differ in the case of ASCII letters alone count as the same.
pub proof fn lemma_same_ignoring_case(left: &str, right: &str, same: bool)
    requires
        call_ensures(same_ignoring_ascii_case, (left, right), same),
    ensures
        same ==> left@.len() == right@.len(),
        left@ == right@ ==> same,
        same <==> left@.len() == right@.len() && forall|i: int|
            0 <= i < left@.len() ==> {
                let (one, other) = ((#[trigger] left@[i]) as u32, right@[i] as u32);
                ||| one == other
                ||| 65 <= one <= 90 && other == one + 32
                ||| 65 <= other <= 90 && one == other + 32
            },
{
    let (one, other) = (lowered(left@), lowered(right@));
    if one == other {
        assert forall|i: int| 0 <= i < left@.len() implies {
            let (a, b) = ((#[trigger] left@[i]) as u32, right@[i] as u32);
            ||| a == b
            ||| 65 <= a <= 90 && b == a + 32
            ||| 65 <= b <= 90 && a == b + 32
        } by {
            assert(one[i] == other[i]);
            crate::laws::basics::lemma_cases(left@, i);
            crate::laws::basics::lemma_cases(right@, i);
        }
    }
    if left@.len() == right@.len() && forall|i: int|
        0 <= i < left@.len() ==> {
            let (a, b) = ((#[trigger] left@[i]) as u32, right@[i] as u32);
            ||| a == b
            ||| 65 <= a <= 90 && b == a + 32
            ||| 65 <= b <= 90 && a == b + 32
        } {
        assert forall|i: int| 0 <= i < one.len() implies one[i] == other[i] by {
            let (a, b) = (left@[i] as u32, right@[i] as u32);
            crate::laws::basics::lemma_cases(left@, i);
            crate::laws::basics::lemma_cases(right@, i);
            assert(one[i] as u32 == other[i] as u32);
        }
        assert(one =~= other);
    }
}

/// What is trimmed was padding, and none is left at the ends.
pub proof fn lemma_trim(text: &str, padding: Padding, kept: String)
    requires
        call_ensures(trim, (text, padding), kept),
    ensures
        exists|front: Seq<char>, back: Seq<char>|
            {
                &&& text@ == #[trigger] (front + kept@ + back)
                &&& only_padding(front, padding)
                &&& only_padding(back, padding)
            },
        kept@.len() > 0 ==> !padding.covers(kept@.first()) && !padding.covers(kept@.last()),
{
    lemma_trimmed(text@, padding);
}

/// A text is blank when it holds white space alone.
pub proof fn lemma_blank(text: &str, all: bool, i: int)
    requires
        call_ensures(blank, (text,), all),
    ensures
        all && 0 <= i < text@.len() ==> is_white_space(text@[i]),
        text@.len() == 0 ==> all,
        !all ==> exists|i: int| 0 <= i < text@.len() && !is_white_space(#[trigger] text@[i]),
{
}

/// Texts are joined with the separator between neighbours.
pub proof fn lemma_join(parts: &Vec<String>, separator: &str, text: String)
    requires
        call_ensures(join, (parts, separator), text),
    ensures
        parts@.len() == 0 ==> text@.len() == 0,
        parts@.len() == 1 ==> text@ == parts@[0]@,
        parts@.len() == 2 ==> text@ == parts@[0]@ + separator@ + parts@[1]@,
        parts@.len() > 2 ==> text@ == parts@[0]@ + separator@ + joined(
            views(parts@).skip(1),
            separator@,
        ),
{
    let all = views(parts@);
    lemma_joined(all, separator@);
    if parts@.len() == 2 {
        lemma_joined(all.skip(1), separator@);
        assert(all.skip(1)[0] == parts@[1]@);
    }
    if parts@.len() > 0 {
        assert(all[0] == parts@[0]@);
    }
}

/// Two texts one after the other.
pub proof fn lemma_concat(first: &str, second: &str, text: String)
    requires
        call_ensures(concat, (first, second), text),
    ensures
        text@.len() == first@.len() + second@.len(),
        text@.take(first@.len() as int) == first@,
        text@.skip(first@.len() as int) == second@,
{
    assert(text@.take(first@.len() as int) =~= first@);
    assert(text@.skip(first@.len() as int) =~= second@);
}

/// Texts are compared character by character.
pub proof fn lemma_at_most(left: &str, right: &str, ordered: bool, common: Seq<char>)
    requires
        call_ensures(at_most, (left, right), ordered),
        common.len() < left@.len(),
        common.len() < right@.len(),
        left@.take(common.len() as int) == common,
        right@.take(common.len() as int) == common,
        left@[common.len() as int] != right@[common.len() as int],
    ensures
        ordered <==> left@[common.len() as int] < right@[common.len() as int],
{
    let one = left@.skip(common.len() as int);
    let other = right@.skip(common.len() as int);
    assert(left@ =~= common + one);
    assert(right@ =~= common + other);
    crate::laws::basics::lemma_text_le(common, one, other);
    crate::laws::basics::lemma_text_le(common, other, one);
}

/// Numbers are written in decimal digits, without a zero in front, and negative ones with a sign.
pub proof fn lemma_numbers(value: u64, text: String, signed: i64, other: String)
    requires
        call_ensures(format_u64, (value,), text),
        call_ensures(format_i64, (signed,), other),
    ensures
        value_of_digits(text@) == value,
        text@.len() > 0,
        text@.len() > 1 ==> text@[0] as u32 != 48,
        signed >= 0 ==> value_of_digits(other@) == signed,
        signed < 0 ==> other@[0] as u32 == 45 && value_of_digits(other@.skip(1)) == -signed,
{
    lemma_decimal(value as nat);
    lemma_signed_decimal(signed as int);
}

/// Each byte is written in two hexadecimal digits.
pub proof fn lemma_format_hex(bytes: &[u8], text: String, i: int)
    requires
        call_ensures(format_hex, (bytes,), text),
        0 <= i < bytes@.len(),
    ensures
        text@.len() == 2 * bytes@.len(),
        hex_value(text@[2 * i]) * 16 + hex_value(text@[2 * i + 1]) == bytes@[i],
{
    lemma_hex(bytes@, i);
}

/// The part of a path below a root is there exactly when ordinary names lead from the root to it.
pub proof fn lemma_safe_relative_path(
    root: &[PathComponent],
    path: &[PathComponent],
    relative: Option<&[PathComponent]>,
)
    requires
        call_ensures(safe_relative_path, (root, path), relative),
    ensures
        relative is Some <==> exists|names: Seq<OsNameView>|
            path_view(path@) == path_view(root@) + #[trigger] normal_path(names),
        relative matches Some(rest) ==> path_view(path@) == path_view(root@) + path_view(rest@),
{
    lemma_lies_under(path_view(root@), path_view(path@));
}

/// The name in an archive is that of each directory and then that of the file, with slashes between.
pub proof fn lemma_normalize_archive_path(
    path: &[PathComponent],
    name: Option<String>,
    names: Seq<Seq<char>>,
)
    requires
        call_ensures(normalize_archive_path, (path,), name),
        path_view(path@) == text_path(names),
    ensures
        names.len() == 0 ==> name is None,
        names.len() == 1 && names[0].len() > 0 ==> name is Some && name->0@ == names[0],
        names.len() > 1 ==> name is Some && name->0@ == joined(names.drop_last(), seq!['/']) + seq![
            '/',
        ] + names.last(),
{
    crate::laws::basics::lemma_archive_path(names);
}

/// Which files are screenshots and which are logs.
pub proof fn lemma_evidence_files(
    relative: &[PathComponent],
    names: Seq<Seq<char>>,
    image: bool,
    log: bool,
)
    requires
        call_ensures(is_on_error_image, (relative,), image),
        call_ensures(is_log_file, (relative,), log),
        path_view(relative@) == text_path(names),
        names.len() > 0,
    ensures
        image <==> {
            &&& lowered(names[0]) == "on_error"@
            &&& exists|stem: Seq<char>, extension: Seq<char>|
                {
                    &&& lowered(names.last()) == #[trigger] (stem + extension)
                    &&& stem.len() > 0
                    &&& extension == ".png"@ || extension == ".jpg"@ || extension == ".jpeg"@
                }
        },
        log <==> {
            &&& lowered(names[0]) != "on_error"@
            &&& lowered(names[0]) != "vision"@
            &&& (exists|stem: Seq<char>| lowered(names.last()) == #[trigger] (stem + ".log"@))
                || (exists|stem: Seq<char>, rest: Seq<char>|
                lowered(names.last()) == #[trigger] (stem + ".log."@ + rest))
        },
{
    crate::laws::basics::lemma_image_path(names);
    crate::laws::basics::lemma_log_path(names);
}

/// The first directory of a path is known by its name, whatever the case of its letters is.
pub proof fn lemma_first_component_is(
    path: &[PathComponent],
    expected: &str,
    found: bool,
    names: Seq<Seq<char>>,
)
    requires
        call_ensures(first_component_is, (path, expected), found),
        path_view(path@) == text_path(names),
    ensures
        found <==> names.len() > 0 && lowered(names[0]) == lowered(expected@),
{
    if names.len() > 0 {
        crate::laws::basics::lemma_first_is(names, expected@);
    }
}

/// What a log is called and when it is read follows from its name alone.
pub proof fn lemma_log_named(
    path: &str,
    priority: u8,
    kind: &'static str,
    directory: Seq<char>,
    name: Seq<char>,
)
    requires
        call_ensures(log_priority, (path,), priority),
        call_ensures(log_kind, (path,), kind),
        path@ == directory + name,
        name.len() > 0,
        !name.contains('/'),
        name != seq!['.'],
        name != seq!['.', '.'],
        directory.len() > 0 ==> directory.last() == '/',
    ensures
        ({
            let lower = lowered(name);
            &&& starts_with(lower, "maafw.log"@) ==> priority == 0 && kind@ == "maafw"@
            &&& starts_with(lower, "maa.log"@) ==> priority == 1 && kind@ == "maa"@
            &&& starts_with(lower, "mxu"@) || starts_with(lower, "log-"@) ==> priority == 2 && kind@
                == "mxu"@
            &&& !starts_with(lower, "maafw.log"@) && !starts_with(lower, "maa.log"@)
                && !starts_with(lower, "mxu"@) && !starts_with(lower, "log-"@) ==> priority == 3
                && kind@ == "other"@
        }),
{
    lemma_log_kinds(directory, name);
}

/// A point in time comes before another one, and a file was written since a task started, as the
/// nanoseconds tell.
pub proof fn lemma_times(
    time: Timestamp,
    other: Timestamp,
    earlier: bool,
    stamp: FileStamp,
    started_at: Timestamp,
    modified: bool,
)
    requires
        call_ensures(Timestamp::before, (time, other), earlier),
        call_ensures(modified_since, (stamp, started_at), modified),
        time.nanos < 1_000_000_000,
        other.nanos < 1_000_000_000,
        started_at.nanos < 1_000_000_000,
        stamp.modified matches Some(modified) ==> modified.nanos < 1_000_000_000,
    ensures
        earlier <==> nanoseconds(time) < nanoseconds(other),
        modified <==> {
            &&& stamp.modified matches Some(written)
            &&& written.secs <= i64::MAX - 2
            &&& nanoseconds(written) + 2_000_000_000 >= nanoseconds(started_at)
        },
{
    lemma_before(time, other);
    lemma_modified_since(stamp, started_at);
}

/// Durations and wall times are told in whole milliseconds.
pub proof fn lemma_milliseconds(
    started: u128,
    now: u128,
    millis: u64,
    time: Timestamp,
    since: Option<u64>,
)
    requires
        call_ensures(elapsed_ms, (started, now), millis),
        call_ensures(unix_time_ms, (time,), since),
        time.nanos < 1_000_000_000,
        time.secs < 1_000_000_000_000_000,
    ensures
        now < started ==> millis == 0,
        started <= now && now - started < 1_000_000 * 0x1_0000_0000_0000_0000 ==> millis * 1_000_000
            <= now - started < (millis + 1) * 1_000_000,
        since is None <==> nanoseconds(time) < 0,
        since matches Some(told) ==> told * 1_000_000 <= nanoseconds(time) < (told + 1)
            * 1_000_000,
{
    lemma_millis(started, now);
    lemma_unix_ms(time);
}

/// Texts that are put in order keep each of them once.
pub proof fn lemma_sort_and_dedup(texts: Vec<String>, kept: Vec<String>, i: int, j: int, text: Seq<char>)
    requires
        call_ensures(sort_and_dedup, (texts,), kept),
    ensures
        views(kept@).contains(text) <==> views(texts@).contains(text),
        0 <= i < j < kept@.len() ==> kept@[i]@ != kept@[j]@ && text_le(kept@[i]@, kept@[j]@),
{
    lemma_ordered_set(views(texts@));
    if 0 <= i < j < kept@.len() {
        let all = views(kept@);
        assert(all[i] == kept@[i]@ && all[j] == kept@[j]@);
        assert(crate::order::text_order()(all[i], all[j]));
    }
}

/// Those of the items that are equal to the given one in an order, as they stand.
pub open spec fn alike<T>(items: Seq<T>, item: T, le: spec_fn(T, T) -> bool) -> Seq<T>
    decreases items.len(),
{
    if items.len() == 0 {
        items
    } else if le(items.last(), item) && le(item, items.last()) {
        alike(items.drop_last(), item, le).push(items.last())
    } else {
        alike(items.drop_last(), item, le)
    }
}

proof fn lemma_inserted_alike<T>(items: Seq<T>, new: T, item: T, le: spec_fn(T, T) -> bool)
    requires
        is_order(le),
    ensures
        alike(inserted(items, new, le), item, le) == (if le(new, item) && le(item, new) {
            alike(items, item, le).push(new)
        } else {
            alike(items, item, le)
        }),
    decreases items.len(),
{
    let result = inserted(items, new, le);
    if items.len() == 0 || le(items.last(), new) {
        assert(result.drop_last() =~= items);
    } else {
        let front = items.drop_last();
        lemma_inserted_alike(front, new, item, le);
        assert(result.drop_last() =~= inserted(front, new, le));
        if le(new, item) && le(item, new) && le(items.last(), item) && le(item, items.last()) {
            assert(le(items.last(), item) && le(item, new));
            assert(le(items.last(), new));
        }
    }
}

/// Items that are equal in an order stay as they stood when they are sorted.
pub proof fn lemma_sorting_stable<T>(items: Seq<T>, item: T, le: spec_fn(T, T) -> bool)
    requires
        is_order(le),
    ensures
        alike(sorted_by(items, le), item, le) == alike(items, item, le),
    decreases items.len(),
{
    if items.len() > 0 {
        lemma_sorting_stable(items.drop_last(), item, le);
        lemma_inserted_alike(sorted_by(items.drop_last(), le), items.last(), item, le);
    }
}

} // verus!
