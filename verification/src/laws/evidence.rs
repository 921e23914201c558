//! The evidence of a failed task: what its baseline holds, and which files are selected for it.

use vstd::prelude::*;
use crate::discovery::{is_whole_walk, listing_views, path_views, with_warning, Listed, Walk};
use crate::evidence::{
    capture_task_start, image_name_order, is_baseline, log_name_order, record_baseline,
    select_from_files, select_log_part, should_include_image, stat_gave, Baseline, ImagePick,
    LogPart, LogPick, Opened, PathMap, Picks, SelectedEntries, TaskEvidenceStart,
};
use crate::order::{is_order, lemma_ordered_set, lemma_sorted_contains};
use crate::path::{
    archive_path, is_image_path, is_log_path, lies_under, path_view, ComponentView, PathComponent,
};
use crate::selection::{
    apply_task_image_refresh, capture_task_end, capture_task_image_refresh, is_refresh,
    is_selection, lemma_pushed_contains, refreshed, select_entries, select_images,
    select_images_from_files, ImagePicks, Refresh, Selection, TaskEvidenceSelection,
    TaskImageRefresh,
};
use crate::text::{decimal, lemma_text_le_total, lemma_text_le_transitive, text_le, views};
use crate::time::{FileStamp, Timestamp};

verus! {

/// One point in time comes before another.
pub open spec fn earlier(time: Timestamp, other: Timestamp) -> bool {
    time.secs < other.secs || (time.secs == other.secs && time.nanos < other.nanos)
}

/// A file was written before a task started, or does not tell when it was written.
pub open spec fn written_before(stamp: FileStamp, started_at: Timestamp) -> bool {
    stamp.modified matches Some(modified) ==> earlier(modified, started_at)
}

/// A file was written since a task started, or no more than two seconds before.
pub open spec fn written_since(stamp: FileStamp, started_at: Timestamp) -> bool {
    &&& stamp.modified matches Some(modified)
    &&& modified.secs <= i64::MAX - 2
    &&& modified.secs + 2 > started_at.secs || (modified.secs + 2 == started_at.secs
        && modified.nanos >= started_at.nanos)
}

/// The part of a path below a root.
pub open spec fn below(root: Seq<ComponentView>, file: Seq<ComponentView>) -> Seq<ComponentView> {
    file.skip(root.len() as int)
}

proof fn lemma_below_apart(root: Seq<ComponentView>, one: Seq<ComponentView>, other: Seq<ComponentView>)
    requires
        lies_under(root, one),
        lies_under(root, other),
        one != other,
    ensures
        below(root, one) != below(root, other),
{
    if below(root, one) == below(root, other) {
        assert(one =~= root + below(root, one));
        assert(other =~= root + below(root, other));
    }
}

/// A file that is looked at when a task starts: where it is a screenshot from before the start, the
/// baseline holds it in the state that it was in; where it is a log, the baseline holds its length.
/// A screenshot that was written since is not held.
pub proof fn lemma_baseline_holds(
    root: Seq<ComponentView>,
    started_at: Timestamp,
    warnings: Seq<Seq<char>>,
    files: Seq<Seq<ComponentView>>,
    stamps: Seq<Option<FileStamp>>,
    i: int,
)
    requires
        files.no_duplicates(),
        stamps.len() == files.len(),
        0 <= i < files.len(),
        lies_under(root, files[i]),
    ensures
        ({
            let start = Baseline::empty(root, started_at, warnings).after_files(files, stamps);
            let relative = below(root, files[i]);
            &&& is_image_path(relative) ==> {
                &&& start.existing_images.dom().contains(relative) <==> {
                    &&& stamps[i] matches Some(stamp)
                    &&& written_before(stamp, started_at)
                }
                &&& start.existing_images.dom().contains(relative)
                    ==> Some(start.existing_images[relative]) == stamps[i]
            }
            &&& is_log_path(relative) ==> {
                &&& start.log_lengths.dom().contains(relative) <==> stamps[i] is Some
                &&& stamps[i] matches Some(stamp) ==> start.log_lengths[relative] == stamp.len
            }
        }),
    decreases files.len(),
{
    let empty = Baseline::empty(root, started_at, warnings);
    let front = files.drop_last();
    let before = empty.after_files(front, stamps.drop_last());
    lemma_baseline_given(root, started_at, warnings, front, stamps.drop_last());
    let last = files.last();
    if i < front.len() {
        assert(front[i] == files[i]);
        assert forall|a: int, b: int| 0 <= a < front.len() && 0 <= b < front.len() && a != b implies front[a]
            != front[b] by {
            assert(files[a] != files[b]);
        }
        lemma_baseline_holds(root, started_at, warnings, front, stamps.drop_last(), i);
        if lies_under(root, last) {
            assert(files[i] != files[files.len() - 1]);
            lemma_below_apart(root, files[i], last);
        }
    } else {
        let relative = below(root, files[i]);
        assert(!before.existing_images.dom().contains(relative)
            && !before.log_lengths.dom().contains(relative)) by {
            lemma_baseline_held(root, started_at, warnings, front, stamps.drop_last(), relative);
            assert forall|j: int| 0 <= j < front.len() && lies_under(root, front[j]) implies below(
                root,
                #[trigger] front[j],
            ) != relative by {
                assert(files[j] != files[i]);
                lemma_below_apart(root, files[j], files[i]);
            }
        }
    }
}

proof fn lemma_baseline_given(
    root: Seq<ComponentView>,
    started_at: Timestamp,
    warnings: Seq<Seq<char>>,
    files: Seq<Seq<ComponentView>>,
    stamps: Seq<Option<FileStamp>>,
)
    ensures
        ({
            let start = Baseline::empty(root, started_at, warnings).after_files(files, stamps);
            start.root == root && start.started_at == started_at && start.warnings == warnings
        }),
    decreases files.len(),
{
    if files.len() > 0 {
        lemma_baseline_given(root, started_at, warnings, files.drop_last(), stamps.drop_last());
    }
}

/// Nothing is in a baseline but the screenshots and logs that were looked at.
pub proof fn lemma_baseline_held(
    root: Seq<ComponentView>,
    started_at: Timestamp,
    warnings: Seq<Seq<char>>,
    files: Seq<Seq<ComponentView>>,
    stamps: Seq<Option<FileStamp>>,
    relative: Seq<ComponentView>,
)
    requires
        stamps.len() == files.len(),
    ensures
        ({
            let start = Baseline::empty(root, started_at, warnings).after_files(files, stamps);
            &&& start.root == root
            &&& start.started_at == started_at
            &&& start.warnings == warnings
            &&& start.existing_images.dom().contains(relative) ==> is_image_path(relative)
                && exists|i: int|
                0 <= i < files.len() && lies_under(root, #[trigger] files[i]) && below(
                    root,
                    files[i],
                ) == relative && stamps[i] == Some(start.existing_images[relative])
            &&& start.log_lengths.dom().contains(relative) ==> is_log_path(relative) && exists|i: int|
                0 <= i < files.len() && lies_under(root, #[trigger] files[i]) && below(
                    root,
                    files[i],
                ) == relative && (stamps[i] matches Some(stamp) && stamp.len
                    == start.log_lengths[relative])
        }),
    decreases files.len(),
{
    if files.len() > 0 {
        let front = files.drop_last();
        let early = stamps.drop_last();
        let empty = Baseline::empty(root, started_at, warnings);
        let before = empty.after_files(front, early);
        let start = empty.after_files(files, stamps);
        lemma_baseline_held(root, started_at, warnings, front, early, relative);
        let last = files.len() - 1;
        if start.existing_images.dom().contains(relative) {
            if before.existing_images.dom().contains(relative) && before.existing_images[relative]
                == start.existing_images[relative] {
                let i = choose|i: int|
                    0 <= i < front.len() && lies_under(root, #[trigger] front[i]) && below(
                        root,
                        front[i],
                    ) == relative && early[i] == Some(before.existing_images[relative]);
                assert(files[i] == front[i] && stamps[i] == early[i]);
            } else {
                assert(lies_under(root, files[last]) && below(root, files[last]) == relative);
            }
        }
        if start.log_lengths.dom().contains(relative) {
            if before.log_lengths.dom().contains(relative) && before.log_lengths[relative]
                == start.log_lengths[relative] {
                let i = choose|i: int|
                    0 <= i < front.len() && lies_under(root, #[trigger] front[i]) && below(
                        root,
                        front[i],
                    ) == relative && (early[i] matches Some(stamp) && stamp.len
                        == before.log_lengths[relative]);
                assert(files[i] == front[i] && stamps[i] == early[i]);
            } else {
                assert(lies_under(root, files[last]) && below(root, files[last]) == relative);
            }
        }
    }
}

/// A screenshot that a task wrote itself: it lies below the root, is a screenshot by its name, was
/// written since the start, and the baseline does not hold it in the state that it is in.
pub open spec fn is_own_image<H>(
    start: Baseline,
    file: Seq<ComponentView>,
    opened: Opened<H>,
) -> bool {
    let relative = below(start.root, file);
    &&& lies_under(start.root, file)
    &&& is_image_path(relative)
    &&& archive_path(relative) is Some
    &&& opened matches Opened::File { source, display, stamp }
    &&& written_since(stamp, start.started_at)
    &&& !(start.existing_images.dom().contains(relative) && start.existing_images[relative]
        == stamp)
}

/// `image` is the screenshot `file` as it was opened.
pub open spec fn is_image_of<H>(
    image: ImagePick<H>,
    root: Seq<ComponentView>,
    file: Seq<ComponentView>,
    opened: Opened<H>,
) -> bool {
    &&& opened matches Opened::File { source, display, stamp }
    &&& image.source == source
    &&& image.source_path == display@
    &&& Some(image.archive_name) == archive_path(below(root, file))
    &&& image.len == stamp.len
    &&& image.stamp == stamp
}

/// What the baseline tells of the length of a log.
pub open spec fn length_before(start: Baseline, relative: Seq<ComponentView>) -> Option<u64> {
    if start.log_lengths.dom().contains(relative) {
        Some(start.log_lengths[relative])
    } else {
        None
    }
}

/// A log that a task wrote to: it grew since the start, or it is not empty and was written since.
pub open spec fn is_own_log<H>(
    start: Baseline,
    file: Seq<ComponentView>,
    opened: Opened<H>,
) -> bool {
    let relative = below(start.root, file);
    &&& lies_under(start.root, file)
    &&& is_log_path(relative)
    &&& archive_path(relative) is Some
    &&& opened matches Opened::File { source, display, stamp }
    &&& (length_before(start, relative) matches Some(length) && stamp.len > length) || (stamp.len
        > 0 && written_since(stamp, start.started_at))
}

/// `log` is the part of the log `file` that belongs to the task: from at most sixty-four kibibytes
/// before the place where the task began to write, or all of a log that was not there or became
/// shorter, to its end.
pub open spec fn is_log_of<H>(
    log: LogPick<H>,
    start: Baseline,
    file: Seq<ComponentView>,
    opened: Opened<H>,
) -> bool {
    let relative = below(start.root, file);
    &&& opened matches Opened::File { source, display, stamp }
    &&& log.source == source
    &&& Some(log.archive_name) == archive_path(relative)
    &&& log.end == stamp.len
    &&& match length_before(start, relative) {
        Some(length) => if stamp.len < length || length < 65536 {
            log.start == 0
        } else {
            log.start == length - 65536
        },
        None => log.start == 0,
    }
}

/// The warning that goes with a log that a task wrote to, where there is one.
pub open spec fn log_warning<H>(
    start: Baseline,
    file: Seq<ComponentView>,
    opened: Opened<H>,
) -> Option<Seq<char>> {
    let relative = below(start.root, file);
    let name = archive_path(relative)->0;
    match length_before(start, relative) {
        None => Some("new_log_included_whole:"@ + name),
        Some(length) => if opened->stamp.len > length {
            None
        } else if opened->stamp.len == length {
            Some("log_changed_during_start_snapshot:"@ + name)
        } else {
            Some("rotated_log_included_whole:"@ + name)
        },
    }
}

/// The warning that there were too many screenshots.
pub open spec fn too_many_images() -> Seq<char> {
    "image_file_limit_reached:"@ + decimal(128)
}

/// The warning that there were too many logs.
pub open spec fn too_many_logs() -> Seq<char> {
    "log_file_limit_reached:"@ + decimal(128)
}

proof fn lemma_with_warning(warnings: Seq<Seq<char>>, warning: Seq<char>, other: Seq<char>)
    ensures
        with_warning(warnings, warning).contains(other) == (warnings.contains(other) || other
            == warning),
{
    lemma_pushed_contains(warnings, warning, other);
}

/// The screenshots of a selection are exactly the task's own, up to a limit that is told of.
pub open spec fn images_selected<H>(
    picks: Picks<H>,
    start: Baseline,
    files: Seq<Seq<ComponentView>>,
    opened: Seq<Opened<H>>,
) -> bool {
    &&& picks.images.len() <= 128
    &&& forall|image: ImagePick<H>| #[trigger]
        picks.images.contains(image) ==> exists|i: int|
            0 <= i < files.len() && #[trigger] is_own_image(start, files[i], opened[i])
                && is_image_of(image, start.root, files[i], opened[i])
    &&& forall|i: int|
        0 <= i < files.len() && #[trigger] is_own_image(start, files[i], opened[i]) ==> (exists|
            image: ImagePick<H>,
        | #[trigger]
            picks.images.contains(image) && is_image_of(image, start.root, files[i], opened[i]))
            || (picks.images.len() == 128 && picks.warnings.contains(too_many_images()))
}

/// The logs of a selection are exactly those that the task wrote to, up to a limit that is told of,
/// and it is told where a log was taken for more than what the task added to it.
pub open spec fn logs_selected<H>(
    picks: Picks<H>,
    start: Baseline,
    files: Seq<Seq<ComponentView>>,
    opened: Seq<Opened<H>>,
) -> bool {
    &&& picks.logs.len() <= 128
    &&& forall|log: LogPick<H>| #[trigger]
        picks.logs.contains(log) ==> exists|i: int|
            0 <= i < files.len() && #[trigger] is_own_log(start, files[i], opened[i]) && is_log_of(
                log,
                start,
                files[i],
                opened[i],
            ) && (log_warning(start, files[i], opened[i]) matches Some(warning)
                ==> picks.warnings.contains(warning))
    &&& forall|i: int|
        0 <= i < files.len() && #[trigger] is_own_log(start, files[i], opened[i]) ==> (exists|
            log: LogPick<H>,
        | #[trigger]
            picks.logs.contains(log) && is_log_of(log, start, files[i], opened[i])) || (
        picks.logs.len() == 128 && picks.warnings.contains(too_many_logs()))
}

/// The warnings of a selection are those that were there, those of its limits, and those of its logs.
pub open spec fn warnings_told<H>(
    picks: Picks<H>,
    start: Baseline,
    files: Seq<Seq<ComponentView>>,
    opened: Seq<Opened<H>>,
    warnings: Seq<Seq<char>>,
) -> bool {
    &&& forall|warning: Seq<char>| #[trigger]
        warnings.contains(warning) ==> picks.warnings.contains(warning)
    &&& forall|warning: Seq<char>| #[trigger]
        picks.warnings.contains(warning) ==> {
            ||| warnings.contains(warning)
            ||| warning == too_many_images() && picks.images.len() == 128
            ||| warning == too_many_logs() && picks.logs.len() == 128
            ||| exists|i: int|
                0 <= i < files.len() && #[trigger] is_own_log(start, files[i], opened[i])
                    && log_warning(start, files[i], opened[i]) == Some(warning)
        }
}

/// What a selection is: exactly the task's own files, up to limits that are told of.
pub open spec fn selects<H>(
    picks: Picks<H>,
    start: Baseline,
    files: Seq<Seq<ComponentView>>,
    opened: Seq<Opened<H>>,
    warnings: Seq<Seq<char>>,
) -> bool {
    &&& images_selected(picks, start, files, opened)
    &&& logs_selected(picks, start, files, opened)
    &&& warnings_told(picks, start, files, opened, warnings)
}

/// What one more file changes of a selection.
spec fn is_step<H>(
    before: Picks<H>,
    picks: Picks<H>,
    start: Baseline,
    file: Seq<ComponentView>,
    open: Opened<H>,
) -> bool {
    &&& if is_own_image(start, file, open) && before.images.len() < 128 {
        &&& picks.images.len() > 0
        &&& picks.images == before.images.push(picks.images.last())
        &&& is_image_of(picks.images.last(), start.root, file, open)
    } else {
        picks.images == before.images
    }
    &&& is_own_image(start, file, open) && before.images.len() >= 128 ==> picks.warnings.contains(
        too_many_images(),
    )
    &&& if is_own_log(start, file, open) && before.logs.len() < 128 {
        &&& picks.logs.len() > 0
        &&& picks.logs == before.logs.push(picks.logs.last())
        &&& is_log_of(picks.logs.last(), start, file, open)
        &&& log_warning(start, file, open) matches Some(warning) ==> picks.warnings.contains(
            warning,
        )
    } else {
        picks.logs == before.logs
    }
    &&& is_own_log(start, file, open) && before.logs.len() >= 128 ==> picks.warnings.contains(
        too_many_logs(),
    )
    &&& forall|warning: Seq<char>| #[trigger]
        before.warnings.contains(warning) ==> picks.warnings.contains(warning)
    &&& forall|warning: Seq<char>| #[trigger]
        picks.warnings.contains(warning) ==> {
            ||| before.warnings.contains(warning)
            ||| warning == too_many_images() && before.images.len() >= 128
            ||| warning == too_many_logs() && before.logs.len() >= 128
            ||| is_own_log(start, file, open) && log_warning(start, file, open) == Some(warning)
        }
}

proof fn lemma_step<H>(
    before: Picks<H>,
    start: Baseline,
    file: Seq<ComponentView>,
    open: Opened<H>,
)
    ensures
        is_step(before, before.after_file(start, file, open), start, file, open),
{
    let picks = before.after_file(start, file, open);
    let relative = below(start.root, file);
    assert(!(is_image_path(relative) && is_log_path(relative)));
    assert forall|warning: Seq<char>| #[trigger] with_warning(
        before.warnings,
        too_many_images(),
    ).contains(warning) == (before.warnings.contains(warning) || warning == too_many_images()) by {
        lemma_with_warning(before.warnings, too_many_images(), warning);
    }
    assert forall|warning: Seq<char>| #[trigger] with_warning(
        before.warnings,
        too_many_logs(),
    ).contains(warning) == (before.warnings.contains(warning) || warning == too_many_logs()) by {
        lemma_with_warning(before.warnings, too_many_logs(), warning);
    }
    if is_own_log(start, file, open) && log_warning(start, file, open) is Some {
        let added = log_warning(start, file, open)->0;
        assert forall|warning: Seq<char>| #[trigger] before.warnings.push(added).contains(warning)
            == (before.warnings.contains(warning) || warning == added) by {
            lemma_pushed_contains(before.warnings, added, warning);
        }
    }
    if is_own_image(start, file, open) && before.images.len() < 128 {
        assert(picks.images =~= before.images.push(picks.images.last()));
        assert(is_image_of(picks.images.last(), start.root, file, open));
    } else {
        assert(picks.images == before.images);
    }
    if is_own_log(start, file, open) && before.logs.len() < 128 {
        assert(picks.logs =~= before.logs.push(picks.logs.last()));
        assert(is_log_of(picks.logs.last(), start, file, open));
        if log_warning(start, file, open) is Some {
            assert(picks.warnings == before.warnings.push(log_warning(start, file, open)->0));
        } else {
            assert(picks.warnings == before.warnings);
        }
    } else {
        assert(picks.logs == before.logs);
        assert(picks.warnings == before.warnings || picks.warnings == with_warning(
            before.warnings,
            too_many_images(),
        ) && before.images.len() >= 128 || picks.warnings == with_warning(
            before.warnings,
            too_many_logs(),
        ) && before.logs.len() >= 128);
        assert(is_own_image(start, file, open) && before.images.len() >= 128 ==> picks.warnings
            == with_warning(before.warnings, too_many_images()));
        assert(is_own_log(start, file, open) ==> picks.warnings == with_warning(
            before.warnings,
            too_many_logs(),
        ));
    }
    assert forall|warning: Seq<char>| #[trigger] before.warnings.contains(warning) implies picks.warnings.contains(
        warning,
    ) by {
        assert(with_warning(before.warnings, too_many_images()).contains(warning));
        assert(with_warning(before.warnings, too_many_logs()).contains(warning));
        if is_own_log(start, file, open) && log_warning(start, file, open) is Some {
            assert(before.warnings.push(log_warning(start, file, open)->0).contains(warning));
        }
    }
    lemma_with_warning(before.warnings, too_many_images(), too_many_images());
    lemma_with_warning(before.warnings, too_many_logs(), too_many_logs());
}

#[verifier::spinoff_prover]
proof fn lemma_images_step<H>(
    before: Picks<H>,
    picks: Picks<H>,
    start: Baseline,
    files: Seq<Seq<ComponentView>>,
    opened: Seq<Opened<H>>,
)
    requires
        files.len() > 0,
        opened.len() == files.len(),
        images_selected(before, start, files.drop_last(), opened.drop_last()),
        is_step(before, picks, start, files.last(), opened.last()),
    ensures
        images_selected(picks, start, files, opened),
{
    let front = files.drop_last();
    let early = opened.drop_last();
    let last = files.len() - 1;
    let file = files[last];
    let open = opened[last];
    assert forall|image: ImagePick<H>| #[trigger] before.images.contains(image) implies picks.images.contains(
        image,
    ) by {
        lemma_pushed_contains(before.images, picks.images.last(), image);
    }
    assert forall|image: ImagePick<H>| #[trigger] picks.images.contains(image) implies exists|i: int|
        0 <= i < files.len() && #[trigger] is_own_image(start, files[i], opened[i])
            && is_image_of(image, start.root, files[i], opened[i]) by {
        if before.images.contains(image) {
            let i = choose|i: int|
                0 <= i < front.len() && #[trigger] is_own_image(start, front[i], early[i])
                    && is_image_of(image, start.root, front[i], early[i]);
            assert(is_own_image(start, files[i], opened[i]));
        } else {
            lemma_pushed_contains(before.images, picks.images.last(), image);
            assert(is_own_image(start, file, open));
            assert(is_image_of(image, start.root, file, open));
        }
    }
    assert forall|i: int|
        0 <= i < files.len() && #[trigger] is_own_image(start, files[i], opened[i]) implies (
    exists|image: ImagePick<H>| #[trigger]
        picks.images.contains(image) && is_image_of(image, start.root, files[i], opened[i]))
        || (picks.images.len() == 128 && picks.warnings.contains(too_many_images())) by {
        if i < last {
            assert(is_own_image(start, front[i], early[i]));
            if exists|image: ImagePick<H>| #[trigger]
                before.images.contains(image) && is_image_of(
                    image,
                    start.root,
                    front[i],
                    early[i],
                ) {
                let image = choose|image: ImagePick<H>| #[trigger]
                    before.images.contains(image) && is_image_of(
                        image,
                        start.root,
                        front[i],
                        early[i],
                    );
                assert(picks.images.contains(image));
            }
        } else if before.images.len() < 128 {
            let image = picks.images.last();
            assert(picks.images[picks.images.len() - 1] == image);
            assert(picks.images.contains(image));
            assert(is_image_of(image, start.root, file, open));
        }
    }
}

#[verifier::spinoff_prover]
proof fn lemma_logs_step<H>(
    before: Picks<H>,
    picks: Picks<H>,
    start: Baseline,
    files: Seq<Seq<ComponentView>>,
    opened: Seq<Opened<H>>,
)
    requires
        files.len() > 0,
        opened.len() == files.len(),
        logs_selected(before, start, files.drop_last(), opened.drop_last()),
        is_step(before, picks, start, files.last(), opened.last()),
    ensures
        logs_selected(picks, start, files, opened),
{
    let front = files.drop_last();
    let early = opened.drop_last();
    let last = files.len() - 1;
    let file = files[last];
    let open = opened[last];
    assert forall|log: LogPick<H>| #[trigger] before.logs.contains(log) implies picks.logs.contains(
        log,
    ) by {
        lemma_pushed_contains(before.logs, picks.logs.last(), log);
    }
    assert forall|log: LogPick<H>| #[trigger] picks.logs.contains(log) implies exists|i: int|
        0 <= i < files.len() && #[trigger] is_own_log(start, files[i], opened[i]) && is_log_of(
            log,
            start,
            files[i],
            opened[i],
        ) && (log_warning(start, files[i], opened[i]) matches Some(warning)
            ==> picks.warnings.contains(warning)) by {
        if before.logs.contains(log) {
            let i = choose|i: int|
                0 <= i < front.len() && #[trigger] is_own_log(start, front[i], early[i])
                    && is_log_of(log, start, front[i], early[i]) && (log_warning(
                    start,
                    front[i],
                    early[i],
                ) matches Some(warning) ==> before.warnings.contains(warning));
            assert(is_own_log(start, files[i], opened[i]));
        } else {
            lemma_pushed_contains(before.logs, picks.logs.last(), log);
            assert(is_own_log(start, file, open));
            assert(is_log_of(log, start, file, open));
        }
    }
    assert forall|i: int|
        0 <= i < files.len() && #[trigger] is_own_log(start, files[i], opened[i]) implies (
    exists|log: LogPick<H>| #[trigger]
        picks.logs.contains(log) && is_log_of(log, start, files[i], opened[i])) || (
    picks.logs.len() == 128 && picks.warnings.contains(too_many_logs())) by {
        if i < last {
            assert(is_own_log(start, front[i], early[i]));
            if exists|log: LogPick<H>| #[trigger]
                before.logs.contains(log) && is_log_of(log, start, front[i], early[i]) {
                let log = choose|log: LogPick<H>| #[trigger]
                    before.logs.contains(log) && is_log_of(log, start, front[i], early[i]);
                assert(picks.logs.contains(log));
            }
        } else if before.logs.len() < 128 {
            let log = picks.logs.last();
            assert(picks.logs[picks.logs.len() - 1] == log);
            assert(picks.logs.contains(log));
            assert(is_log_of(log, start, file, open));
        }
    }
}

#[verifier::spinoff_prover]
proof fn lemma_warnings_step<H>(
    before: Picks<H>,
    picks: Picks<H>,
    start: Baseline,
    files: Seq<Seq<ComponentView>>,
    opened: Seq<Opened<H>>,
    warnings: Seq<Seq<char>>,
)
    requires
        files.len() > 0,
        opened.len() == files.len(),
        before.images.len() <= 128,
        before.logs.len() <= 128,
        warnings_told(before, start, files.drop_last(), opened.drop_last(), warnings),
        is_step(before, picks, start, files.last(), opened.last()),
    ensures
        warnings_told(picks, start, files, opened, warnings),
{
    let front = files.drop_last();
    let early = opened.drop_last();
    let last = files.len() - 1;
    let file = files[last];
    let open = opened[last];
    assert forall|warning: Seq<char>| #[trigger] picks.warnings.contains(warning) implies {
        ||| warnings.contains(warning)
        ||| warning == too_many_images() && picks.images.len() == 128
        ||| warning == too_many_logs() && picks.logs.len() == 128
        ||| exists|i: int|
            0 <= i < files.len() && #[trigger] is_own_log(start, files[i], opened[i])
                && log_warning(start, files[i], opened[i]) == Some(warning)
    } by {
        if before.warnings.contains(warning) {
            if exists|i: int|
                0 <= i < front.len() && #[trigger] is_own_log(start, front[i], early[i])
                    && log_warning(start, front[i], early[i]) == Some(warning) {
                let i = choose|i: int|
                    0 <= i < front.len() && #[trigger] is_own_log(start, front[i], early[i])
                        && log_warning(start, front[i], early[i]) == Some(warning);
                assert(is_own_log(start, files[i], opened[i]));
            }
        } else if is_own_log(start, file, open) {
            assert(is_own_log(start, files[last], opened[last]));
        }
    }
}

proof fn lemma_picks_select<H>(
    start: Baseline,
    files: Seq<Seq<ComponentView>>,
    opened: Seq<Opened<H>>,
    warnings: Seq<Seq<char>>,
)
    requires
        opened.len() == files.len(),
    ensures
        selects(
            (Picks { logs: seq![], images: seq![], warnings }).after_files(start, files, opened),
            start,
            files,
            opened,
            warnings,
        ),
    decreases files.len(),
{
    let empty = Picks::<H> { logs: seq![], images: seq![], warnings };
    let picks = empty.after_files(start, files, opened);
    if files.len() > 0 {
        lemma_picks_select(start, files.drop_last(), opened.drop_last(), warnings);
        let before = empty.after_files(start, files.drop_last(), opened.drop_last());
        lemma_step(before, start, files.last(), opened.last());
        lemma_images_step(before, picks, start, files, opened);
        lemma_logs_step(before, picks, start, files, opened);
        lemma_warnings_step(before, picks, start, files, opened, warnings);
    }
}

proof fn lemma_name_orders<H>()
    ensures
        is_order(image_name_order::<H>()),
        is_order(log_name_order::<H>()),
{
    let images = image_name_order::<H>();
    let logs = log_name_order::<H>();
    assert forall|a: ImagePick<H>, b: ImagePick<H>| #[trigger] images(a, b) || images(b, a) by {
        lemma_text_le_total(a.archive_name, b.archive_name);
    }
    assert forall|a: ImagePick<H>, b: ImagePick<H>, c: ImagePick<H>| #[trigger]
        images(a, b) && #[trigger] images(b, c) implies images(a, c) by {
        lemma_text_le_transitive(a.archive_name, b.archive_name, c.archive_name);
    }
    assert forall|a: LogPick<H>, b: LogPick<H>| #[trigger] logs(a, b) || logs(b, a) by {
        lemma_text_le_total(a.archive_name, b.archive_name);
    }
    assert forall|a: LogPick<H>, b: LogPick<H>, c: LogPick<H>| #[trigger]
        logs(a, b) && #[trigger] logs(b, c) implies logs(a, c) by {
        lemma_text_le_transitive(a.archive_name, b.archive_name, c.archive_name);
    }
}

/// What is selected for a failed task: every screenshot and every part of a log that the task itself
/// wrote and nothing else, up to a limit that is told of; and the warnings are those of the start, of
/// the walk and of the selection.
pub proof fn lemma_selection_exact<H, F: Fn(&Vec<PathComponent>) -> Opened<H>>(
    picks: Picks<H>,
    start: Baseline,
    walk: Walk,
    open: F,
    opened: Seq<Opened<H>>,
)
    requires
        is_selection(picks, start, walk, open, opened),
    ensures
        selects(picks, start, walk.files, opened, start.warnings + walk.warnings),
{
    let warnings = start.warnings + walk.warnings;
    let unsorted = (Picks { logs: seq![], images: seq![], warnings }).after_files(
        start,
        walk.files,
        opened,
    );
    lemma_picks_select(start, walk.files, opened, warnings);
    lemma_name_orders::<H>();
    crate::order::lemma_sorted_by(unsorted.images, image_name_order());
    crate::order::lemma_sorted_by(unsorted.logs, log_name_order());
    lemma_ordered_set(unsorted.warnings);
    assert forall|image: ImagePick<H>| #[trigger] picks.images.contains(image)
        == unsorted.images.contains(image) by {
        lemma_sorted_contains(unsorted.images, image_name_order(), image);
    }
    assert forall|log: LogPick<H>| #[trigger] picks.logs.contains(log) == unsorted.logs.contains(
        log,
    ) by {
        lemma_sorted_contains(unsorted.logs, log_name_order(), log);
    }
    assert forall|i: int|
        0 <= i < walk.files.len() && #[trigger] is_own_image(start, walk.files[i], opened[i]) implies (
    exists|image: ImagePick<H>| #[trigger]
        picks.images.contains(image) && is_image_of(image, start.root, walk.files[i], opened[i]))
        || (picks.images.len() == 128 && picks.warnings.contains(too_many_images())) by {
        if exists|image: ImagePick<H>| #[trigger]
            unsorted.images.contains(image) && is_image_of(
                image,
                start.root,
                walk.files[i],
                opened[i],
            ) {
            let image = choose|image: ImagePick<H>| #[trigger]
                unsorted.images.contains(image) && is_image_of(
                    image,
                    start.root,
                    walk.files[i],
                    opened[i],
                );
            assert(picks.images.contains(image));
        }
    }
    assert forall|i: int|
        0 <= i < walk.files.len() && #[trigger] is_own_log(start, walk.files[i], opened[i]) implies (
    exists|log: LogPick<H>| #[trigger]
        picks.logs.contains(log) && is_log_of(log, start, walk.files[i], opened[i])) || (
    picks.logs.len() == 128 && picks.warnings.contains(too_many_logs())) by {
        if exists|log: LogPick<H>| #[trigger]
            unsorted.logs.contains(log) && is_log_of(log, start, walk.files[i], opened[i]) {
            let log = choose|log: LogPick<H>| #[trigger]
                unsorted.logs.contains(log) && is_log_of(log, start, walk.files[i], opened[i]);
            assert(picks.logs.contains(log));
        }
    }
}

/// A screenshot that was there when the task started, in the state in which it still is, is never
/// selected for the task: not even when it was written shortly before the start.
pub proof fn lemma_old_screenshot_left_out<
    H,
    S: Fn(&Vec<PathComponent>) -> Option<FileStamp>,
    F: Fn(&Vec<PathComponent>) -> Opened<H>,
>(
    root: Seq<ComponentView>,
    started_at: Timestamp,
    walk: Walk,
    stat: S,
    stamps: Seq<Option<FileStamp>>,
    start: Baseline,
    later: Walk,
    open: F,
    opened: Seq<Opened<H>>,
    picks: Picks<H>,
    image: ImagePick<H>,
)
    requires
        is_baseline(start, root, started_at, walk, stat, stamps),
        walk.files.no_duplicates(),
        is_selection(picks, start, later, open, opened),
        picks.images.contains(image),
    ensures
        exists|j: int|
            {
                &&& 0 <= j < later.files.len()
                &&& is_image_of(image, root, #[trigger] later.files[j], opened[j])
                &&& lies_under(root, later.files[j])
                &&& is_image_path(below(root, later.files[j]))
                &&& written_since(image.stamp, started_at)
                &&& forall|i: int|
                    0 <= i < walk.files.len() && #[trigger] walk.files[i] == later.files[j]
                        && stamps[i] == Some(image.stamp) ==> !written_before(
                        image.stamp,
                        started_at,
                    )
            },
{
    lemma_baseline_given(root, started_at, walk.warnings, walk.files, stamps);
    lemma_selection_exact(picks, start, later, open, opened);
    let j = choose|j: int|
        0 <= j < later.files.len() && #[trigger] is_own_image(start, later.files[j], opened[j])
            && is_image_of(image, start.root, later.files[j], opened[j]);
    assert forall|i: int|
        0 <= i < walk.files.len() && #[trigger] walk.files[i] == later.files[j] && stamps[i]
            == Some(image.stamp) implies !written_before(image.stamp, started_at) by {
        lemma_baseline_holds(root, started_at, walk.warnings, walk.files, stamps, i);
    }
    assert(is_image_of(image, root, later.files[j], opened[j]));
}

/// A screenshot that a task wrote is selected, where there are not too many: also when it took the
/// place of one that was there before.
pub proof fn lemma_new_screenshot_taken<
    H,
    S: Fn(&Vec<PathComponent>) -> Option<FileStamp>,
    F: Fn(&Vec<PathComponent>) -> Opened<H>,
>(
    root: Seq<ComponentView>,
    started_at: Timestamp,
    walk: Walk,
    stat: S,
    stamps: Seq<Option<FileStamp>>,
    start: Baseline,
    later: Walk,
    open: F,
    opened: Seq<Opened<H>>,
    picks: Picks<H>,
    j: int,
)
    requires
        is_baseline(start, root, started_at, walk, stat, stamps),
        is_selection(picks, start, later, open, opened),
        picks.images.len() < 128,
        0 <= j < later.files.len(),
        lies_under(root, later.files[j]),
        is_image_path(below(root, later.files[j])),
        archive_path(below(root, later.files[j])) is Some,
        opened[j] is File,
        written_since(opened[j]->stamp, started_at),
        forall|i: int|
            0 <= i < walk.files.len() && #[trigger] walk.files[i] == later.files[j] ==> stamps[i]
                != Some(opened[j]->stamp),
    ensures
        exists|image: ImagePick<H>| #[trigger]
            picks.images.contains(image) && is_image_of(image, root, later.files[j], opened[j]),
{
    let relative = below(root, later.files[j]);
    lemma_baseline_held(root, started_at, walk.warnings, walk.files, stamps, relative);
    lemma_selection_exact(picks, start, later, open, opened);
    if start.existing_images.dom().contains(relative) && start.existing_images[relative]
        == opened[j]->stamp {
        let i = choose|i: int|
            0 <= i < walk.files.len() && lies_under(root, #[trigger] walk.files[i]) && below(
                root,
                walk.files[i],
            ) == relative && stamps[i] == Some(start.existing_images[relative]);
        if walk.files[i] != later.files[j] {
            lemma_below_apart(root, walk.files[i], later.files[j]);
        }
    }
    assert(is_own_image(start, later.files[j], opened[j]));
}

/// What a refresh is: exactly the task's own screenshots that are there now, up to a limit that is
/// told of, and a warning for each that cannot be opened.
pub open spec fn refreshes<H>(
    refresh: Refresh<H>,
    start: Baseline,
    files: Seq<Seq<ComponentView>>,
    opened: Seq<Opened<H>>,
    warnings: Seq<Seq<char>>,
) -> bool {
    let limit = refresh.images.len() == 128 && refresh.warnings.contains(too_many_images());
    &&& refresh.images.len() <= 128
    &&& forall|image: ImagePick<H>| #[trigger]
        refresh.images.contains(image) ==> exists|i: int|
            0 <= i < files.len() && #[trigger] is_own_image(start, files[i], opened[i])
                && is_image_of(image, start.root, files[i], opened[i])
    &&& forall|i: int|
        0 <= i < files.len() && #[trigger] is_own_image(start, files[i], opened[i]) ==> limit || (
        exists|image: ImagePick<H>| #[trigger]
            refresh.images.contains(image) && is_image_of(image, start.root, files[i], opened[i]))
    &&& forall|i: int|
        0 <= i < files.len() && lies_under(start.root, #[trigger] files[i]) && is_image_path(
            below(start.root, files[i]),
        ) && archive_path(below(start.root, files[i])) is Some ==> limit || match opened[i] {
            Opened::Unopenable(error) => refresh.warnings.contains(
                "open_image_failed:"@ + archive_path(below(start.root, files[i]))->0 + ":"@
                    + error@,
            ),
            Opened::NoMetadata(error) => refresh.warnings.contains(
                "read_image_metadata_failed:"@ + archive_path(below(start.root, files[i]))->0 + ":"@
                    + error@,
            ),
            _ => true,
        }
    &&& forall|warning: Seq<char>| #[trigger]
        warnings.contains(warning) ==> refresh.warnings.contains(warning)
}

proof fn lemma_image_picks_refresh<H>(
    start: Baseline,
    files: Seq<Seq<ComponentView>>,
    opened: Seq<Opened<H>>,
    warnings: Seq<Seq<char>>,
)
    requires
        opened.len() == files.len(),
    ensures
        ({
            let picks = ImagePicks::<H>::empty(warnings).after_files(
                start.root,
                start.started_at,
                start.existing_images,
                files,
                opened,
            );
            &&& refreshes(
                Refresh { images: picks.images, warnings: picks.warnings },
                start,
                files,
                opened,
                warnings,
            )
            &&& picks.full ==> picks.images.len() == 128 && picks.warnings.contains(
                too_many_images(),
            )
        }),
    decreases files.len(),
{
    let empty = ImagePicks::<H>::empty(warnings);
    let picks = empty.after_files(
        start.root,
        start.started_at,
        start.existing_images,
        files,
        opened,
    );
    if files.len() > 0 {
        let front = files.drop_last();
        let early = opened.drop_last();
        let last = files.len() - 1;
        let file = files[last];
        let open = opened[last];
        lemma_image_picks_refresh(start, front, early, warnings);
        let before = empty.after_files(
            start.root,
            start.started_at,
            start.existing_images,
            front,
            early,
        );
        assert(picks == before.after_file(
            start.root,
            start.started_at,
            start.existing_images,
            file,
            open,
        ));
        let relative = below(start.root, file);
        assert forall|other: Seq<char>| #[trigger] before.warnings.contains(other) implies picks.warnings.contains(
            other,
        ) by {
            lemma_with_warning(before.warnings, too_many_images(), other);
            if picks.warnings.len() > before.warnings.len() {
                lemma_pushed_contains(before.warnings, picks.warnings.last(), other);
                assert(picks.warnings =~= before.warnings.push(picks.warnings.last()));
            }
        }
        lemma_with_warning(before.warnings, too_many_images(), too_many_images());
        assert forall|image: ImagePick<H>| #[trigger] before.images.contains(image) implies picks.images.contains(
            image,
        ) by {
            if picks.images.len() > before.images.len() {
                lemma_pushed_contains(before.images, picks.images.last(), image);
            }
        }
        assert forall|image: ImagePick<H>| #[trigger] picks.images.contains(image) implies exists|i: int|
            0 <= i < files.len() && #[trigger] is_own_image(start, files[i], opened[i])
                && is_image_of(image, start.root, files[i], opened[i]) by {
            if before.images.contains(image) {
                let i = choose|i: int|
                    0 <= i < front.len() && #[trigger] is_own_image(start, front[i], early[i])
                        && is_image_of(image, start.root, front[i], early[i]);
                assert(is_own_image(start, files[i], opened[i]));
            } else {
                lemma_pushed_contains(before.images, picks.images.last(), image);
                assert(is_own_image(start, file, open));
                assert(is_image_of(image, start.root, file, open));
            }
        }
        let limit = picks.images.len() == 128 && picks.warnings.contains(too_many_images());
        assert forall|i: int|
            0 <= i < files.len() && #[trigger] is_own_image(start, files[i], opened[i]) implies limit
            || (exists|image: ImagePick<H>| #[trigger]
            picks.images.contains(image) && is_image_of(image, start.root, files[i], opened[i])) by {
            if i < last {
                assert(is_own_image(start, front[i], early[i]));
                if exists|image: ImagePick<H>| #[trigger]
                    before.images.contains(image) && is_image_of(
                        image,
                        start.root,
                        front[i],
                        early[i],
                    ) {
                    let image = choose|image: ImagePick<H>| #[trigger]
                        before.images.contains(image) && is_image_of(
                            image,
                            start.root,
                            front[i],
                            early[i],
                        );
                    assert(picks.images.contains(image));
                }
            } else if !before.full && before.images.len() < 128 {
                let image = picks.images.last();
                assert(picks.images[picks.images.len() - 1] == image);
                assert(picks.images.contains(image));
                assert(is_image_of(image, start.root, file, open));
            }
        }
        assert forall|i: int|
            0 <= i < files.len() && lies_under(start.root, #[trigger] files[i]) && is_image_path(
                below(start.root, files[i]),
            ) && archive_path(below(start.root, files[i])) is Some implies limit
            || match opened[i] {
            Opened::Unopenable(error) => picks.warnings.contains(
                "open_image_failed:"@ + archive_path(below(start.root, files[i]))->0 + ":"@
                    + error@,
            ),
            Opened::NoMetadata(error) => picks.warnings.contains(
                "read_image_metadata_failed:"@ + archive_path(below(start.root, files[i]))->0 + ":"@
                    + error@,
            ),
            _ => true,
        } by {
            if i < last {
                assert(front[i] == files[i]);
            } else if !before.full && !(open is File) {
                let warning = picks.warnings.last();
                assert(picks.warnings[picks.warnings.len() - 1] == warning);
                assert(picks.warnings.contains(warning));
            }
        }
    }
}

/// A refresh brings every screenshot of the task that is there now and nothing else, measured against
/// the same baseline as the selection, and tells of those that it cannot open.
pub proof fn lemma_refresh_exact<H, F: Fn(&Vec<PathComponent>) -> Opened<H>>(
    refresh: Refresh<H>,
    start: Baseline,
    files: Seq<Seq<ComponentView>>,
    warnings: Seq<Seq<char>>,
    open: F,
    opened: Seq<Opened<H>>,
)
    requires
        is_refresh(
            refresh,
            start.root,
            start.started_at,
            start.existing_images,
            files,
            warnings,
            open,
            opened,
        ),
    ensures
        refreshes(refresh, start, files, opened, warnings),
{
    let picks = ImagePicks::<H>::empty(warnings).after_files(
        start.root,
        start.started_at,
        start.existing_images,
        files,
        opened,
    );
    lemma_image_picks_refresh(start, files, opened, warnings);
    lemma_name_orders::<H>();
    crate::order::lemma_sorted_by(picks.images, image_name_order());
    lemma_ordered_set(picks.warnings);
    assert forall|image: ImagePick<H>| #[trigger] refresh.images.contains(image)
        == picks.images.contains(image) by {
        lemma_sorted_contains(picks.images, image_name_order(), image);
    }
    let limit = refresh.images.len() == 128 && refresh.warnings.contains(too_many_images());
    assert forall|i: int|
        0 <= i < files.len() && #[trigger] is_own_image(start, files[i], opened[i]) implies limit
        || (exists|image: ImagePick<H>| #[trigger]
        refresh.images.contains(image) && is_image_of(image, start.root, files[i], opened[i])) by {
        if exists|image: ImagePick<H>| #[trigger]
            picks.images.contains(image) && is_image_of(image, start.root, files[i], opened[i]) {
            let image = choose|image: ImagePick<H>| #[trigger]
                picks.images.contains(image) && is_image_of(
                    image,
                    start.root,
                    files[i],
                    opened[i],
                );
            assert(refresh.images.contains(image));
        }
    }
}

/// After a refresh the selection has the warnings of both, each once, and everything but the
/// screenshots and the warnings stays as it was.
pub proof fn lemma_refresh_keeps<H>(selection: Selection<H>, refresh: Refresh<H>, warning: Seq<char>)
    ensures
        ({
            let after = refreshed(selection, refresh);
            &&& after.logs == selection.logs
            &&& after.image_root == selection.image_root
            &&& after.image_started_at == selection.image_started_at
            &&& after.existing_images == selection.existing_images
            &&& after.warnings.contains(warning) <==> selection.warnings.contains(warning)
                || refresh.warnings.contains(warning)
            &&& after.warnings.no_duplicates()
        }),
{
    let both = selection.warnings + refresh.warnings;
    lemma_ordered_set(both);
    if selection.warnings.contains(warning) {
        let i = choose|i: int| 0 <= i < selection.warnings.len() && selection.warnings[i] == warning;
        assert(both[i] == warning);
    }
    if refresh.warnings.contains(warning) {
        let i = choose|i: int| 0 <= i < refresh.warnings.len() && refresh.warnings[i] == warning;
        assert(both[selection.warnings.len() + i] == warning);
    }
}

/// Logs and screenshots are ordered by their names, as texts are.
pub proof fn lemma_selection_ordered<H, F: Fn(&Vec<PathComponent>) -> Opened<H>>(
    picks: Picks<H>,
    start: Baseline,
    walk: Walk,
    open: F,
    opened: Seq<Opened<H>>,
    i: int,
    j: int,
)
    requires
        is_selection(picks, start, walk, open, opened),
        0 <= i <= j,
    ensures
        j < picks.images.len() ==> text_le(
            picks.images[i].archive_name,
            picks.images[j].archive_name,
        ),
        j < picks.logs.len() ==> text_le(picks.logs[i].archive_name, picks.logs[j].archive_name),
{
    crate::selection::lemma_selection_is_of_task(picks, start, walk, open, opened);
    if j < picks.images.len() {
        assert(image_name_order()(picks.images[i], picks.images[j]));
    }
    if j < picks.logs.len() {
        assert(log_name_order()(picks.logs[i], picks.logs[j]));
    }
}

/// The state of a file was asked for by its path, and told.
pub open spec fn state_told<F: Fn(&Vec<PathComponent>) -> Option<FileStamp>>(
    stat: F,
    file: Seq<ComponentView>,
    stamp: Option<FileStamp>,
) -> bool {
    exists|path: Vec<PathComponent>|
        path_view(path@) == file && #[trigger] call_ensures(stat, (&path,), stamp)
}

/// A file was opened by its path.
pub open spec fn was_opened<H, F: Fn(&Vec<PathComponent>) -> Opened<H>>(
    open: F,
    file: Seq<ComponentView>,
    opened: Opened<H>,
) -> bool {
    exists|path: Vec<PathComponent>|
        path_view(path@) == file && #[trigger] call_ensures(open, (&path,), opened)
}

/// Every file below the root that has a name in an archive is opened when a task ends.
pub proof fn lemma_opened<H, F: Fn(&Vec<PathComponent>) -> Opened<H>>(
    root: Seq<ComponentView>,
    files: Seq<Seq<ComponentView>>,
    open: F,
    opened: Seq<Opened<H>>,
    i: int,
)
    requires
        crate::evidence::are_opened(root, files, open, opened),
        0 <= i < files.len(),
        lies_under(root, files[i]),
        archive_path(below(root, files[i])) is Some,
    ensures
        was_opened(open, files[i], opened[i]),
{
    assert(crate::evidence::open_gave(open, files[i], opened[i]));
}

/// The baseline holds every screenshot from before the start in the state that it is in, and the
/// length of every log.
pub proof fn lemma_record_baseline<F: Fn(&Vec<PathComponent>) -> Option<FileStamp>>(
    root: &[PathComponent],
    started_at: Timestamp,
    files: &Vec<Vec<PathComponent>>,
    warnings: Vec<String>,
    stat: F,
    start: TaskEvidenceStart,
    i: int,
)
    requires
        call_ensures(record_baseline::<F>, (root, started_at, files, warnings, stat), start),
        path_views(files@).no_duplicates(),
        0 <= i < files@.len(),
        lies_under(path_view(root@), path_view(files@[i]@)),
    ensures
        start@.root == path_view(root@),
        start@.started_at == started_at,
        start@.warnings == views(warnings@),
        ({
            let relative = below(path_view(root@), path_view(files@[i]@));
            &&& is_image_path(relative) ==> exists|stamp: Option<FileStamp>|
                {
                    &&& #[trigger] state_told(stat, path_view(files@[i]@), stamp)
                    &&& start@.existing_images.dom().contains(relative) <==> (stamp is Some
                        && written_before(stamp->0, started_at))
                    &&& start@.existing_images.dom().contains(relative)
                        ==> Some(start@.existing_images[relative]) == stamp
                }
            &&& is_log_path(relative) ==> exists|stamp: Option<FileStamp>|
                {
                    &&& #[trigger] state_told(stat, path_view(files@[i]@), stamp)
                    &&& start@.log_lengths.dom().contains(relative) <==> stamp is Some
                    &&& stamp matches Some(stamp) ==> start@.log_lengths[relative] == stamp.len
                }
        }),
{
    let all = path_views(files@);
    let root = path_view(root@);
    let stamps = choose|stamps: Seq<Option<FileStamp>>|
        {
            &&& #[trigger] crate::evidence::are_stamps(root, all, stat, stamps)
            &&& start@ == Baseline::empty(root, started_at, views(warnings@)).after_files(
                all,
                stamps,
            )
        };
    lemma_baseline_given(root, started_at, views(warnings@), all, stamps);
    lemma_baseline_holds(root, started_at, views(warnings@), all, stamps, i);
    assert(all[i] == path_view(files@[i]@));
    if crate::evidence::is_relevant(root, all[i]) {
        assert(stat_gave(stat, all[i], stamps[i]));
        assert(state_told(stat, all[i], stamps[i]));
    }
}

/// The files of a selection.
pub open spec fn picked<H>(selection: Selection<H>) -> Picks<H> {
    Picks { logs: selection.logs, images: selection.images, warnings: selection.warnings }
}

/// Over the life of a task: whatever is listed and opened at its end, only screenshots are selected
/// that were written since it started, and none that its baseline holds in the state in which it is.
pub proof fn lemma_capture_leaves_out_old<
    H,
    L: Fn(&Vec<PathComponent>, usize) -> Option<Vec<Listed>>,
    S: Fn(&Vec<PathComponent>) -> Option<FileStamp>,
    M: Fn(&Vec<PathComponent>, usize) -> Option<Vec<Listed>>,
    F: Fn(&Vec<PathComponent>) -> Opened<H>,
>(
    root: &[PathComponent],
    started_at: Timestamp,
    is_dir: bool,
    list: L,
    stat: S,
    start: TaskEvidenceStart,
    still_dir: bool,
    relist: M,
    open: F,
    selection: TaskEvidenceSelection<H>,
    image: ImagePick<H>,
)
    requires
        call_ensures(
            capture_task_start::<L, S>,
            (root, started_at, is_dir, list, stat),
            start,
        ),
        call_ensures(capture_task_end::<H, M, F>, (start, still_dir, relist, open), selection),
        selection@.images.contains(image),
    ensures
        written_since(image.stamp, started_at),
        exists|file: Seq<ComponentView>|
            {
                &&& #[trigger] lies_under(path_view(root@), file)
                &&& is_image_path(below(path_view(root@), file))
                &&& archive_path(below(path_view(root@), file)) == Some(image.archive_name)
                &&& start@.existing_images.dom().contains(below(path_view(root@), file))
                    ==> start@.existing_images[below(path_view(root@), file)] != image.stamp
            },
{
    let root = path_view(root@);
    let (listings, stamps) = choose|
        listings: Seq<Option<Vec<Listed>>>,
        stamps: Seq<Option<FileStamp>>,
    |
        {
            &&& #[trigger] is_whole_walk(root, is_dir, list, listings)
            &&& #[trigger] is_baseline(
                start@,
                root,
                started_at,
                Walk::after(root, is_dir, listing_views(listings)),
                stat,
                stamps,
            )
        };
    let walk = Walk::after(root, is_dir, listing_views(listings));
    lemma_baseline_given(root, started_at, walk.warnings, walk.files, stamps);
    let picks = picked(selection@);
    let (relisted, opened) = choose|listings: Seq<Option<Vec<Listed>>>, opened: Seq<Opened<H>>|
        {
            &&& #[trigger] is_whole_walk(root, still_dir, relist, listings)
            &&& #[trigger] is_selection(
                picks,
                start@,
                Walk::after(root, still_dir, listing_views(listings)),
                open,
                opened,
            )
        };
    let later = Walk::after(root, still_dir, listing_views(relisted));
    lemma_selection_exact(picks, start@, later, open, opened);
    let j = choose|j: int|
        0 <= j < later.files.len() && #[trigger] is_own_image(start@, later.files[j], opened[j])
            && is_image_of(image, start@.root, later.files[j], opened[j]);
    assert(lies_under(root, later.files[j]));
}

/// Whether a screenshot is a task's own.
pub proof fn lemma_should_include_image(
    relative: &[PathComponent],
    stamp: FileStamp,
    started_at: Timestamp,
    existing: &PathMap<FileStamp>,
    included: bool,
)
    requires
        call_ensures(should_include_image, (relative, stamp, started_at, existing), included),
    ensures
        included <==> written_since(stamp, started_at) && !(existing@.dom().contains(
            path_view(relative@),
        ) && existing@[path_view(relative@)] == stamp),
{
}

/// Which part of a log belongs to a task.
pub proof fn lemma_select_log_part(
    previous: Option<u64>,
    stamp: FileStamp,
    started_at: Timestamp,
    part: LogPart,
)
    requires
        call_ensures(select_log_part, (previous, stamp, started_at), part),
    ensures
        previous is None ==> {
            &&& part is New <==> stamp.len > 0 && written_since(stamp, started_at)
            &&& part is New || part is Nothing
        },
        previous matches Some(length) ==> {
            let touched = stamp.len > 0 && written_since(stamp, started_at);
            &&& part is Grown <==> stamp.len > length
            &&& part is Touched <==> stamp.len == length && touched
            &&& part is Rotated <==> stamp.len < length && touched
            &&& part is Nothing <==> stamp.len <= length && !touched
            &&& part matches LogPart::Grown(from) ==> from == (if length > 65536 {
                length - 65536
            } else {
                0
            })
            &&& part matches LogPart::Touched(from) ==> from == (if length > 65536 {
                length - 65536
            } else {
                0
            })
        },
{
    reveal_strlit("new_log_included_whole:");
    reveal_strlit("log_changed_during_start_snapshot:");
    reveal_strlit("rotated_log_included_whole:");
    assert("new_log_included_whole:"@.len() == 23 && "log_changed_during_start_snapshot:"@.len()
        == 34 && "rotated_log_included_whole:"@.len() == 27);
}

/// What is selected when a task ends is exactly what belongs to it, measured against its baseline,
/// which is kept for what comes late.
pub proof fn lemma_capture_task_end<
    H,
    L: Fn(&Vec<PathComponent>, usize) -> Option<Vec<Listed>>,
    F: Fn(&Vec<PathComponent>) -> Opened<H>,
>(
    start: TaskEvidenceStart,
    is_dir: bool,
    list: L,
    open: F,
    selection: TaskEvidenceSelection<H>,
)
    requires
        call_ensures(capture_task_end::<H, L, F>, (start, is_dir, list, open), selection),
    ensures
        selection@.image_root == start@.root,
        selection@.image_started_at == start@.started_at,
        selection@.existing_images == start@.existing_images,
        exists|listings: Seq<Option<Vec<Listed>>>, opened: Seq<Opened<H>>|
            {
                &&& #[trigger] is_whole_walk(start@.root, is_dir, list, listings)
                &&& #[trigger] selects(
                    picked(selection@),
                    start@,
                    Walk::after(start@.root, is_dir, listing_views(listings)).files,
                    opened,
                    start@.warnings + Walk::after(
                        start@.root,
                        is_dir,
                        listing_views(listings),
                    ).warnings,
                )
            },
{
    let picks = picked(selection@);
    let (listings, opened) = choose|listings: Seq<Option<Vec<Listed>>>, opened: Seq<Opened<H>>|
        {
            &&& #[trigger] is_whole_walk(start@.root, is_dir, list, listings)
            &&& #[trigger] is_selection(
                picks,
                start@,
                Walk::after(start@.root, is_dir, listing_views(listings)),
                open,
                opened,
            )
        };
    let walk = Walk::after(start@.root, is_dir, listing_views(listings));
    lemma_selection_exact(picks, start@, walk, open, opened);
    assert(selects(picks, start@, walk.files, opened, start@.warnings + walk.warnings));
}

/// What is selected from files that were found is exactly what belongs to the task.
pub proof fn lemma_select_from_files<H, F: Fn(&Vec<PathComponent>) -> Opened<H>>(
    start: &TaskEvidenceStart,
    files: &Vec<Vec<PathComponent>>,
    warnings: Vec<String>,
    open: F,
    selected: SelectedEntries<H>,
)
    requires
        call_ensures(select_from_files::<H, F>, (start, files, warnings, open), selected),
    ensures
        exists|opened: Seq<Opened<H>>|
            {
                &&& #[trigger] crate::evidence::are_opened(
                    start@.root,
                    path_views(files@),
                    open,
                    opened,
                )
                &&& selects(
                    selected@,
                    start@,
                    path_views(files@),
                    opened,
                    start@.warnings + views(warnings@),
                )
            },
{
    let all = path_views(files@);
    let opened = choose|opened: Seq<Opened<H>>|
        {
            &&& #[trigger] crate::evidence::are_opened(start@.root, all, open, opened)
            &&& selected@ == (Picks {
                logs: seq![],
                images: seq![],
                warnings: start@.warnings + views(warnings@),
            }).after_files(start@, all, opened).in_order()
        };
    let walk = Walk {
        pending: seq![],
        files: all,
        warnings: views(warnings@),
        visited: 0,
        stopped: false,
    };
    assert(is_selection(selected@, start@, walk, open, opened));
    lemma_selection_exact(selected@, start@, walk, open, opened);
}

/// What comes late is looked for against the baseline of the selection.
pub proof fn lemma_capture_refresh<
    H,
    L: Fn(&Vec<PathComponent>, usize) -> Option<Vec<Listed>>,
    F: Fn(&Vec<PathComponent>) -> Opened<H>,
>(
    selection: &TaskEvidenceSelection<H>,
    is_dir: bool,
    list: L,
    open: F,
    refresh: TaskImageRefresh<H>,
    start: Baseline,
)
    requires
        call_ensures(
            capture_task_image_refresh::<H, L, F>,
            (selection, is_dir, list, open),
            refresh,
        ),
        start.root == selection@.image_root,
        start.started_at == selection@.image_started_at,
        start.existing_images == selection@.existing_images,
    ensures
        exists|listings: Seq<Option<Vec<Listed>>>, opened: Seq<Opened<H>>|
            {
                &&& #[trigger] is_whole_walk(start.root, is_dir, list, listings)
                &&& #[trigger] refreshes(
                    refresh@,
                    start,
                    Walk::after(start.root, is_dir, listing_views(listings)).files,
                    opened,
                    Walk::after(start.root, is_dir, listing_views(listings)).warnings,
                )
            },
{
    let (listings, opened) = choose|listings: Seq<Option<Vec<Listed>>>, opened: Seq<Opened<H>>|
        {
            &&& #[trigger] is_whole_walk(selection@.image_root, is_dir, list, listings)
            &&& #[trigger] is_refresh(
                refresh@,
                selection@.image_root,
                selection@.image_started_at,
                selection@.existing_images,
                Walk::after(selection@.image_root, is_dir, listing_views(listings)).files,
                Walk::after(selection@.image_root, is_dir, listing_views(listings)).warnings,
                open,
                opened,
            )
        };
    let walk = Walk::after(start.root, is_dir, listing_views(listings));
    lemma_refresh_exact(refresh@, start, walk.files, walk.warnings, open, opened);
    assert(is_whole_walk(start.root, is_dir, list, listings));
    assert(refreshes(refresh@, start, walk.files, opened, walk.warnings));
}

/// What came late is added to the selection: new screenshots join, those in another state take the
/// place of the old ones, the others keep their open files, and the logs stay.
pub proof fn lemma_apply_refresh<H>(
    selection: &mut TaskEvidenceSelection<H>,
    refresh: TaskImageRefresh<H>,
)
    requires
        call_ensures(apply_task_image_refresh::<H>, (selection, refresh), ()),
        crate::selection::distinct_names(old(selection)@.images),
        crate::selection::distinct_names(refresh@.images),
    ensures
        crate::selection::is_merge_of(
            final(selection)@.images,
            old(selection)@.images,
            refresh@.images,
        ),
        final(selection)@.logs == old(selection)@.logs,
        final(selection)@.image_root == old(selection)@.image_root,
        final(selection)@.image_started_at == old(selection)@.image_started_at,
        final(selection)@.existing_images == old(selection)@.existing_images,
{
    crate::selection::lemma_refresh_merges(old(selection)@, refresh@);
}

/// What a walk selects for a baseline is exactly what belongs to the task.
pub proof fn lemma_select_entries<
    H,
    L: Fn(&Vec<PathComponent>, usize) -> Option<Vec<Listed>>,
    F: Fn(&Vec<PathComponent>) -> Opened<H>,
>(start: &TaskEvidenceStart, is_dir: bool, list: L, open: F, selected: SelectedEntries<H>)
    requires
        call_ensures(select_entries::<H, L, F>, (start, is_dir, list, open), selected),
    ensures
        exists|listings: Seq<Option<Vec<Listed>>>, opened: Seq<Opened<H>>|
            {
                &&& #[trigger] is_whole_walk(start@.root, is_dir, list, listings)
                &&& #[trigger] selects(
                    selected@,
                    start@,
                    Walk::after(start@.root, is_dir, listing_views(listings)).files,
                    opened,
                    start@.warnings + Walk::after(
                        start@.root,
                        is_dir,
                        listing_views(listings),
                    ).warnings,
                )
            },
{
    let (listings, opened) = choose|listings: Seq<Option<Vec<Listed>>>, opened: Seq<Opened<H>>|
        {
            &&& #[trigger] is_whole_walk(start@.root, is_dir, list, listings)
            &&& #[trigger] is_selection(
                selected@,
                start@,
                Walk::after(start@.root, is_dir, listing_views(listings)),
                open,
                opened,
            )
        };
    let walk = Walk::after(start@.root, is_dir, listing_views(listings));
    lemma_selection_exact(selected@, start@, walk, open, opened);
    assert(selects(selected@, start@, walk.files, opened, start@.warnings + walk.warnings));
}

/// What is selected of the screenshots that were found is exactly what belongs to the task.
pub proof fn lemma_select_images_from_files<H, F: Fn(&Vec<PathComponent>) -> Opened<H>>(
    root: &[PathComponent],
    started_at: Timestamp,
    existing_images: &PathMap<FileStamp>,
    files: &Vec<Vec<PathComponent>>,
    warnings: Vec<String>,
    open: F,
    refresh: TaskImageRefresh<H>,
    start: Baseline,
)
    requires
        call_ensures(
            select_images_from_files::<H, F>,
            (root, started_at, existing_images, files, warnings, open),
            refresh,
        ),
        start.root == path_view(root@),
        start.started_at == started_at,
        start.existing_images == existing_images@,
    ensures
        exists|opened: Seq<Opened<H>>| #[trigger]
            refreshes(refresh@, start, path_views(files@), opened, views(warnings@)),
{
    let opened = choose|opened: Seq<Opened<H>>| #[trigger]
        is_refresh(
            refresh@,
            path_view(root@),
            started_at,
            existing_images@,
            path_views(files@),
            views(warnings@),
            open,
            opened,
        );
    lemma_refresh_exact(refresh@, start, path_views(files@), views(warnings@), open, opened);
    assert(refreshes(refresh@, start, path_views(files@), opened, views(warnings@)));
}

/// What a walk finds of the screenshots of a task is exactly what belongs to it.
pub proof fn lemma_select_images<
    H,
    L: Fn(&Vec<PathComponent>, usize) -> Option<Vec<Listed>>,
    F: Fn(&Vec<PathComponent>) -> Opened<H>,
>(
    root: &[PathComponent],
    started_at: Timestamp,
    existing_images: &PathMap<FileStamp>,
    is_dir: bool,
    list: L,
    open: F,
    refresh: TaskImageRefresh<H>,
    start: Baseline,
)
    requires
        call_ensures(
            select_images::<H, L, F>,
            (root, started_at, existing_images, is_dir, list, open),
            refresh,
        ),
        start.root == path_view(root@),
        start.started_at == started_at,
        start.existing_images == existing_images@,
    ensures
        exists|listings: Seq<Option<Vec<Listed>>>, opened: Seq<Opened<H>>|
            {
                &&& #[trigger] is_whole_walk(start.root, is_dir, list, listings)
                &&& #[trigger] refreshes(
                    refresh@,
                    start,
                    Walk::after(start.root, is_dir, listing_views(listings)).files,
                    opened,
                    Walk::after(start.root, is_dir, listing_views(listings)).warnings,
                )
            },
{
    let (listings, opened) = choose|listings: Seq<Option<Vec<Listed>>>, opened: Seq<Opened<H>>|
        {
            &&& #[trigger] is_whole_walk(path_view(root@), is_dir, list, listings)
            &&& #[trigger] is_refresh(
                refresh@,
                path_view(root@),
                started_at,
                existing_images@,
                Walk::after(path_view(root@), is_dir, listing_views(listings)).files,
                Walk::after(path_view(root@), is_dir, listing_views(listings)).warnings,
                open,
                opened,
            )
        };
    let walk = Walk::after(start.root, is_dir, listing_views(listings));
    lemma_refresh_exact(refresh@, start, walk.files, walk.warnings, open, opened);
    assert(is_whole_walk(start.root, is_dir, list, listings));
    assert(refreshes(refresh@, start, walk.files, opened, walk.warnings));
}

} // verus!
