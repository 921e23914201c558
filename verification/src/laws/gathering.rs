//! What is read of the evidence that was selected: the tails of logs, and the file with screenshots.

use vstd::prelude::*;
use crate::bundle::{
    archive_len, build_image_bundle, is_packable, lemma_packing, listed_entries, selected_bytes,
    ImageBundle, ImageBundleError, Packing,
};
use crate::evidence::{ImagePick, LogPick};
use crate::logs::{
    are_reads, build_diagnostic_logs, keep_log_text, log_order, lossy_text, read_gave,
    DiagnosticLogs, LogText, LogTexts,
};
use crate::order::{is_order, lemma_sorted_by, lemma_sorted_contains, sorted_by};
use crate::path::{kind_of, priority_of};
use crate::report::{attachment_error_outcome, FailureAttachmentOutcome};
use crate::selection::{lemma_pushed_contains, TaskEvidenceSelection};
use crate::text::{
    decimal, is_blank, lemma_text_le_total, lemma_text_le_transitive, signed_decimal, text_le,
    trimmed, Padding,
};

verus! {

/// How many bytes of all logs together may still be read: a mebibyte less what was read.
pub open spec fn bytes_left(logs: LogTexts) -> int {
    if logs.selected_raw_bytes >= 1048576 {
        0
    } else {
        1048576 - logs.selected_raw_bytes
    }
}

/// The length of the range of a log.
pub open spec fn range_len<H>(log: LogPick<H>) -> int {
    if log.end > log.start {
        log.end - log.start
    } else {
        0
    }
}

/// How many bytes of a log are read: all of its range, but no more than half a mebibyte, and no more
/// than what is left for all logs.
pub open spec fn asked_len<H>(logs: LogTexts, log: LogPick<H>) -> int {
    let len = range_len(log);
    let len = if len > 524288 {
        524288
    } else {
        len
    };
    if len > bytes_left(logs) {
        bytes_left(logs)
    } else {
        len
    }
}

/// What is read of a log is the end of its range.
pub proof fn lemma_tail_read<H, R: Fn(&H, u64, u64) -> Result<Vec<u8>, String>>(
    read: R,
    start: LogTexts,
    logs: Seq<LogPick<H>>,
    outcomes: Seq<Result<Vec<u8>, String>>,
    i: int,
)
    requires
        are_reads(read, start, logs, outcomes),
        0 <= i < logs.len(),
        asked_len(start.after_logs(logs.take(i), outcomes.take(i)), logs[i]) > 0,
    ensures
        ({
            let len = asked_len(start.after_logs(logs.take(i), outcomes.take(i)), logs[i]);
            call_ensures(
                read,
                (&logs[i].source, (logs[i].end - len) as u64, len as u64),
                outcomes[i],
            )
        }),
{
    let before = start.after_logs(logs.take(i), outcomes.take(i));
    assert(before.read_len(crate::evidence::less(logs[i].end, logs[i].start)) == asked_len(
        before,
        logs[i],
    ));
    assert(read_gave(read, before, logs[i], outcomes[i]));
}

/// A log that was read has something to tell: it was asked for, bytes came, and what they say is more
/// than white space.
pub open spec fn is_telling<H>(
    before: LogTexts,
    log: LogPick<H>,
    outcome: Result<Vec<u8>, String>,
) -> bool {
    &&& asked_len(before, log) > 0
    &&& outcome matches Ok(bytes)
    &&& bytes@.len() > 0
    &&& !is_blank(trimmed(lossy_text(bytes@), Padding::Nul))
}

/// `entry` is what the bytes of a log say, under its name and kind.
pub open spec fn is_entry_of<H>(
    entry: LogText,
    log: LogPick<H>,
    outcome: Result<Vec<u8>, String>,
) -> bool {
    &&& outcome matches Ok(bytes)
    &&& entry.source == log.archive_name
    &&& entry.kind == kind_of(log.archive_name)
    &&& entry.content == trimmed(lossy_text(bytes@), Padding::Nul)
    &&& entry.raw_bytes == bytes@.len() as u64
}

/// What one more log adds: an entry exactly when it has something to tell; a warning exactly when it
/// could not be read; and the note that something was left out exactly when nothing was left to read,
/// or less than its range was asked for and bytes came.
pub open spec fn is_added<H>(
    before: LogTexts,
    after: LogTexts,
    log: LogPick<H>,
    outcome: Result<Vec<u8>, String>,
) -> bool {
    &&& if is_telling(before, log, outcome) {
        &&& after.entries.len() > 0
        &&& after.entries == before.entries.push(after.entries.last())
        &&& is_entry_of(after.entries.last(), log, outcome)
        &&& before.selected_raw_bytes + outcome->Ok_0@.len() <= u64::MAX
            ==> after.selected_raw_bytes == before.selected_raw_bytes + outcome->Ok_0@.len()
    } else {
        &&& after.entries == before.entries
        &&& after.selected_raw_bytes == before.selected_raw_bytes
    }
    &&& if asked_len(before, log) > 0 && outcome is Err {
        after.warnings == before.warnings.push(
            "read_log_failed:"@ + log.archive_name + ":"@ + outcome->Err_0@,
        )
    } else {
        after.warnings == before.warnings
    }
    &&& after.truncated <==> before.truncated || bytes_left(before) == 0 || (asked_len(before, log)
        > 0 && asked_len(before, log) < range_len(log) && outcome is Ok && outcome->Ok_0@.len()
        > 0)
}

/// One more log adds what it has to tell, and nothing else.
pub proof fn lemma_log_added<H>(
    before: LogTexts,
    log: LogPick<H>,
    outcome: Result<Vec<u8>, String>,
)
    ensures
        is_added(before, before.after_log(log, outcome), log, outcome),
{
    let after = before.after_log(log, outcome);
    assert(before.read_len(crate::evidence::less(log.end, log.start)) == asked_len(before, log));
    if is_telling(before, log, outcome) {
        assert(after.entries =~= before.entries.push(after.entries.last()));
    }
}

/// The entries are those of the logs that have something to tell.
pub open spec fn entries_exact<H>(
    all: LogTexts,
    start: LogTexts,
    logs: Seq<LogPick<H>>,
    outcomes: Seq<Result<Vec<u8>, String>>,
) -> bool {
    &&& forall|entry: LogText| #[trigger]
        all.entries.contains(entry) ==> exists|i: int|
            0 <= i < logs.len() && #[trigger] is_telling(
                start.after_logs(logs.take(i), outcomes.take(i)),
                logs[i],
                outcomes[i],
            ) && is_entry_of(entry, logs[i], outcomes[i])
    &&& forall|i: int|
        0 <= i < logs.len() && #[trigger] is_telling(
            start.after_logs(logs.take(i), outcomes.take(i)),
            logs[i],
            outcomes[i],
        ) ==> exists|entry: LogText| #[trigger]
            all.entries.contains(entry) && is_entry_of(entry, logs[i], outcomes[i])
}

/// The warnings are those that were there, and one for each log that could not be read.
pub open spec fn warnings_exact<H>(
    all: LogTexts,
    start: LogTexts,
    logs: Seq<LogPick<H>>,
    outcomes: Seq<Result<Vec<u8>, String>>,
) -> bool {
    &&& all.warnings.len() >= start.warnings.len()
    &&& all.warnings.take(start.warnings.len() as int) == start.warnings
    &&& forall|i: int|
        0 <= i < logs.len() && asked_len(
            start.after_logs(logs.take(i), outcomes.take(i)),
            logs[i],
        ) > 0 && (#[trigger] outcomes[i]) is Err ==> all.warnings.contains(
            "read_log_failed:"@ + logs[i].archive_name + ":"@ + outcomes[i]->Err_0@,
        )
}

proof fn lemma_entries_step<H>(
    before: LogTexts,
    all: LogTexts,
    start: LogTexts,
    logs: Seq<LogPick<H>>,
    outcomes: Seq<Result<Vec<u8>, String>>,
)
    requires
        logs.len() > 0,
        outcomes.len() == logs.len(),
        before == start.after_logs(logs.drop_last(), outcomes.drop_last()),
        entries_exact(before, start, logs.drop_last(), outcomes.drop_last()),
        is_added(before, all, logs.last(), outcomes.last()),
    ensures
        entries_exact(all, start, logs, outcomes),
{
    let front = logs.drop_last();
    let early = outcomes.drop_last();
    let last = logs.len() - 1;
    assert(logs.take(last) =~= front);
    assert(outcomes.take(last) =~= early);
    assert forall|i: int| 0 <= i < front.len() implies (#[trigger] front.take(i)) == logs.take(i)
        && early.take(i) == outcomes.take(i) by {
        assert(front.take(i) =~= logs.take(i));
        assert(early.take(i) =~= outcomes.take(i));
    }
    assert forall|entry: LogText| #[trigger] before.entries.contains(entry) implies all.entries.contains(
        entry,
    ) by {
        lemma_pushed_contains(before.entries, all.entries.last(), entry);
    }
    assert forall|entry: LogText| #[trigger] all.entries.contains(entry) implies exists|i: int|
        0 <= i < logs.len() && #[trigger] is_telling(
            start.after_logs(logs.take(i), outcomes.take(i)),
            logs[i],
            outcomes[i],
        ) && is_entry_of(entry, logs[i], outcomes[i]) by {
        if before.entries.contains(entry) {
            let i = choose|i: int|
                0 <= i < front.len() && #[trigger] is_telling(
                    start.after_logs(front.take(i), early.take(i)),
                    front[i],
                    early[i],
                ) && is_entry_of(entry, front[i], early[i]);
            assert(front.take(i) == logs.take(i));
            assert(is_telling(
                start.after_logs(logs.take(i), outcomes.take(i)),
                logs[i],
                outcomes[i],
            ));
        } else {
            lemma_pushed_contains(before.entries, all.entries.last(), entry);
            assert(is_telling(
                start.after_logs(logs.take(last), outcomes.take(last)),
                logs[last],
                outcomes[last],
            ));
        }
    }
    assert forall|i: int|
        0 <= i < logs.len() && #[trigger] is_telling(
            start.after_logs(logs.take(i), outcomes.take(i)),
            logs[i],
            outcomes[i],
        ) implies exists|entry: LogText| #[trigger]
        all.entries.contains(entry) && is_entry_of(entry, logs[i], outcomes[i]) by {
        if i < last {
            assert(front.take(i) == logs.take(i));
            assert(is_telling(start.after_logs(front.take(i), early.take(i)), front[i], early[i]));
            let entry = choose|entry: LogText| #[trigger]
                before.entries.contains(entry) && is_entry_of(entry, front[i], early[i]);
            assert(all.entries.contains(entry));
        } else {
            lemma_pushed_contains(before.entries, all.entries.last(), all.entries.last());
        }
    }
}

proof fn lemma_warnings_step<H>(
    before: LogTexts,
    all: LogTexts,
    start: LogTexts,
    logs: Seq<LogPick<H>>,
    outcomes: Seq<Result<Vec<u8>, String>>,
)
    requires
        logs.len() > 0,
        outcomes.len() == logs.len(),
        before == start.after_logs(logs.drop_last(), outcomes.drop_last()),
        warnings_exact(before, start, logs.drop_last(), outcomes.drop_last()),
        is_added(before, all, logs.last(), outcomes.last()),
    ensures
        warnings_exact(all, start, logs, outcomes),
{
    let front = logs.drop_last();
    let early = outcomes.drop_last();
    let last = logs.len() - 1;
    assert(logs.take(last) =~= front);
    assert(outcomes.take(last) =~= early);
    assert(all.warnings.take(start.warnings.len() as int) =~= before.warnings.take(
        start.warnings.len() as int,
    ));
    assert forall|i: int|
        0 <= i < logs.len() && asked_len(
            start.after_logs(logs.take(i), outcomes.take(i)),
            logs[i],
        ) > 0 && (#[trigger] outcomes[i]) is Err implies all.warnings.contains(
        "read_log_failed:"@ + logs[i].archive_name + ":"@ + outcomes[i]->Err_0@,
    ) by {
        let warning = "read_log_failed:"@ + logs[i].archive_name + ":"@ + outcomes[i]->Err_0@;
        if i < last {
            assert(front.take(i) =~= logs.take(i));
            assert(early.take(i) =~= outcomes.take(i));
            assert(early[i] is Err);
            assert(before.warnings.contains(warning));
            lemma_pushed_contains(before.warnings, all.warnings.last(), warning);
        } else {
            lemma_pushed_contains(before.warnings, warning, warning);
        }
    }
}

/// The logs of a task: an entry for each log that has something to tell and no other, the warnings
/// that were there, and one for each log that could not be read.
pub proof fn lemma_logs_exact<H>(
    start: LogTexts,
    logs: Seq<LogPick<H>>,
    outcomes: Seq<Result<Vec<u8>, String>>,
)
    requires
        outcomes.len() == logs.len(),
        start.entries.len() == 0,
    ensures
        entries_exact(start.after_logs(logs, outcomes), start, logs, outcomes),
        warnings_exact(start.after_logs(logs, outcomes), start, logs, outcomes),
    decreases logs.len(),
{
    let all = start.after_logs(logs, outcomes);
    if logs.len() == 0 {
        assert(all.warnings.take(start.warnings.len() as int) =~= start.warnings);
    } else {
        lemma_logs_exact(start, logs.drop_last(), outcomes.drop_last());
        let before = start.after_logs(logs.drop_last(), outcomes.drop_last());
        lemma_log_added(before, logs.last(), outcomes.last());
        lemma_entries_step(before, all, start, logs, outcomes);
        lemma_warnings_step(before, all, start, logs, outcomes);
    }
}

/// Logs are read in the order of their kinds, and logs of the same kind in the order of their names;
/// all of them are.
pub proof fn lemma_reading_order<H>(logs: Seq<LogPick<H>>, i: int, j: int, log: LogPick<H>)
    requires
        0 <= i <= j < logs.len(),
    ensures
        ({
            let sorted = sorted_by(logs, log_order());
            let (one, other) = (sorted[i].archive_name, sorted[j].archive_name);
            &&& sorted.len() == logs.len()
            &&& sorted.contains(log) <==> logs.contains(log)
            &&& priority_of(one) <= priority_of(other)
            &&& priority_of(one) == priority_of(other) ==> text_le(one, other)
        }),
{
    let le = log_order::<H>();
    assert forall|a: LogPick<H>, b: LogPick<H>| #[trigger] le(a, b) || le(b, a) by {
        lemma_text_le_total(a.archive_name, b.archive_name);
    }
    assert forall|a: LogPick<H>, b: LogPick<H>, c: LogPick<H>| #[trigger]
        le(a, b) && #[trigger] le(b, c) implies le(a, c) by {
        if priority_of(a.archive_name) == priority_of(b.archive_name) && priority_of(b.archive_name)
            == priority_of(c.archive_name) {
            lemma_text_le_transitive(a.archive_name, b.archive_name, c.archive_name);
        }
    }
    assert(is_order(le));
    lemma_sorted_by(logs, le);
    lemma_sorted_contains(logs, le, log);
    let sorted = sorted_by(logs, le);
    assert(le(sorted[i], sorted[j]));
}

/// Reading the logs of a selection leaves its screenshots as they are and takes its warnings, and the
/// logs are read in their order.
pub proof fn lemma_build_diagnostic_logs<H, R: Fn(&H, u64, u64) -> Result<Vec<u8>, String>>(
    selection: &mut TaskEvidenceSelection<H>,
    read: R,
    logs: DiagnosticLogs,
)
    requires
        call_ensures(build_diagnostic_logs::<H, R>, (selection, read), logs),
    ensures
        final(selection)@.images == old(selection)@.images,
        final(selection)@.existing_images == old(selection)@.existing_images,
        final(selection)@.image_root == old(selection)@.image_root,
        final(selection)@.image_started_at == old(selection)@.image_started_at,
        final(selection)@.warnings.len() == 0,
        final(selection)@.logs == sorted_by(old(selection)@.logs, log_order()),
        exists|outcomes: Seq<Result<Vec<u8>, String>>| #[trigger]
            are_reads(
                read,
                LogTexts::empty(old(selection)@.warnings),
                final(selection)@.logs,
                outcomes,
            ) && logs@ == LogTexts::empty(old(selection)@.warnings).after_logs(
                final(selection)@.logs,
                outcomes,
            ),
{
}

/// Adding the text of a log: without zero characters at its ends, and not at all where nothing but
/// white space is left.
pub proof fn lemma_keep_log_text(
    logs: &mut DiagnosticLogs,
    name: &str,
    cut: bool,
    raw_bytes: u64,
    text: &str,
)
    requires
        call_ensures(keep_log_text, (logs, name, cut, raw_bytes, text), ()),
    ensures
        final(logs)@.truncated <==> old(logs)@.truncated || cut,
        final(logs)@.warnings == old(logs)@.warnings,
        is_blank(trimmed(text@, Padding::Nul)) ==> final(logs)@.entries == old(logs)@.entries
            && final(logs)@.selected_raw_bytes == old(logs)@.selected_raw_bytes,
        !is_blank(trimmed(text@, Padding::Nul)) ==> {
            &&& final(logs)@.entries.len() == old(logs)@.entries.len() + 1
            &&& final(logs)@.entries.last().source == name@
            &&& final(logs)@.entries.last().kind == kind_of(name@)
            &&& final(logs)@.entries.last().content == trimmed(text@, Padding::Nul)
            &&& final(logs)@.entries.last().raw_bytes == raw_bytes
        },
{
}

/// The lengths of screenshots together.
pub open spec fn total_len<H>(images: Seq<ImagePick<H>>) -> int
    decreases images.len(),
{
    if images.len() == 0 {
        0
    } else {
        images[0].len + total_len(images.skip(1))
    }
}

proof fn lemma_total_len<H>(images: Seq<ImagePick<H>>)
    requires
        images.len() > 0,
    ensures
        total_len(images) == total_len(images.drop_last()) + images.last().len,
    decreases images.len(),
{
    reveal_with_fuel(total_len, 2);
    if images.len() == 1 {
        assert(images.drop_last() =~= seq![]);
        assert(images.skip(1) =~= seq![]);
    } else {
        lemma_total_len(images.skip(1));
        assert(images.skip(1).drop_last() =~= images.drop_last().skip(1));
        assert(images.skip(1).last() == images.last());
    }
}

/// The lengths of the screenshots are added up, as far as a number can tell.
pub proof fn lemma_selected_bytes<H>(images: Seq<ImagePick<H>>)
    ensures
        total_len(images) <= u64::MAX ==> selected_bytes(images) == total_len(images),
        total_len(images) > u64::MAX ==> selected_bytes(images) == u64::MAX,
        total_len(images) >= 0,
    decreases images.len(),
{
    if images.len() > 0 {
        lemma_selected_bytes(images.drop_last());
        lemma_total_len(images);
    }
}

/// Packing screenshots: without any there is no evidence; more than five mebibytes are too much before
/// anything is read; what is packed holds every screenshot under its name, byte for byte and in order,
/// is not larger than five mebibytes, and is named after the run and the task.
pub proof fn lemma_build_image_bundle<H, R: Fn(&H, u64) -> Result<Vec<u8>, String>>(
    selection: TaskEvidenceSelection<H>,
    run_id: &str,
    maa_task_id: i64,
    read: R,
    outcome: Result<ImageBundle, ImageBundleError>,
)
    requires
        call_ensures(build_image_bundle::<H, R>, (selection, run_id, maa_task_id, read), outcome),
    ensures
        ({
            let images = selection@.images;
            let total = total_len(images);
            &&& images.len() == 0 <==> outcome is Err && outcome->Err_0 is NoEvidence
            &&& images.len() > 0 && total > 5242880 ==> {
                &&& outcome is Err
                &&& outcome->Err_0 is TooLarge
                &&& outcome->Err_0->bundle_bytes is None
                &&& total <= u64::MAX ==> outcome->Err_0->selected_raw_bytes == total
            }
            &&& outcome matches Ok(bundle) ==> {
                &&& images.len() > 0
                &&& total <= 5242880
                &&& bundle.image_count == images.len()
                &&& bundle.selected_raw_bytes == total
                &&& bundle.buffer@.len() <= 5242880
                &&& bundle.filename@ == "mxu-task-failure-"@ + run_id@ + "-"@ + signed_decimal(
                    maa_task_id as int,
                ) + "-screenshots.zip"@
                &&& bundle.warnings@.len() == 0
                &&& listed_entries(bundle.buffer@).len() == images.len()
                &&& forall|i: int|
                    0 <= i < images.len() ==> {
                        let entry = #[trigger] listed_entries(bundle.buffer@)[i];
                        &&& entry.0 == images[i].archive_name
                        &&& exists|bytes: Vec<u8>|
                            bytes@ == entry.1 && #[trigger] call_ensures(
                                read,
                                (&images[i].source, images[i].len),
                                Ok::<Vec<u8>, String>(bytes),
                            )
                    }
            }
            &&& outcome matches Err(ImageBundleError::TooLarge { selected_raw_bytes, bundle_bytes })
                ==> (bundle_bytes is None <==> total > 5242880) && (bundle_bytes matches Some(size)
                ==> size > 5242880 && selected_raw_bytes == total)
        }),
{
    let images = selection@.images;
    lemma_selected_bytes(images);
    if images.len() > 0 && selected_bytes(images) <= 5242880 {
        let outcomes = choose|outcomes: Seq<Result<Vec<u8>, String>>|
            {
                &&& #[trigger] crate::bundle::are_image_reads(read, images, outcomes)
                &&& crate::bundle::is_bundle_of(
                    outcome,
                    Packing::after_images(images, outcomes),
                    images.len(),
                    selected_bytes(images),
                    run_id@,
                    maa_task_id,
                )
            };
        lemma_packing(images, outcomes);
        if outcome is Ok {
            let bundle = outcome->Ok_0;
            assert forall|i: int| 0 <= i < images.len() implies {
                let entry = #[trigger] listed_entries(bundle.buffer@)[i];
                &&& entry.0 == images[i].archive_name
                &&& exists|bytes: Vec<u8>|
                    bytes@ == entry.1 && #[trigger] call_ensures(
                        read,
                        (&images[i].source, images[i].len),
                        Ok::<Vec<u8>, String>(bytes),
                    )
            } by {
                lemma_packing_prefix(images, outcomes, i);
                assert(crate::bundle::image_read_gave(read, images[i], outcomes[i]));
                assert(outcomes[i] is Ok);
                assert(Ok::<Vec<u8>, String>(outcomes[i]->Ok_0) == outcomes[i]);
            }
        }
    }
}

proof fn lemma_packing_prefix<H>(
    images: Seq<ImagePick<H>>,
    outcomes: Seq<Result<Vec<u8>, String>>,
    i: int,
)
    requires
        outcomes.len() == images.len(),
        Packing::after_images(images, outcomes) is Entries,
        0 <= i < images.len(),
    ensures
        Packing::after_images(images.take(i), outcomes.take(i)).goes_on(images[i].archive_name),
    decreases images.len(),
{
    let last = images.len() - 1;
    let front = images.drop_last();
    let early = outcomes.drop_last();
    assert(images.take(last) =~= front);
    assert(outcomes.take(last) =~= early);
    if i < last {
        lemma_packing_prefix(front, early, i);
        assert(front.take(i) =~= images.take(i));
        assert(early.take(i) =~= outcomes.take(i));
    }
}

/// Screenshots that can all be read, have distinct names that are not too long, and whose file is not
/// too large are packed.
pub proof fn lemma_bundle_owed<H, R: Fn(&H, u64) -> Result<Vec<u8>, String>>(
    selection: TaskEvidenceSelection<H>,
    run_id: &str,
    maa_task_id: i64,
    read: R,
    outcome: Result<ImageBundle, ImageBundleError>,
)
    requires
        call_ensures(build_image_bundle::<H, R>, (selection, run_id, maa_task_id, read), outcome),
        selection@.images.len() > 0,
        total_len(selection@.images) <= 5242880,
        forall|outcomes: Seq<Result<Vec<u8>, String>>| #[trigger]
            crate::bundle::are_image_reads(read, selection@.images, outcomes) ==> is_packable(
                selection@.images,
                outcomes,
            ) && (Packing::after_images(selection@.images, outcomes) matches Packing::Entries(
                entries,
            ) ==> crate::bundle::is_small(entries) && archive_len(entries) <= 5242880),
    ensures
        outcome is Ok,
{
    let images = selection@.images;
    lemma_selected_bytes(images);
    let outcomes = choose|outcomes: Seq<Result<Vec<u8>, String>>|
        {
            &&& #[trigger] crate::bundle::are_image_reads(read, images, outcomes)
            &&& crate::bundle::is_bundle_of(
                outcome,
                Packing::after_images(images, outcomes),
                images.len(),
                selected_bytes(images),
                run_id@,
                maa_task_id,
            )
        };
    lemma_packing(images, outcomes);
}

/// What becomes of the screenshots when they could not be packed: what went wrong is told by a word of
/// its own, with what the error says, and with the sizes where they were too large.
pub proof fn lemma_attachment_error_outcome(
    error: ImageBundleError,
    outcome: FailureAttachmentOutcome,
)
    requires
        call_ensures(attachment_error_outcome, (error,), outcome),
    ensures
        outcome is Omitted,
        error is NoEvidence ==> outcome->status@ == "no_evidence"@ && outcome->detail@
            == "no task-scoped evidence was found"@,
        error matches ImageBundleError::Io(message) ==> outcome->status@ == "build_failed"@
            && outcome->detail@ == message@,
        error matches ImageBundleError::TooLarge { selected_raw_bytes, bundle_bytes } ==> {
            &&& outcome->Omitted_selected_raw_bytes == Some(selected_raw_bytes)
            &&& outcome->Omitted_bundle_bytes == bundle_bytes
            &&& bundle_bytes is None ==> outcome->status@ == "raw_too_large"@ && outcome->detail@
                == "task screenshot evidence is too large (raw="@ + decimal(
                selected_raw_bytes as nat,
            ) + ", bundle="@ + "not-built"@ + ")"@
            &&& bundle_bytes matches Some(size) ==> outcome->status@ == "bundle_too_large"@
                && outcome->detail@ == "task screenshot evidence is too large (raw="@ + decimal(
                selected_raw_bytes as nat,
            ) + ", bundle="@ + decimal(size as nat) + ")"@
        },
        !(error is TooLarge) ==> outcome->Omitted_selected_raw_bytes is None
            && outcome->Omitted_bundle_bytes is None,
{
}

/// Before any log is read there is nothing but the warnings of the selection.
pub proof fn lemma_no_logs(warnings: Seq<Seq<char>>)
    ensures
        LogTexts::empty(warnings).entries.len() == 0,
        LogTexts::empty(warnings).warnings == warnings,
        LogTexts::empty(warnings).selected_raw_bytes == 0,
        !LogTexts::empty(warnings).truncated,
{
}

/// The packing ended because the screenshot at `i` could not be read.
pub open spec fn is_read_failure<H>(
    images: Seq<ImagePick<H>>,
    outcomes: Seq<Result<Vec<u8>, String>>,
    message: Seq<char>,
    i: int,
) -> bool {
    &&& 0 <= i < images.len()
    &&& Packing::after_images(images.take(i), outcomes.take(i)).goes_on(images[i].archive_name)
    &&& outcomes[i] is Err
    &&& message == "write attachment ["@ + images[i].source_path + "]: "@ + outcomes[i]->Err_0@
}

proof fn lemma_packing_failed<H>(
    images: Seq<ImagePick<H>>,
    outcomes: Seq<Result<Vec<u8>, String>>,
    message: Seq<char>,
)
    requires
        outcomes.len() == images.len(),
        Packing::after_images(images, outcomes) == Packing::Failed(message),
    ensures
        (exists|i: int| #[trigger] is_read_failure(images, outcomes, message, i)) || (exists|
            reason: Seq<char>,
        |
            message == #[trigger] ("start ZIP entry: "@ + reason)),
    decreases images.len(),
{
    if images.len() > 0 {
        let last = images.len() - 1;
        let front = images.drop_last();
        let early = outcomes.drop_last();
        assert(images.take(last) =~= front);
        assert(outcomes.take(last) =~= early);
        match Packing::after_images(front, early) {
            Packing::Failed(_) => {
                lemma_packing_failed(front, early, message);
                if exists|i: int| #[trigger] is_read_failure(front, early, message, i) {
                    let i = choose|i: int| #[trigger] is_read_failure(front, early, message, i);
                    assert(front.take(i) =~= images.take(i));
                    assert(early.take(i) =~= outcomes.take(i));
                    assert(is_read_failure(images, outcomes, message, i));
                }
            },
            Packing::Entries(entries) => {
                if crate::bundle::accepts_name(entries, images[last].archive_name) {
                    assert(is_read_failure(images, outcomes, message, last));
                }
            },
        }
    }
}

/// Where the screenshots cannot be packed, the message tells what could not be done: a screenshot that
/// could not be read is named with the reason, and otherwise the file could not take it or could not
/// be ended.
pub proof fn lemma_bundle_message<H, R: Fn(&H, u64) -> Result<Vec<u8>, String>>(
    selection: TaskEvidenceSelection<H>,
    run_id: &str,
    maa_task_id: i64,
    read: R,
    outcome: Result<ImageBundle, ImageBundleError>,
)
    requires
        call_ensures(build_image_bundle::<H, R>, (selection, run_id, maa_task_id, read), outcome),
    ensures
        outcome matches Err(ImageBundleError::Io(text)) ==> {
            ||| exists|i: int, error: String|
                {
                    &&& 0 <= i < selection@.images.len()
                    &&& #[trigger] call_ensures(
                        read,
                        (&selection@.images[i].source, selection@.images[i].len),
                        Err::<Vec<u8>, String>(error),
                    )
                    &&& text@ == "write attachment ["@ + selection@.images[i].source_path + "]: "@
                        + error@
                }
            ||| exists|reason: Seq<char>| text@ == #[trigger] ("start ZIP entry: "@ + reason)
            ||| exists|reason: Seq<char>| text@ == #[trigger] ("finish screenshot ZIP: "@ + reason)
        },
{
    let images = selection@.images;
    lemma_selected_bytes(images);
    if outcome is Err && outcome->Err_0 is Io {
        let text = outcome->Err_0->Io_0;
        let outcomes = choose|outcomes: Seq<Result<Vec<u8>, String>>|
            {
                &&& #[trigger] crate::bundle::are_image_reads(read, images, outcomes)
                &&& crate::bundle::is_bundle_of(
                    outcome,
                    Packing::after_images(images, outcomes),
                    images.len(),
                    selected_bytes(images),
                    run_id@,
                    maa_task_id,
                )
            };
        if Packing::after_images(images, outcomes) is Failed {
            lemma_packing_failed(images, outcomes, text@);
            if exists|i: int| #[trigger] is_read_failure(images, outcomes, text@, i) {
                let i = choose|i: int| #[trigger] is_read_failure(images, outcomes, text@, i);
                assert(crate::bundle::image_read_gave(read, images[i], outcomes[i]));
                let error = outcomes[i]->Err_0;
                assert(outcomes[i] == Err::<Vec<u8>, String>(error));
                assert(call_ensures(
                    read,
                    (&images[i].source, images[i].len),
                    Err::<Vec<u8>, String>(error),
                ));
            }
        }
    }
}

/// What an error says of itself.
pub proof fn lemma_describe(error: &ImageBundleError, text: String)
    requires
        call_ensures(ImageBundleError::describe, (error,), text),
    ensures
        error is NoEvidence ==> text@ == "no task-scoped evidence was found"@,
        error matches ImageBundleError::Io(message) ==> text@ == message@,
        error matches ImageBundleError::TooLarge { selected_raw_bytes, bundle_bytes } ==> {
            let raw = decimal(*selected_raw_bytes as nat);
            &&& bundle_bytes is None ==> text@ == "task screenshot evidence is too large (raw="@
                + raw + ", bundle="@ + "not-built"@ + ")"@
            &&& bundle_bytes matches Some(size) ==> text@
                == "task screenshot evidence is too large (raw="@ + raw + ", bundle="@ + decimal(
                size as nat,
            ) + ")"@
        },
{
}

} // verus!
