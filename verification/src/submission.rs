//! How a failure is submitted: what of its evidence is gathered, and what is sent instead.

use vstd::prelude::*;
use vstd::bytes::spec_u64_from_le_bytes;
use crate::bundle::{build_image_bundle, is_bundling, ImageBundle, ImageBundleError};
use crate::discovery::{lists_alike, Listed};
use crate::endings::{finish_run, is_run_end, RunEnd, SpanStatus};
use crate::event::{
    agree_on, capture_failure_event, event_facts, event_of, lemma_outcome_told_apart, with_logs,
    DatumView, Event, FailureEvent,
};
use crate::evidence::{opens_alike, Opened, TaskEvidenceStart};
use crate::logs::{
    are_logs_of, build_diagnostic_logs, gives_at_most, lemma_same_logs, log_order, logs_bounded,
    reads_alike, DiagnosticLogs, LogTexts,
};
use crate::map::StringMap;
use crate::order::{in_order, sorted_by, text_order};
use crate::path::PathComponent;
use crate::report::{
    attachment_error_outcome, is_outcome_of, EventConfig, FailureAttachmentOutcome, Report,
    TaskFailureReport,
};
use crate::runs::{keys, Run, RunState};
use crate::sampling::{
    is_sampled, lemma_sampling_boundaries, sampling_input, sha256, should_sample_attachment,
    SampleRate,
};
use crate::selection::{
    apply_task_image_refresh, capture_task_end, is_capture, lemma_pushed_contains,
    lemma_same_capture, refreshed, Refresh, Selection, TaskEvidenceSelection, TaskImageRefresh,
};
use crate::text::{concat, starts_with, views};
use crate::workers::{are_keys, PendingFailureWorkers};

verus! {

/// How long late screenshots are waited for, in nanoseconds.
pub const IMAGE_SETTLE_TIMEOUT: u128 = 1_000_000_000;

/// How long is waited between two looks for late screenshots, in nanoseconds.
pub const IMAGE_SETTLE_INTERVAL: u128 = 100_000_000;

/// How long workers are waited for when the application ends, in milliseconds.
pub const FAILURE_WORKER_DRAIN_TIMEOUT: u64 = 750;

/// What is done with a failure that was reported.
#[derive(Debug)]
pub enum Submission<H, T> {
    /// The event is sent at once, without evidence.
    Send { report: TaskFailureReport<T>, outcome: FailureAttachmentOutcome },
    /// A worker gathers the evidence that was selected.
    Gather {
        worker_id: u64,
        report: TaskFailureReport<T>,
        selection: TaskEvidenceSelection<H>,
        include_images: bool,
    },
}

/// A report without its baseline.
pub open spec fn without_baseline<T>(report: Report<T>) -> Report<T> {
    Report { evidence_start: None, ..report }
}

/// The screenshots of a report are sampled.
pub open spec fn includes_images<T>(report: Report<T>) -> bool {
    is_sampled(
        spec_u64_from_le_bytes(
            sha256(sampling_input(report.run_id, report.maa_task_id)).take(8),
        ),
        report.event_config.failure_attachments_sample_rate,
    )
}

/// The event is sent at once, for the given reason.
pub open spec fn is_sent<H, T>(
    submission: Submission<H, T>,
    expected: Report<T>,
    status: Seq<char>,
    detail: Seq<char>,
) -> bool {
    submission matches Submission::Send { report, outcome } && report@ == expected
        && outcome.is_omitted(status, detail)
}

/// Why nothing is gathered where another instance was running too.
pub open spec fn overlap_detail() -> Seq<char> {
    "another instance run overlapped this"@ + " task evidence window"@
}

/// `submission` is what is done with a report whose evidence has the baseline `start`, where
/// `present` is the epoch after it was captured, and `worker` the number that it was registered
/// under.
pub open spec fn is_capture_submission<
    H,
    T,
    L: Fn(&Vec<PathComponent>, usize) -> Option<Vec<Listed>>,
    F: Fn(&Vec<PathComponent>) -> Opened<H>,
>(
    submission: Submission<H, T>,
    given: Report<T>,
    is_dir: bool,
    list: L,
    open: F,
    present: u64,
    worker: Option<u64>,
) -> bool {
    if present != given.evidence_epoch {
        is_sent(
            submission,
            without_baseline(given),
            "concurrent_instance"@,
            "another instance run started before the evidence boundary was frozen"@,
        )
    } else {
        match worker {
            None => is_sent(
                submission,
                without_baseline(given),
                "shutdown_in_progress"@,
                "telemetry shutdown started before evidence processing"@,
            ),
            Some(id) => {
                submission matches Submission::Gather {
                    worker_id,
                    report,
                    selection,
                    include_images,
                } && worker_id == id && report@ == without_baseline(given) && include_images
                    == includes_images(given) && is_capture(
                    selection@,
                    given.evidence_start->0,
                    is_dir,
                    list,
                    open,
                )
            },
        }
    }
}

/// `register` gave `worker` for the report.
pub open spec fn registered<T, G: Fn(&TaskFailureReport<T>) -> Option<u64>>(
    register: G,
    report: Report<T>,
    worker: Option<u64>,
) -> bool {
    exists|given: TaskFailureReport<T>|
        given@ == report && #[trigger] call_ensures(register, (&given,), worker)
}

/// Decides what is done with a failure, and selects its evidence.
///
/// Nothing is selected where the files could be those of another instance, or where the baseline is
/// missing. What was selected is given up where something else has started since, and where
/// reporting is shutting down.
///
/// `list` and `open` look at the files, `epoch` reads the present epoch, and `register` registers
/// the report for a worker.
pub fn submit_failure_report<
    H,
    T,
    L: Fn(&Vec<PathComponent>, usize) -> Option<Vec<Listed>>,
    F: Fn(&Vec<PathComponent>) -> Opened<H>,
    E: Fn() -> u64,
    G: Fn(&TaskFailureReport<T>) -> Option<u64>,
>(
    report: TaskFailureReport<T>,
    is_dir: bool,
    list: L,
    open: F,
    epoch: E,
    register: G,
) -> (submission: Submission<H, T>)
    requires
        forall|dir: &Vec<PathComponent>, room: usize| call_requires(list, (dir, room)),
        forall|path: &Vec<PathComponent>| call_requires(open, (path,)),
        call_requires(epoch, ()),
        forall|report: &TaskFailureReport<T>| call_requires(register, (report,)),
    ensures
        !report@.evidence_isolated ==> is_sent(
            submission,
            without_baseline(report@),
            "concurrent_instance"@,
            overlap_detail(),
        ),
        report@.evidence_isolated && report@.evidence_start is None ==> {
            submission matches Submission::Send { report: sent, outcome } && sent@ == report@
                && outcome is NotSelected
        },
        report@.evidence_isolated && report@.evidence_start is Some ==> exists|
            present: u64,
            worker: Option<u64>,
        |
            {
                &&& call_ensures(epoch, (), present)
                &&& present == report@.evidence_epoch ==> registered(
                    register,
                    without_baseline(report@),
                    worker,
                )
                &&& #[trigger] is_capture_submission(
                    submission,
                    report@,
                    is_dir,
                    list,
                    open,
                    present,
                    worker,
                )
            },
{
    let ghost given = report@;
    let mut report = report;
    let mut start: Option<TaskEvidenceStart> = None;
    std::mem::swap(&mut start, &mut report.evidence_start);
    let ghost bare = report@;
    assert(bare =~= without_baseline(given));
    if !report.evidence_isolated {
        return Submission::Send {
            report,
            outcome: FailureAttachmentOutcome::omitted(
                "concurrent_instance",
                concat("another instance run overlapped this", " task evidence window").as_str(),
            ),
        };
    }
    let start = match start {
        Some(start) => start,
        None => {
            assert(bare =~= given);
            return Submission::Send { report, outcome: FailureAttachmentOutcome::NotSelected };
        },
    };
    let selection = capture_task_end(start, is_dir, list, open);
    let present: u64 = epoch();
    if present != report.evidence_epoch {
        let submission = Submission::Send {
            report,
            outcome: FailureAttachmentOutcome::omitted(
                "concurrent_instance",
                "another instance run started before the evidence boundary was frozen",
            ),
        };
        assert(is_capture_submission(submission, given, is_dir, list, open, present, None));
        return submission;
    }
    let include_images = should_sample_attachment(
        report.run_id.as_str(),
        report.maa_task_id,
        report.event_config.failure_attachments_sample_rate,
    );
    let worker = register(&report);
    assert(registered(register, without_baseline(given), worker));
    match worker {
        None => {
            let submission = Submission::Send {
                report,
                outcome: FailureAttachmentOutcome::omitted(
                    "shutdown_in_progress",
                    "telemetry shutdown started before evidence processing",
                ),
            };
            assert(is_capture_submission(submission, given, is_dir, list, open, present, worker));
            submission
        },
        Some(worker_id) => {
            let submission = Submission::Gather { worker_id, report, selection, include_images };
            assert(is_capture_submission(submission, given, is_dir, list, open, present, worker));
            submission
        },
    }
}

/// Late screenshots are still looked for: reporting goes on and nothing else has started.
pub open spec fn still_settling(closing: bool, epoch: u64, expected_epoch: u64) -> bool {
    !closing && epoch == expected_epoch
}

/// Whether late screenshots are still looked for.
pub fn may_refresh(closing: bool, epoch: u64, expected_epoch: u64) -> (may: bool)
    ensures
        may == still_settling(closing, epoch, expected_epoch),
{
    !closing && epoch == expected_epoch
}

/// When the search for late screenshots ends, if it begins now.
pub fn settle_deadline(now: u128) -> (deadline: u128)
    requires
        now + IMAGE_SETTLE_TIMEOUT <= u128::MAX,
    ensures
        deadline == now + IMAGE_SETTLE_TIMEOUT,
{
    now + IMAGE_SETTLE_TIMEOUT
}

/// How long is waited before the next look for late screenshots, in nanoseconds; `None` ends the
/// search.
pub fn settle_pause(
    closing: bool,
    epoch: u64,
    expected_epoch: u64,
    now: u128,
    deadline: u128,
) -> (pause: Option<u128>)
    ensures
        pause == (if !still_settling(closing, epoch, expected_epoch) || now >= deadline {
            None
        } else if deadline - now < IMAGE_SETTLE_INTERVAL {
            Some((deadline - now) as u128)
        } else {
            Some(IMAGE_SETTLE_INTERVAL)
        }),
{
    if !may_refresh(closing, epoch, expected_epoch) || now >= deadline {
        return None;
    }
    let remaining: u128 = deadline - now;
    if remaining < IMAGE_SETTLE_INTERVAL {
        Some(remaining)
    } else {
        Some(IMAGE_SETTLE_INTERVAL)
    }
}

/// Adds late screenshots to a selection, unless something else started while they were looked for,
/// and tells whether the search goes on.
pub fn settle_refresh<H>(
    selection: &mut TaskEvidenceSelection<H>,
    refresh: TaskImageRefresh<H>,
    epoch: u64,
    expected_epoch: u64,
) -> (goes_on: bool)
    ensures
        goes_on == (epoch == expected_epoch),
        final(selection)@ == (if epoch == expected_epoch {
            refreshed(old(selection)@, refresh@)
        } else {
            old(selection)@
        }),
{
    if epoch != expected_epoch {
        return false;
    }
    apply_task_image_refresh(selection, refresh);
    true
}

/// `outcome` is what becomes of the screenshots of a selection.
pub open spec fn is_attachment_of<H, R: Fn(&H, u64) -> Result<Vec<u8>, String>>(
    outcome: FailureAttachmentOutcome,
    selection: Selection<H>,
    include_images: bool,
    run_id: Seq<char>,
    maa_task_id: i64,
    read: R,
) -> bool {
    if include_images {
        exists|packed: Result<ImageBundle, ImageBundleError>|
            {
                &&& #[trigger] is_bundling(packed, selection.images, run_id, maa_task_id, read)
                &&& match packed {
                    Ok(bundle) => outcome == FailureAttachmentOutcome::Attached(bundle),
                    Err(error) => is_outcome_of(outcome, error),
                }
            }
    } else {
        outcome is NotSelected
    }
}

/// Gathers the evidence that was selected: the logs always, the screenshots where they are included.
///
/// `read_log` reads a number of bytes of an open file from an offset, and `read_image` a number of
/// bytes from its start.
pub fn gather_evidence<
    H,
    R: Fn(&H, u64, u64) -> Result<Vec<u8>, String>,
    I: Fn(&H, u64) -> Result<Vec<u8>, String>,
>(
    selection: TaskEvidenceSelection<H>,
    include_images: bool,
    run_id: &str,
    maa_task_id: i64,
    read_log: R,
    read_image: I,
) -> (evidence: (DiagnosticLogs, FailureAttachmentOutcome))
    requires
        forall|source: &H, start: u64, len: u64| call_requires(read_log, (source, start, len)),
        forall|source: &H, len: u64| call_requires(read_image, (source, len)),
        forall|source: &H, len: u64, bytes: Vec<u8>|
            call_ensures(read_image, (source, len), Ok(bytes)) ==> bytes@.len() <= len,
    ensures
        are_logs_of(
            evidence.0@,
            selection@.warnings,
            sorted_by(selection@.logs, log_order()),
            read_log,
        ),
        is_attachment_of(
            evidence.1,
            selection@,
            include_images,
            run_id@,
            maa_task_id,
            read_image,
        ),
        gives_at_most::<H, R>(read_log) ==> logs_bounded(evidence.0@),
{
    let ghost given = selection@;
    let mut selection = selection;
    let logs = build_diagnostic_logs(&mut selection, read_log);
    if !include_images {
        return (logs, FailureAttachmentOutcome::NotSelected);
    }
    let packed = build_image_bundle(selection, run_id, maa_task_id, read_image);
    assert(is_bundling(packed, given.images, run_id@, maa_task_id, read_image));
    let outcome = match packed {
        Ok(bundle) => FailureAttachmentOutcome::Attached(bundle),
        Err(error) => attachment_error_outcome(error),
    };
    (logs, outcome)
}

/// Ends the work on a report, and tells whether its event is sent.
///
/// It is not where the report was taken out meanwhile, since then it was sent without evidence or
/// given up.
pub fn complete_failure_worker<R>(
    workers: &mut PendingFailureWorkers<R>,
    worker_id: u64,
    active: bool,
) -> (send: bool)
    ensures
        send == (active && old(workers).reports().dom().contains(worker_id)),
        final(workers).reports() == old(workers).reports().remove(worker_id),
        final(workers).next() == old(workers).next(),
{
    workers.take(worker_id).is_some() && active
}

/// Takes the report of a worker that could not be started, to be sent without evidence.
pub fn worker_unavailable<T>(
    workers: &mut PendingFailureWorkers<TaskFailureReport<T>>,
    worker_id: u64,
    error: &str,
) -> (unsent: Option<(TaskFailureReport<T>, FailureAttachmentOutcome)>)
    ensures
        final(workers).reports() == old(workers).reports().remove(worker_id),
        final(workers).next() == old(workers).next(),
        unsent is Some <==> old(workers).reports().dom().contains(worker_id),
        unsent matches Some((report, outcome)) ==> report == old(workers).reports()[worker_id]
            && outcome.is_omitted("worker_unavailable"@, error@),
{
    match workers.take(worker_id) {
        Some(report) => Some(
            (report, FailureAttachmentOutcome::omitted("worker_unavailable", error)),
        ),
        None => None,
    }
}

/// The screenshots are left out because the application ended first.
pub open spec fn is_shutdown_outcome(outcome: FailureAttachmentOutcome) -> bool {
    outcome.is_omitted(
        "shutdown_fallback"@,
        "evidence worker did not finish before telemetry shutdown"@,
    )
}

/// `event` reports a failure whose evidence was not gathered in time.
pub open spec fn is_fallback<T>(event: Event<T>, report: Report<T>) -> bool {
    exists|outcome: FailureAttachmentOutcome| #[trigger]
        is_shutdown_outcome(outcome) && event == event_of(report, None, outcome)
}

/// Makes the events of the reports whose evidence was not gathered when the application ends, in the
/// order of their workers' numbers.
pub fn fallback_events<T>(workers: &mut PendingFailureWorkers<TaskFailureReport<T>>) -> (events: Vec<
    FailureEvent<T>,
>)
    ensures
        final(workers).reports() == Map::<u64, TaskFailureReport<T>>::empty(),
        final(workers).next() == old(workers).next(),
        exists|ids: Seq<u64>|
            {
                &&& #[trigger] are_keys(ids, old(workers).reports())
                &&& events@.len() == ids.len()
                &&& forall|i: int|
                    0 <= i < ids.len() ==> is_fallback(
                        (#[trigger] events@[i])@,
                        old(workers).reports()[ids[i]]@,
                    )
            },
{
    let reports = workers.drain();
    let ghost all = reports@;
    let mut events: Vec<FailureEvent<T>> = Vec::new();
    for report in it: reports
        invariant
            it.seq() == all,
            events@.len() == it.index(),
            forall|i: int|
                0 <= i < events@.len() ==> is_fallback((#[trigger] events@[i])@, all[i]@),
    {
        let outcome = FailureAttachmentOutcome::omitted(
            "shutdown_fallback",
            "evidence worker did not finish before telemetry shutdown",
        );
        assert(is_shutdown_outcome(outcome));
        let ghost given = report@;
        let event = capture_failure_event(report, None, outcome);
        assert(is_fallback(event@, given));
        events.push(event);
    }
    proof {
        let ids = choose|ids: Seq<u64>|
            {
                &&& #[trigger] are_keys(ids, old(workers).reports())
                &&& all == ids.map_values(|id: u64| old(workers).reports()[id])
            };
        assert(are_keys(ids, old(workers).reports()));
        assert forall|i: int| 0 <= i < ids.len() implies is_fallback(
            (#[trigger] events@[i])@,
            old(workers).reports()[ids[i]]@,
        ) by {
            assert(all[i] == old(workers).reports()[ids[i]]);
        }
    }
    events
}

/// `end` is the end of the run of an instance, which was cancelled.
pub open spec fn is_cancelled_run<S>(
    end: RunEnd<S>,
    runs: Map<Seq<char>, Run<S>>,
    instance_id: Seq<char>,
) -> bool {
    runs.dom().contains(instance_id) && is_run_end(
        end,
        runs[instance_id],
        Some(SpanStatus::Cancelled),
    )
}

/// `ends` are the ends of the runs of the given instances.
pub open spec fn are_run_ends<S>(
    ends: Seq<RunEnd<S>>,
    runs: Map<Seq<char>, Run<S>>,
    ids: Seq<Seq<char>>,
) -> bool {
    &&& ends.len() == ids.len()
    &&& forall|i: int| 0 <= i < ids.len() ==> #[trigger] is_cancelled_run(ends[i], runs, ids[i])
}

/// `ends` are the ends of all runs, in the order of their instances.
pub open spec fn all_cancelled<S>(ends: Seq<RunEnd<S>>, runs: Map<Seq<char>, Run<S>>) -> bool {
    exists|ids: Seq<Seq<char>>|
        {
            &&& in_order(ids, text_order())
            &&& ids.no_duplicates()
            &&& forall|id: Seq<char>| #[trigger] ids.contains(id) == runs.dom().contains(id)
            &&& #[trigger] are_run_ends(ends, runs, ids)
        }
}

/// Ends reporting when the application ends, unless there is nothing that reports: all runs that are
/// going on end as cancelled.
pub fn on_app_exit<S>(active: bool, runs: &mut StringMap<RunState<S>>) -> (ends: Option<
    Vec<RunEnd<S>>,
>)
    ensures
        ends is Some <==> active,
        match ends {
            Some(ends) => final(runs)@ == Map::<Seq<char>, Run<S>>::empty() && all_cancelled(
                ends@,
                old(runs)@,
            ),
            None => final(runs)@ == old(runs)@,
        },
{
    if !active {
        return None;
    }
    Some(cancel_all_runs(runs))
}

/// Ends all runs that are going on, as cancelled.
pub fn cancel_all_runs<S>(runs: &mut StringMap<RunState<S>>) -> (ends: Vec<RunEnd<S>>)
    ensures
        final(runs)@ == Map::<Seq<char>, Run<S>>::empty(),
        all_cancelled(ends@, old(runs)@),
{
    let ghost before = runs@;
    let instances = keys(runs);
    let ghost all = views(instances@);
    let mut ends: Vec<RunEnd<S>> = Vec::new();
    let mut index: usize = 0;
    while index < instances.len()
        invariant
            index <= instances@.len(),
            all == views(instances@),
            all.no_duplicates(),
            forall|id: Seq<char>| #[trigger] all.contains(id) == before.dom().contains(id),
            forall|id: Seq<char>| #[trigger]
                runs@.dom().contains(id) == (before.dom().contains(id) && !all.take(
                    index as int,
                ).contains(id)),
            forall|id: Seq<char>| #[trigger]
                runs@.dom().contains(id) ==> runs@[id] == before[id],
            ends@.len() == index,
            forall|i: int| 0 <= i < index ==> #[trigger] is_cancelled_run(ends@[i], before, all[i]),
        decreases instances@.len() - index,
    {
        let ghost id = all[index as int];
        let ghost left = runs@;
        let ghost earlier = ends@;
        proof {
            assert(id == instances@[index as int]@);
            assert(all.contains(id));
            assert(!all.take(index as int).contains(id)) by {
                if all.take(index as int).contains(id) {
                    let i = choose|i: int|
                        0 <= i < all.take(index as int).len() && all.take(index as int)[i] == id;
                    assert(all[i] == all[index as int]);
                }
            }
            assert(runs@.dom().contains(id));
        }
        if let Some(end) = finish_run(
            runs,
            instances[index].as_str(),
            Some(SpanStatus::Cancelled),
        ) {
            ends.push(end);
        }
        proof {
            assert(all.take(index + 1) =~= all.take(index as int).push(id));
            assert forall|other: Seq<char>| #[trigger] runs@.dom().contains(other) == (
            before.dom().contains(other) && !all.take(index + 1).contains(other)) by {
                assert(runs@.dom().contains(other) == (left.dom().contains(other) && other != id));
                lemma_pushed_contains(all.take(index as int), id, other);
            }
            assert forall|i: int| 0 <= i < index + 1 implies #[trigger] is_cancelled_run(
                ends@[i],
                before,
                all[i],
            ) by {
                if i < index {
                    assert(is_cancelled_run(earlier[i], before, all[i]));
                } else {
                    assert(left[id] == before[id]);
                }
            }
        }
        index += 1;
    }
    proof {
        assert(all.take(index as int) =~= all);
        assert forall|id: Seq<char>| !runs@.dom().contains(id) by {
            assert(all.contains(id) == before.dom().contains(id));
        }
        assert(runs@ =~= Map::<Seq<char>, Run<S>>::empty());
        assert(all.len() == instances@.len());
        assert(are_run_ends(ends@, before, all));
    }
    ends
}

/// Evidence that was captured after anything else has started is given up, however often that
/// happened, unless the epochs came round to where they were.
pub proof fn lemma_superseded_evidence_dropped<
    H,
    T,
    L: Fn(&Vec<PathComponent>, usize) -> Option<Vec<Listed>>,
    F: Fn(&Vec<PathComponent>) -> Opened<H>,
>(
    submission: Submission<H, T>,
    given: Report<T>,
    is_dir: bool,
    list: L,
    open: F,
    starts: u64,
    worker: Option<u64>,
)
    requires
        starts > 0,
        is_capture_submission(
            submission,
            given,
            is_dir,
            list,
            open,
            given.evidence_epoch.wrapping_add(starts),
            worker,
        ),
    ensures
        submission is Send,
{
}

/// A report with another rate of screenshots.
pub open spec fn with_rate<T>(report: Report<T>, rate: SampleRate) -> Report<T> {
    Report {
        event_config: EventConfig { failure_attachments_sample_rate: rate, ..report.event_config },
        ..report
    }
}

/// A selection after late screenshots were looked for several times.
pub open spec fn settled<H>(selection: Selection<H>, refreshes: Seq<Refresh<H>>) -> Selection<H>
    decreases refreshes.len(),
{
    if refreshes.len() == 0 {
        selection
    } else {
        refreshed(settled(selection, refreshes.drop_last()), refreshes.last())
    }
}

/// `logs` and `outcome` are what a worker gathers for `submission`, once late screenshots were looked
/// for.
pub open spec fn is_gathered<
    H,
    T,
    R: Fn(&H, u64, u64) -> Result<Vec<u8>, String>,
    I: Fn(&H, u64) -> Result<Vec<u8>, String>,
>(
    submission: Submission<H, T>,
    refreshes: Seq<Refresh<H>>,
    read_log: R,
    read_image: I,
    logs: LogTexts,
    outcome: FailureAttachmentOutcome,
) -> bool {
    submission matches Submission::Gather { report, selection, include_images, .. } && {
        let selection = settled(selection@, refreshes);
        &&& are_logs_of(
            logs,
            selection.warnings,
            sorted_by(selection.logs, log_order()),
            read_log,
        )
        &&& is_attachment_of(
            outcome,
            selection,
            include_images,
            report@.run_id,
            report@.maa_task_id,
            read_image,
        )
    }
}

/// The rate of screenshots decides about the screenshots alone: of two reports that differ in
/// nothing else, submitted and gathered in the same state, the events tell the same and come with
/// the same logs, but for what is told of the screenshots. At the rate zero there are none.
pub proof fn lemma_rate_decides_screenshots_only<
    H,
    T,
    L: Fn(&Vec<PathComponent>, usize) -> Option<Vec<Listed>>,
    F: Fn(&Vec<PathComponent>) -> Opened<H>,
    R: Fn(&H, u64, u64) -> Result<Vec<u8>, String>,
    I: Fn(&H, u64) -> Result<Vec<u8>, String>,
>(
    given: Report<T>,
    rate: SampleRate,
    first: Submission<H, T>,
    second: Submission<H, T>,
    is_dir: bool,
    list: L,
    open: F,
    present: u64,
    worker: Option<u64>,
    refreshes: Seq<Refresh<H>>,
    read_log: R,
    read_image: I,
    first_logs: LogTexts,
    second_logs: LogTexts,
    first_outcome: FailureAttachmentOutcome,
    second_outcome: FailureAttachmentOutcome,
)
    requires
        lists_alike(list),
        opens_alike::<H, F>(open),
        reads_alike::<H, R>(read_log),
        is_capture_submission(first, given, is_dir, list, open, present, worker),
        is_capture_submission(second, with_rate(given, rate), is_dir, list, open, present, worker),
        first is Gather ==> is_gathered(
            first,
            refreshes,
            read_log,
            read_image,
            first_logs,
            first_outcome,
        ),
        second is Gather ==> is_gathered(
            second,
            refreshes,
            read_log,
            read_image,
            second_logs,
            second_outcome,
        ),
    ensures
        first is Gather <==> present == given.evidence_epoch && worker is Some,
        second is Gather <==> first is Gather,
        first is Gather ==> {
            let one = event_of(first->Gather_report@, Some(first_logs), first_outcome);
            let other = event_of(second->Gather_report@, Some(second_logs), second_outcome);
            &&& first->worker_id == second->worker_id
            &&& first->selection@ == second->selection@
            &&& first_logs == second_logs
            &&& one.message == other.message
            &&& one.fingerprint == other.fingerprint
            &&& one.tags == other.tags
            &&& one.trace == other.trace
            &&& forall|key: Seq<char>|
                !starts_with(key, "attachment."@) ==> #[trigger] agree_on(
                    one.extra,
                    other.extra,
                    key,
                )
            &&& forall|key: Seq<char>|
                starts_with(key, "logs."@) ==> #[trigger] agree_on(one.extra, other.extra, key)
            &&& rate.bits == 0 ==> {
                &&& second_outcome is NotSelected
                &&& other.attachment is None
                &&& other.extra["attachment.status"@] == DatumView::Text("not_selected"@)
            }
        },
{
    let changed = with_rate(given, rate);
    if first is Gather {
        lemma_same_capture(
            first->selection@,
            second->selection@,
            given.evidence_start->0,
            is_dir,
            list,
            open,
        );
        let selection = settled(first->selection@, refreshes);
        lemma_same_logs(
            first_logs,
            second_logs,
            selection.warnings,
            sorted_by(selection.logs, log_order()),
            read_log,
        );
        let one = event_of(first->Gather_report@, Some(first_logs), first_outcome);
        let other = event_of(second->Gather_report@, Some(second_logs), second_outcome);
        let told = with_logs(event_facts(given), Some(first_logs));
        assert(event_facts(first->Gather_report@) == event_facts(given));
        assert(event_facts(second->Gather_report@) == event_facts(given));
        assert forall|key: Seq<char>| !starts_with(key, "attachment."@) implies #[trigger] agree_on(
            one.extra,
            other.extra,
            key,
        ) by {
            lemma_outcome_told_apart(told, first_outcome, key);
            lemma_outcome_told_apart(told, second_outcome, key);
        }
        assert forall|key: Seq<char>| starts_with(key, "logs."@) implies #[trigger] agree_on(
            one.extra,
            other.extra,
            key,
        ) by {
            reveal_strlit("logs.");
            reveal_strlit("attachment.");
            assert(key.subrange(0, 5)[0] == 'l');
            if starts_with(key, "attachment."@) {
                assert(key.subrange(0, 11)[0] == 'a');
            }
        }
        if rate.bits == 0 {
            lemma_sampling_boundaries(
                spec_u64_from_le_bytes(
                    sha256(sampling_input(given.run_id, given.maa_task_id)).take(8),
                ),
                rate,
            );
            assert(!includes_images(changed));
        }
    }
}

/// Forgets what is going on when reporting is switched off: all runs, and all reports whose evidence
/// is being gathered, so that none of them is sent any more.
pub fn shut_down<S, R>(
    runs: &mut StringMap<RunState<S>>,
    workers: &mut PendingFailureWorkers<R>,
)
    ensures
        final(runs)@ == Map::<Seq<char>, Run<S>>::empty(),
        final(runs)@.dom() == Set::<Seq<char>>::empty(),
        final(workers).reports() == Map::<u64, R>::empty(),
        final(workers).next() == old(workers).next(),
{
    workers.cancel_all();
    *runs = StringMap::new();
}

/// Once reporting was switched off, no worker that ends later sends anything, none is found that
/// could not be started, and nothing is left to be sent when the application ends, whether reporting
/// is active again or not.
pub proof fn lemma_silent_after_shut_down<R>(
    reports: Map<u64, R>,
    worker_id: u64,
    ids: Seq<u64>,
    active: bool,
)
    requires
        reports == Map::<u64, R>::empty(),
    ensures
        !(active && reports.dom().contains(worker_id)),
        reports.remove(worker_id) == reports,
        are_keys(ids, reports) ==> ids.len() == 0,
{
    assert(reports.remove(worker_id) =~= reports);
    if are_keys(ids, reports) && ids.len() > 0 {
        assert(ids.to_set().contains(ids[0]));
    }
}

} // verus!
