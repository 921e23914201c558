//! What is done with a failure: what is gathered for it, and what is sent instead.

use vstd::prelude::*;
use vstd::bytes::{spec_u64_from_le_bytes, spec_u64_to_le_bytes};
use vstd::utf8::encode_utf8;
use crate::bundle::{is_bundling, ImageBundle, ImageBundleError};
use crate::discovery::Listed;
use crate::endings::{is_run_end, RunEnd, SpanStatus};
use crate::event::{Event, FailureEvent};
use crate::evidence::Opened;
use crate::logs::{are_logs_of, log_order, DiagnosticLogs};
use crate::map::StringMap;
use crate::order::sorted_by;
use crate::path::PathComponent;
use crate::report::{FailureAttachmentOutcome, Report, TaskFailureReport};
use crate::runs::RunState;
use crate::sampling::{is_sampled, sha256};
use crate::selection::{is_capture, TaskEvidenceSelection, TaskImageRefresh};
use crate::submission::{
    cancel_all_runs, complete_failure_worker, fallback_events, gather_evidence, may_refresh,
    on_app_exit, settle_deadline, settle_pause, settle_refresh, shut_down, submit_failure_report,
    worker_unavailable, Submission,
};
use crate::workers::PendingFailureWorkers;

verus! {

/// A report is sent at once, and its screenshots are left out for the given reason.
pub open spec fn sent_without<H, T>(
    submission: Submission<H, T>,
    status: Seq<char>,
    detail: Seq<char>,
) -> bool {
    submission matches Submission::Send { report, outcome } && (outcome
        matches FailureAttachmentOutcome::Omitted {
        status: told,
        detail: said,
        selected_raw_bytes,
        bundle_bytes,
    } && told@ == status && said@ == detail && selected_raw_bytes is None && bundle_bytes is None)
}

/// The report that goes on from a submission.
pub open spec fn carried<H, T>(submission: Submission<H, T>) -> Report<T> {
    match submission {
        Submission::Send { report, outcome } => report@,
        Submission::Gather { worker_id, report, selection, include_images } => report@,
    }
}

/// Nothing of a report is changed but that its baseline was used.
pub open spec fn same_report<T>(report: Report<T>, given: Report<T>) -> bool {
    &&& report.run_id == given.run_id
    &&& report.maa_task_id == given.maa_task_id
    &&& report.task == given.task
    &&& report.duration_ms == given.duration_ms
    &&& report.started_wall_time == given.started_wall_time
    &&& report.failure == given.failure
    &&& report.terminal_failure == given.terminal_failure
    &&& report.failed_node_count == given.failed_node_count
    &&& report.trace_context == given.trace_context
    &&& report.tags == given.tags
    &&& report.event_config == given.event_config
    &&& report.evidence_isolated == given.evidence_isolated
    &&& report.evidence_epoch == given.evidence_epoch
    &&& report.evidence_start is None
}

/// What is done with a failure whose evidence was selected, where `present` is the epoch since and
/// `worker` the number that the report was registered under.
pub open spec fn is_decided<
    H,
    T,
    L: Fn(&Vec<PathComponent>, usize) -> Option<Vec<Listed>>,
    F: Fn(&Vec<PathComponent>) -> Opened<H>,
>(
    submission: Submission<H, T>,
    report: Report<T>,
    is_dir: bool,
    list: L,
    open: F,
    present: u64,
    worker: Option<u64>,
) -> bool {
    if present != report.evidence_epoch {
        sent_without(
            submission,
            "concurrent_instance"@,
            "another instance run started before the evidence boundary was frozen"@,
        )
    } else if worker is None {
        sent_without(
            submission,
            "shutdown_in_progress"@,
            "telemetry shutdown started before evidence processing"@,
        )
    } else {
        &&& submission is Gather
        &&& Some(submission->worker_id) == worker
        &&& is_capture(submission->selection@, report.evidence_start->0, is_dir, list, open)
        &&& submission->include_images == is_sampled(
            spec_u64_from_le_bytes(
                sha256(
                    encode_utf8("mxu-failure-attachment-v1:"@ + report.run_id)
                        + spec_u64_to_le_bytes(report.maa_task_id as u64),
                ).take(8),
            ),
            report.event_config.failure_attachments_sample_rate,
        )
    }
}

/// What is done with a failure. Its evidence is gathered only where no other instance was running,
/// where its baseline was taken, where nothing else has started since, and where reporting goes on;
/// otherwise the event is sent at once and tells why. What is gathered was selected against the
/// baseline of the report, and screenshots are among it as the digest of the run and the task decides.
pub proof fn lemma_submit_failure_report<
    H,
    T,
    L: Fn(&Vec<PathComponent>, usize) -> Option<Vec<Listed>>,
    F: Fn(&Vec<PathComponent>) -> Opened<H>,
    E: Fn() -> u64,
    G: Fn(&TaskFailureReport<T>) -> Option<u64>,
>(
    report: TaskFailureReport<T>,
    is_dir: bool,
    list: L,
    open: F,
    epoch: E,
    register: G,
    submission: Submission<H, T>,
)
    requires
        call_ensures(
            submit_failure_report::<H, T, L, F, E, G>,
            (report, is_dir, list, open, epoch, register),
            submission,
        ),
    ensures
        same_report(carried(submission), report@),
        !report.evidence_isolated ==> sent_without(
            submission,
            "concurrent_instance"@,
            "another instance run overlapped this"@ + " task evidence window"@,
        ),
        report.evidence_isolated && report@.evidence_start is None ==> submission is Send
            && submission->outcome is NotSelected,
        report.evidence_isolated && report@.evidence_start is Some ==> exists|
            present: u64,
            worker: Option<u64>,
        |
            {
                &&& call_ensures(epoch, (), present)
                &&& present == report.evidence_epoch ==> given_worker(register, report@, worker)
                &&& #[trigger] is_decided(submission, report@, is_dir, list, open, present, worker)
            },
{
    if report.evidence_isolated && report@.evidence_start is Some {
        let (present, worker) = choose|present: u64, worker: Option<u64>|
            {
                &&& call_ensures(epoch, (), present)
                &&& present == report@.evidence_epoch ==> crate::submission::registered(
                    register,
                    crate::submission::without_baseline(report@),
                    worker,
                )
                &&& #[trigger] crate::submission::is_capture_submission(
                    submission,
                    report@,
                    is_dir,
                    list,
                    open,
                    present,
                    worker,
                )
            };
        if present == report@.evidence_epoch {
            let given = choose|given: TaskFailureReport<T>|
                given@ == crate::submission::without_baseline(report@) && #[trigger] call_ensures(
                    register,
                    (&given,),
                    worker,
                );
            assert(same_report(given@, report@));
            assert(given_worker(register, report@, worker));
        }
        assert(is_decided(submission, report@, is_dir, list, open, present, worker));
    }
}

/// `register` gave `worker` for the report.
pub open spec fn given_worker<T, G: Fn(&TaskFailureReport<T>) -> Option<u64>>(
    register: G,
    report: Report<T>,
    worker: Option<u64>,
) -> bool {
    exists|given: TaskFailureReport<T>|
        same_report(given@, report) && #[trigger] call_ensures(register, (&given,), worker)
}

/// What is gathered: the logs that were selected, always, and the screenshots where they are sampled.
pub proof fn lemma_gather_evidence<
    H,
    R: Fn(&H, u64, u64) -> Result<Vec<u8>, String>,
    I: Fn(&H, u64) -> Result<Vec<u8>, String>,
>(
    selection: TaskEvidenceSelection<H>,
    include_images: bool,
    run_id: &str,
    maa_task_id: i64,
    read_log: R,
    read_image: I,
    evidence: (DiagnosticLogs, FailureAttachmentOutcome),
)
    requires
        call_ensures(
            gather_evidence::<H, R, I>,
            (selection, include_images, run_id, maa_task_id, read_log, read_image),
            evidence,
        ),
    ensures
        are_logs_of(
            evidence.0@,
            selection@.warnings,
            sorted_by(selection@.logs, log_order()),
            read_log,
        ),
        evidence.1 is NotSelected <==> !include_images,
        include_images ==> exists|packed: Result<ImageBundle, ImageBundleError>|
            {
                &&& #[trigger] is_bundling(
                    packed,
                    selection@.images,
                    run_id@,
                    maa_task_id,
                    read_image,
                )
                &&& packed matches Ok(bundle) ==> evidence.1
                    == FailureAttachmentOutcome::Attached(bundle)
                &&& packed is Err ==> evidence.1 is Omitted
            },
        evidence.1 is Attached ==> selection@.images.len() > 0,
{
}

/// Late screenshots are looked for while reporting goes on and nothing else has started.
pub proof fn lemma_may_refresh(closing: bool, epoch: u64, expected: u64, may: bool)
    requires
        call_ensures(may_refresh, (closing, epoch, expected), may),
    ensures
        may <==> !closing && epoch == expected,
{
}

/// The search for late screenshots lasts one second, with a look each tenth of one: it never waits
/// beyond its end.
pub proof fn lemma_settling(
    began: u128,
    closing: bool,
    epoch: u64,
    expected: u64,
    now: u128,
    deadline: u128,
    pause: Option<u128>,
)
    requires
        call_ensures(settle_deadline, (began,), deadline),
        call_ensures(settle_pause, (closing, epoch, expected, now, deadline), pause),
    ensures
        deadline == began + 1_000_000_000,
        pause is Some <==> !closing && epoch == expected && now < began + 1_000_000_000,
        pause matches Some(pause) ==> {
            &&& 0 < pause <= 100_000_000
            &&& now + pause <= deadline
            &&& now + 100_000_000 <= deadline ==> pause == 100_000_000
            &&& now + 100_000_000 > deadline ==> now + pause == deadline
        },
{
}

/// Late screenshots are added only where nothing else has started, and then the search goes on.
pub proof fn lemma_settle_refresh<H>(
    selection: &mut TaskEvidenceSelection<H>,
    refresh: TaskImageRefresh<H>,
    epoch: u64,
    expected: u64,
    goes_on: bool,
)
    requires
        call_ensures(settle_refresh::<H>, (selection, refresh, epoch, expected), goes_on),
    ensures
        goes_on <==> epoch == expected,
        epoch != expected ==> final(selection)@ == old(selection)@,
        epoch == expected ==> final(selection)@ == crate::selection::refreshed(
            old(selection)@,
            refresh@,
        ),
        final(selection)@.logs == old(selection)@.logs,
{
}

/// The event of a report is sent once: where the report was taken out before, it is not sent again,
/// and after this it is not there.
pub proof fn lemma_complete_failure_worker<R>(
    workers: &mut PendingFailureWorkers<R>,
    worker_id: u64,
    active: bool,
    send: bool,
    other: u64,
)
    requires
        call_ensures(complete_failure_worker::<R>, (workers, worker_id, active), send),
        other != worker_id,
    ensures
        send <==> active && old(workers).reports().dom().contains(worker_id),
        !final(workers).reports().dom().contains(worker_id),
        final(workers).reports().dom().contains(other) == old(workers).reports().dom().contains(
            other,
        ),
        old(workers).reports().dom().contains(other) ==> final(workers).reports()[other]
            == old(workers).reports()[other],
        final(workers).next() == old(workers).next(),
{
}

/// Where no worker could be started, its own report is sent, without evidence and with the reason.
pub proof fn lemma_worker_unavailable<T>(
    workers: &mut PendingFailureWorkers<TaskFailureReport<T>>,
    worker_id: u64,
    error: &str,
    unsent: Option<(TaskFailureReport<T>, FailureAttachmentOutcome)>,
    other: u64,
)
    requires
        call_ensures(worker_unavailable::<T>, (workers, worker_id, error), unsent),
        other != worker_id,
    ensures
        unsent is Some <==> old(workers).reports().dom().contains(worker_id),
        unsent matches Some((report, outcome)) ==> {
            &&& report == old(workers).reports()[worker_id]
            &&& outcome is Omitted
            &&& outcome->status@ == "worker_unavailable"@
            &&& outcome->detail@ == error@
        },
        !final(workers).reports().dom().contains(worker_id),
        old(workers).reports().dom().contains(other) ==> final(workers).reports().dom().contains(
            other,
        ) && final(workers).reports()[other] == old(workers).reports()[other],
{
}

/// When the application ends, every report that was being worked on is sent, once and without
/// evidence, and tells so.
pub proof fn lemma_fallback_events<T>(
    workers: &mut PendingFailureWorkers<TaskFailureReport<T>>,
    events: Vec<FailureEvent<T>>,
)
    requires
        call_ensures(fallback_events::<T>, (workers,), events),
    ensures
        final(workers).reports() == Map::<u64, TaskFailureReport<T>>::empty(),
        forall|id: u64| #[trigger]
            old(workers).reports().dom().contains(id) ==> exists|i: int|
                0 <= i < events@.len() && #[trigger] is_sent_bare(
                    events@[i]@,
                    old(workers).reports()[id]@,
                ),
        forall|i: int|
            0 <= i < events@.len() ==> is_sent_for((#[trigger] events@[i])@, old(workers).reports()),
        events@.len() == old(workers).reports().dom().len(),
{
    let ids = choose|ids: Seq<u64>|
        {
            &&& #[trigger] crate::workers::are_keys(ids, old(workers).reports())
            &&& events@.len() == ids.len()
            &&& forall|i: int|
                0 <= i < ids.len() ==> crate::submission::is_fallback(
                    (#[trigger] events@[i])@,
                    old(workers).reports()[ids[i]]@,
                )
        };
    assert(ids.no_duplicates());
    ids.unique_seq_to_set();
    assert forall|id: u64| #[trigger] old(workers).reports().dom().contains(id) implies exists|i: int|
        0 <= i < events@.len() && #[trigger] is_sent_bare(
            events@[i]@,
            old(workers).reports()[id]@,
        ) by {
        assert(ids.to_set().contains(id));
        let i = choose|i: int| 0 <= i < ids.len() && ids[i] == id;
        assert(crate::submission::is_fallback(events@[i]@, old(workers).reports()[ids[i]]@));
        lemma_sent_bare(events@[i]@, old(workers).reports()[id]@);
    }
    assert forall|i: int| 0 <= i < events@.len() implies is_sent_for(
        (#[trigger] events@[i])@,
        old(workers).reports(),
    ) by {
        assert(ids.to_set().contains(ids[i]));
        assert(old(workers).reports().dom().contains(ids[i]));
        assert(crate::submission::is_fallback(events@[i]@, old(workers).reports()[ids[i]]@));
        lemma_sent_bare(events@[i]@, old(workers).reports()[ids[i]]@);
    }
}

/// An event is about one of the given reports, and comes without evidence.
pub open spec fn is_sent_for<T>(event: Event<T>, reports: Map<u64, TaskFailureReport<T>>) -> bool {
    exists|id: u64| #[trigger] reports.dom().contains(id) && is_sent_bare(event, reports[id]@)
}

/// An event is about a report, comes without a file and without logs, and tells that the application
/// ended first.
pub open spec fn is_sent_bare<T>(event: Event<T>, report: Report<T>) -> bool {
    &&& event.task_name == crate::laws::event::reported_task(report)
    &&& event.failure_node == crate::laws::event::reported_node(report)
    &&& event.trace == report.trace_context
    &&& event.attachment is None
    &&& crate::laws::event::tells(
        event.extra,
        "attachment.status"@,
        crate::event::DatumView::Text("shutdown_fallback"@),
    )
    &&& crate::laws::event::tells(
        event.extra,
        "attachment.detail"@,
        crate::event::DatumView::Text("evidence worker did not finish before telemetry shutdown"@),
    )
    &&& crate::laws::event::tells(
        event.extra,
        "logs.status"@,
        crate::event::DatumView::Text("not_available"@),
    )
    &&& crate::laws::event::tells(
        event.extra,
        "run.id"@,
        crate::event::DatumView::Text(report.run_id),
    )
    &&& crate::laws::event::tells(
        event.extra,
        "task.id"@,
        crate::event::DatumView::Integer(report.maa_task_id),
    )
}

proof fn lemma_sent_bare<T>(event: Event<T>, report: Report<T>)
    requires
        crate::submission::is_fallback(event, report),
    ensures
        is_sent_bare(event, report),
{
    let outcome = choose|outcome: FailureAttachmentOutcome| #[trigger]
        crate::submission::is_shutdown_outcome(outcome) && event == crate::event::event_of(
            report,
            None,
            outcome,
        );
    crate::laws::event::lemma_event_says(report, None, outcome);
    crate::laws::event::lemma_event_attachment(report, None, outcome);
    crate::laws::event::lemma_event_data(report, None, outcome, "logs.status"@);
    crate::laws::event::lemma_event_data(report, None, outcome, "run.id"@);
    crate::laws::event::lemma_event_data(report, None, outcome, "task.id"@);
    crate::event::lemma_event_names_task(report, None, outcome);
    let facts = crate::event::event_facts(report);
    crate::laws::event::lemma_logs_told(facts, None, "logs.status"@);
    crate::laws::event::lemma_outcome_told(
        crate::event::with_logs(facts, None),
        outcome,
        "logs.status"@,
    );
    reveal_strlit("logs.status");
    reveal_strlit("attachment.");
    assert(!crate::text::starts_with("logs.status"@, "attachment."@)) by {
        if crate::text::starts_with("logs.status"@, "attachment."@) {
            assert("logs.status"@.subrange(0, 11)[0] == 'l');
        }
    }
}

/// When the application ends, every run that was going on ends as cancelled, where anything reports.
pub proof fn lemma_on_app_exit<S>(
    active: bool,
    runs: &mut StringMap<RunState<S>>,
    ends: Option<Vec<RunEnd<S>>>,
    instance: Seq<char>,
)
    requires
        call_ensures(on_app_exit::<S>, (active, runs), ends),
    ensures
        ends is Some <==> active,
        !active ==> final(runs)@ == old(runs)@,
        active ==> !final(runs)@.dom().contains(instance),
        active && old(runs)@.dom().contains(instance) ==> exists|i: int|
            0 <= i < ends->0@.len() && is_run_end(
                #[trigger] ends->0@[i],
                old(runs)@[instance],
                Some(SpanStatus::Cancelled),
            ) && ends->0@[i].transaction.status is Cancelled,
{
    if active && old(runs)@.dom().contains(instance) {
        let ids = choose|ids: Seq<Seq<char>>|
            {
                &&& ids.no_duplicates()
                &&& forall|id: Seq<char>| #[trigger]
                    ids.contains(id) == old(runs)@.dom().contains(id)
                &&& #[trigger] crate::submission::are_run_ends(ends->0@, old(runs)@, ids)
            };
        assert(ids.contains(instance));
        let i = choose|i: int| 0 <= i < ids.len() && ids[i] == instance;
        assert(crate::submission::is_cancelled_run(ends->0@[i], old(runs)@, ids[i]));
    }
}

/// Switching reporting off forgets every run and every report; the numbers of workers go on.
pub proof fn lemma_shut_down<S, R>(
    runs: &mut StringMap<RunState<S>>,
    workers: &mut PendingFailureWorkers<R>,
    instance: Seq<char>,
    worker_id: u64,
)
    requires
        call_ensures(shut_down::<S, R>, (runs, workers), ()),
    ensures
        !final(runs)@.dom().contains(instance),
        !final(workers).reports().dom().contains(worker_id),
        final(workers).next() == old(workers).next(),
{
}

/// A report is registered under a number of its own while reporting goes on, and not at all once it is
/// shutting down; the other reports stay.
pub proof fn lemma_register<R>(
    workers: &mut PendingFailureWorkers<R>,
    closing: bool,
    report: R,
    id: Option<u64>,
    other: u64,
)
    requires
        call_ensures(PendingFailureWorkers::<R>::register, (workers, closing, report), id),
        Some(other) != id,
    ensures
        id is Some <==> !closing,
        closing ==> final(workers).reports() == old(workers).reports(),
        id matches Some(id) ==> final(workers).reports().dom().contains(id)
            && final(workers).reports()[id] == report && id == old(workers).next()
            && final(workers).next() == old(workers).next().wrapping_add(1),
        final(workers).reports().dom().contains(other) == old(workers).reports().dom().contains(
            other,
        ),
        old(workers).reports().dom().contains(other) ==> final(workers).reports()[other]
            == old(workers).reports()[other],
{
}

/// A report that is taken out is the one under its number, and is not found again.
pub proof fn lemma_take<R>(workers: &mut PendingFailureWorkers<R>, id: u64, taken: Option<R>)
    requires
        call_ensures(PendingFailureWorkers::<R>::take, (workers, id), taken),
    ensures
        taken is Some <==> old(workers).reports().dom().contains(id),
        taken matches Some(report) ==> report == old(workers).reports()[id],
        !final(workers).reports().dom().contains(id),
{
}

/// All runs end as cancelled, each of them once, and none is left.
pub proof fn lemma_cancel_all_runs<S>(
    runs: &mut StringMap<RunState<S>>,
    ends: Vec<RunEnd<S>>,
    instance: Seq<char>,
)
    requires
        call_ensures(cancel_all_runs::<S>, (runs,), ends),
    ensures
        !final(runs)@.dom().contains(instance),
        old(runs)@.dom().contains(instance) ==> exists|i: int|
            0 <= i < ends@.len() && is_run_end(
                #[trigger] ends@[i],
                old(runs)@[instance],
                Some(SpanStatus::Cancelled),
            ) && ends@[i].transaction.status is Cancelled,
        forall|i: int|
            0 <= i < ends@.len() ==> (#[trigger] ends@[i]).transaction.status is Cancelled
                && ends@[i].transaction.result@ == "cancelled"@,
{
    let ids = choose|ids: Seq<Seq<char>>|
        {
            &&& ids.no_duplicates()
            &&& forall|id: Seq<char>| #[trigger] ids.contains(id) == old(runs)@.dom().contains(id)
            &&& #[trigger] crate::submission::are_run_ends(ends@, old(runs)@, ids)
        };
    assert forall|i: int| 0 <= i < ends@.len() implies (#[trigger] ends@[i]).transaction.status is Cancelled
        && ends@[i].transaction.result@ == "cancelled"@ by {
        assert(crate::submission::is_cancelled_run(ends@[i], old(runs)@, ids[i]));
    }
    if old(runs)@.dom().contains(instance) {
        assert(ids.contains(instance));
        let i = choose|i: int| 0 <= i < ids.len() && ids[i] == instance;
        assert(crate::submission::is_cancelled_run(ends@[i], old(runs)@, ids[i]));
    }
}

/// All reports are taken out, each of them once and those with lower numbers first, and none is left;
/// the numbers go on.
pub proof fn lemma_drain<R>(
    workers: &mut PendingFailureWorkers<R>,
    reports: Vec<R>,
    id: u64,
    other: u64,
)
    requires
        call_ensures(PendingFailureWorkers::<R>::drain, (workers,), reports),
        id < other,
    ensures
        !final(workers).reports().dom().contains(id),
        final(workers).next() == old(workers).next(),
        reports@.len() == old(workers).reports().dom().len(),
        old(workers).reports().dom().contains(id) && old(workers).reports().dom().contains(other)
            ==> exists|i: int, j: int|
            {
                &&& 0 <= i < j < reports@.len()
                &&& #[trigger] reports@[i] == old(workers).reports()[id]
                &&& #[trigger] reports@[j] == old(workers).reports()[other]
            },
{
    let all = old(workers).reports();
    let ids = choose|ids: Seq<u64>|
        {
            &&& #[trigger] crate::workers::are_keys(ids, all)
            &&& reports@ == ids.map_values(|id: u64| all[id])
        };
    assert(ids.no_duplicates()) by {
        assert forall|i: int, j: int| 0 <= i < ids.len() && 0 <= j < ids.len() && i != j implies ids[i]
            != ids[j] by {
            if i < j {
                assert(ids[i] < ids[j]);
            } else {
                assert(ids[j] < ids[i]);
            }
        }
    }
    ids.unique_seq_to_set();
    if all.dom().contains(id) && all.dom().contains(other) {
        assert(ids.to_set().contains(id) && ids.to_set().contains(other));
        let i = choose|i: int| 0 <= i < ids.len() && ids[i] == id;
        let j = choose|j: int| 0 <= j < ids.len() && ids[j] == other;
        if j < i {
            assert(ids[j] < ids[i]);
        }
        assert(reports@[i] == all[id] && reports@[j] == all[other]);
    }
}

/// Nobody gathers evidence at first, and after everything was given up.
pub proof fn lemma_idle<R>(
    workers: &mut PendingFailureWorkers<R>,
    fresh: PendingFailureWorkers<R>,
    some: &PendingFailureWorkers<R>,
    idle: bool,
    id: u64,
)
    requires
        call_ensures(PendingFailureWorkers::<R>::new, (), fresh),
        call_ensures(PendingFailureWorkers::<R>::cancel_all, (workers,), ()),
        call_ensures(PendingFailureWorkers::<R>::is_idle, (some,), idle),
    ensures
        !fresh.reports().dom().contains(id),
        fresh.next() == 1,
        !final(workers).reports().dom().contains(id),
        final(workers).next() == old(workers).next(),
        idle ==> !some.reports().dom().contains(id),
        some.reports().dom().contains(id) ==> !idle,
        !idle ==> exists|id: u64| #[trigger] some.reports().dom().contains(id),
{
    if !idle && forall|id: u64| !#[trigger] some.reports().dom().contains(id) {
        assert(some.reports() =~= Map::<u64, R>::empty());
    }
}

} // verus!
