use mxu_telemetry::discovery::Listed;
use mxu_telemetry::endings::{
    on_run_cancelled, on_run_finished, on_task_finished, result_label, SpanStatus, TaskEnd,
};
use mxu_telemetry::event::{capture_failure_event, Datum};
use mxu_telemetry::evidence::{Opened, PathMap, TaskEvidenceStart};
use mxu_telemetry::map::StringMap;
use mxu_telemetry::nodes::{needs_parse, on_node_event, NodeSpan, MAX_TRACED_NODES_PER_TASK};
use mxu_telemetry::path::{OsName, PathComponent};
use mxu_telemetry::report::{
    FailureAttachmentOutcome, FailureEventConfig, TaskFailureReport, TaskMeta, TraceContext,
};
use mxu_telemetry::runs::{
    begin_posting, evidence_isolated_for_ids, on_run_start, on_task_start, record_evidence_start,
    ControllerInfo, RunState, SpanPlan,
};
use mxu_telemetry::sampling::SampleRate;
use mxu_telemetry::submission::{
    cancel_all_runs, complete_failure_worker, fallback_events, gather_evidence, may_refresh,
    on_app_exit, settle_deadline, settle_pause, shut_down, submit_failure_report, worker_unavailable,
    Submission, IMAGE_SETTLE_INTERVAL, IMAGE_SETTLE_TIMEOUT,
};
use mxu_telemetry::time::{FileStamp, Timestamp};
use mxu_telemetry::workers::PendingFailureWorkers;

type Runs = StringMap<RunState<String>>;

fn wall() -> Timestamp {
    Timestamp { secs: 100, nanos: 0 }
}

fn child(_: &String, plan: &SpanPlan) -> String {
    format!("{}:{}", plan.operation, plan.description)
}

fn trace(_: &String) -> TraceContext<()> {
    TraceContext { trace_id: [3; 16], span_id: [4; 8], detail: () }
}

fn begin_at(active: bool, runs: &mut Runs, epoch: u64, instance: &str) -> Option<(StringMap<Datum>, u64)> {
    on_run_start(
        active,
        runs,
        epoch,
        instance,
        "run-1",
        &vec!["A".to_string(), "B".to_string()],
        Some(&ControllerInfo { name: Some("ADB".to_string()), kind: Some(String::new()) }),
        FailureEventConfig {
            app_name: "App".to_string(),
            app_version: "1.0.0".to_string(),
            mxu_version: "2.0.0".to_string(),
            failure_attachments_sample_rate: SampleRate { bits: 1.0f32.to_bits() },
        },
        "transaction".to_string(),
    )
}

fn begin(runs: &mut Runs, instance: &str) -> StringMap<Datum> {
    begin_at(true, runs, 0, instance).expect("the run starts").0
}

fn start_task(runs: &mut Runs, instance: &str, id: i64) -> bool {
    let started = on_task_start(true, runs, 6, instance, id, 1_000_000, wall(), child);
    let (capture_evidence, next) = started.expect("the task starts");
    assert_eq!(next, 7);
    capture_evidence
}

fn post(runs: &mut Runs, instance: &str, id: i64, name: &str) {
    let guard = begin_posting(true, runs, instance).expect("a run exists");
    let mut options = StringMap::new();
    options.insert("mode".to_string(), "fast".to_string());
    guard.register(runs, id, TaskMeta { name: name.to_string(), options });
}

fn event(runs: &mut Runs, message: &str, details: &str, now: u128) -> Option<NodeSpan> {
    on_node_event(true, runs, "i", message, details, now)
}

fn finish(runs: &mut Runs, id: i64, success: bool) -> TaskEnd<String, ()> {
    on_task_finished(true, runs, "i", id, success, 2_501_000_000, 9, trace)
}

fn text<'a>(data: &'a StringMap<Datum>, key: &str) -> Option<&'a str> {
    match data.get(key) {
        Some(Datum::Text(text)) => Some(text.as_str()),
        _ => None,
    }
}

fn running() -> Runs {
    let mut runs = Runs::new();
    begin(&mut runs, "i");
    post(&mut runs, "i", 42, "Daily");
    assert!(start_task(&mut runs, "i", 42));
    runs
}

#[test]
fn evidence_is_omitted_when_another_instance_run_exists() {
    assert!(evidence_isolated_for_ids("a", &vec!["a".to_string()]));
    assert!(!evidence_isolated_for_ids("a", &vec!["a".to_string(), "b".to_string()]));
}

#[test]
fn pending_failure_reports_can_be_drained_for_shutdown_fallback() {
    let mut workers: PendingFailureWorkers<TaskFailureReport<()>> = PendingFailureWorkers::new();
    let mut runs = running();
    let report = finish(&mut runs, 42, false).report.expect("a report");
    let worker_id = workers.register(false, report).expect("register pending failure");
    assert!(!workers.is_idle());

    let fallback = workers.drain();
    assert_eq!(fallback.len(), 1);
    assert_eq!(fallback[0].maa_task_id, 42);
    assert!(workers.take(worker_id).is_none());
    assert!(workers.is_idle());
}

#[test]
fn workers_take_no_report_while_closing() {
    let mut workers: PendingFailureWorkers<u8> = PendingFailureWorkers::new();
    assert_eq!(workers.register(true, 1), None);
    assert_eq!(workers.register(false, 1), Some(1));
    assert_eq!(workers.register(false, 2), Some(2));
    assert_eq!(workers.take(1), Some(1));
    assert_eq!(workers.take(1), None);
    workers.cancel_all();
    assert!(workers.is_idle());
    assert_eq!(workers.register(false, 3), Some(3));
    assert_eq!(workers.register(false, 4), Some(4));
    assert_eq!(workers.drain(), vec![3, 4]);
}

#[test]
fn run_is_described_by_its_tasks_and_controller() {
    let mut runs = Runs::new();
    let data = begin(&mut runs, "i");
    assert_eq!(text(&data, "run_id"), Some("run-1"));
    assert!(matches!(data.get("task_count"), Some(Datum::Natural(2))));
    assert_eq!(text(&data, "tasks"), Some("A,B"));
    assert_eq!(text(&data, "controller.name"), Some("ADB"));
    assert!(!data.contains_key("controller.type"));
    let end = on_run_finished(&mut runs, "i").expect("the run existed");
    assert_eq!(end.tags.get("run.id").map(String::as_str), Some("run-1"));
    assert_eq!(end.tags.get("controller.name").map(String::as_str), Some("ADB"));
    assert!(!end.tags.contains_key("controller.type"));
    assert_eq!(end.transaction.status, SpanStatus::Success);
    assert_eq!(end.transaction.result, "success");
    assert!(on_run_finished(&mut runs, "i").is_none());
}

#[test]
fn posting_needs_an_active_client_and_a_run() {
    let mut runs = Runs::new();
    assert!(begin_posting(true, &runs, "i").is_none());
    begin(&mut runs, "i");
    assert!(begin_posting(false, &runs, "i").is_none());
    assert!(begin_posting(true, &runs, "i").is_some());
}

#[test]
fn task_span_carries_name_and_options() {
    let mut runs = Runs::new();
    begin(&mut runs, "i");
    post(&mut runs, "i", 42, "Daily");
    let plan_child = |_: &String, plan: &SpanPlan| {
        assert_eq!(plan.operation, "mxu.task");
        assert_eq!(plan.description, "Daily");
        assert_eq!(text(&plan.data, "run_id"), Some("run-1"));
        assert_eq!(text(&plan.data, "task"), Some("Daily"));
        assert_eq!(text(&plan.data, "option.mode"), Some("fast"));
        assert!(matches!(plan.data.get("task_id"), Some(Datum::Integer(42))));
        "span".to_string()
    };
    let started = on_task_start(true, &mut runs, u64::MAX, "i", 42, 5, wall(), plan_child);
    assert_eq!(started, Some((true, 0)));
    let run = runs.get("i").expect("the run");
    assert_eq!(run.active_task, Some(42));
    assert_eq!(run.task_runtime[&42].evidence_epoch, 0);
}

#[test]
fn task_beside_another_instance_captures_no_evidence() {
    let mut runs = Runs::new();
    begin(&mut runs, "i");
    begin(&mut runs, "j");
    assert!(!start_task(&mut runs, "i", 1));
    assert!(!start_task(&mut runs, "none", 1));
}

#[test]
fn only_some_messages_are_parsed() {
    assert!(needs_parse("Node.PipelineNode.Starting", "{}"));
    assert!(needs_parse("Node.PipelineNode.Failed", "{}"));
    assert!(!needs_parse("Node.Action.Failed", "{}"));
    assert!(needs_parse("Node.Action.Failed", "{\"trace\":true}"));
    assert!(!needs_parse("Tasker.Task.Failed", "{\"trace\":true}"));
}

#[test]
fn failed_node_is_reported_and_remembered() {
    let mut runs = running();
    let details = r#"{"task_id":42,"node_id":7,"name":"Search"}"#;
    assert!(event(&mut runs, "Node.PipelineNode.Starting", details, 5_000_000).is_none());
    let span = event(&mut runs, "Node.PipelineNode.Failed", details, 805_999_999).expect("a span");
    assert_eq!(span.owner_id, 42);
    assert_eq!(span.operation, "mxu.node");
    assert_eq!(span.description, "Search");
    assert!(span.failed);
    assert_eq!(text(&span.data, "message"), Some("Node.PipelineNode.Failed"));
    assert_eq!(text(&span.data, "stage"), Some("recognition"));
    assert_eq!(text(&span.data, "task"), Some("Daily"));
    assert!(!span.data.contains_key("search_node"));
    assert!(matches!(span.data.get("duration_ms"), Some(Datum::Natural(800))));

    let details = r#"{"task_id":99,"name":"Search","node_details":{"name":"Hit"}}"#;
    let span = event(&mut runs, "Node.PipelineNode.Failed", details, 6).expect("a span");
    assert_eq!(span.owner_id, 42);
    assert_eq!(span.description, "Hit");
    assert_eq!(text(&span.data, "stage"), Some("action"));
    assert_eq!(text(&span.data, "search_node"), Some("Search"));

    let end = finish(&mut runs, 42, false);
    let span = end.span.expect("the span of the task");
    assert_eq!(span.span, "mxu.task:Daily");
    assert_eq!(span.status, SpanStatus::InternalError);
    assert_eq!(span.result, "failure");
    let report = end.report.expect("a report");
    assert_eq!(report.failed_node_count, 2);
    assert_eq!(report.duration_ms, Some(2_500));
    assert_eq!(report.started_wall_time, Some(wall()));
    assert_eq!(report.evidence_epoch, 7);
    assert!(report.evidence_isolated);
    let first = report.failure.expect("the first failure");
    assert_eq!(first.node, "Search");
    assert_eq!(first.node_id, Some(7));
    assert_eq!(first.duration_ms, Some(800));
    let last = report.terminal_failure.expect("the last failure");
    assert_eq!(last.node, "Hit");
    assert_eq!(last.source_task_id, 99);
    assert_eq!(report.trace_context.expect("a trace").trace_id, [3; 16]);
}

#[test]
fn traced_messages_need_their_mark() {
    let mut runs = running();
    let on = r#"{"task_id":42,"name":"N","focus":{"Node.Action.Succeeded":{"trace":true}}}"#;
    let span = event(&mut runs, "Node.Action.Succeeded", on, 1).expect("a span");
    assert!(!span.failed);
    assert!(!span.data.contains_key("stage"));
    let off = r#"{"task_id":42,"name":"N","focus":{"Node.PipelineNode.Failed":{"trace":false}}}"#;
    assert!(event(&mut runs, "Node.PipelineNode.Failed", off, 1).is_none());
    let other = r#"{"task_id":42,"name":"N","focus":{"Node.Action.Starting":{"trace":true}}}"#;
    assert!(event(&mut runs, "Node.Action.Succeeded", other, 1).is_none());
    assert!(event(&mut runs, "Node.PipelineNode.Failed", "not json", 1).is_none());
    assert!(event(&mut runs, "Node.PipelineNode.Failed", r#"{"name":"N"}"#, 1).is_none());
    assert!(event(&mut runs, "Node.PipelineNode.Failed", r#"{"task_id":42}"#, 1).is_none());
    let report = finish(&mut runs, 42, false).report.expect("a report");
    assert_eq!(report.failed_node_count, 0);
    assert!(report.failure.is_none());
}

#[test]
fn inactive_client_notes_nothing() {
    let mut runs = running();
    let details = r#"{"task_id":42,"name":"N"}"#;
    let span = on_node_event(false, &mut runs, "i", "Node.PipelineNode.Failed", details, 1);
    assert!(span.is_none());
    assert!(runs.get("i").expect("the run").failed_nodes.is_empty());
    let end: TaskEnd<String, ()> =
        on_task_finished(false, &mut runs, "i", 42, false, 1, 1, trace);
    assert!(end.span.is_none());
    assert!(end.report.is_none());
}

#[test]
fn spans_stop_at_the_budget_but_failures_count_on() {
    let mut runs = running();
    let details = r#"{"task_id":42,"name":"N"}"#;
    for _ in 0..MAX_TRACED_NODES_PER_TASK {
        assert!(event(&mut runs, "Node.PipelineNode.Failed", details, 1).is_some());
    }
    assert!(event(&mut runs, "Node.PipelineNode.Failed", details, 1).is_none());
    let report = finish(&mut runs, 42, false).report.expect("a report");
    assert_eq!(report.failed_node_count, MAX_TRACED_NODES_PER_TASK + 1);
}

#[test]
fn finished_task_is_forgotten() {
    let mut runs = running();
    let end = finish(&mut runs, 42, true);
    assert_eq!(end.span.expect("the span").result, "success");
    assert!(end.report.is_none());
    let run = runs.get("i").expect("the run");
    assert_eq!(run.active_task, None);
    assert!(run.children.is_empty());
    assert!(run.metas.is_empty());
    assert!(run.task_runtime.is_empty());
    assert!(!run.has_failed);
}

#[test]
fn unknown_failed_task_is_reported_without_times() {
    let mut runs = running();
    let report = finish(&mut runs, 5, false).report.expect("a report");
    assert_eq!(report.duration_ms, None);
    assert_eq!(report.started_wall_time, None);
    assert!(report.evidence_isolated);
    assert_eq!(report.evidence_epoch, 9);
    assert_eq!(report.task.name, "");
    assert!(runs.get("i").expect("the run").has_failed);
}

#[test]
fn run_ends_with_its_failures_or_cancelled() {
    let mut runs = running();
    finish(&mut runs, 42, false);
    start_task(&mut runs, "i", 43);
    let end = on_run_finished(&mut runs, "i").expect("the run");
    assert_eq!(end.transaction.status, SpanStatus::InternalError);
    assert_eq!(end.children.len(), 1);
    assert_eq!(end.children[0].status, SpanStatus::Cancelled);

    let mut runs = running();
    let end = on_run_cancelled(&mut runs, "i").expect("the run");
    assert_eq!(end.transaction.status, SpanStatus::Cancelled);
    assert_eq!(end.transaction.result, "cancelled");

    let mut runs = running();
    begin(&mut runs, "j");
    assert!(on_app_exit(false, &mut runs).is_none());
    assert!(runs.contains_key("i"));
    let ends = on_app_exit(true, &mut runs).expect("the ends of the runs");
    assert_eq!(ends.len(), 2);
    assert_eq!(ends[0].children.len(), 1);
    assert!(ends.iter().all(|end| end.transaction.status == SpanStatus::Cancelled));
    assert!(!runs.contains_key("i"));

    let mut runs = running();
    assert_eq!(cancel_all_runs(&mut runs).len(), 1);
}

#[test]
fn results_are_labelled() {
    assert_eq!(result_label(SpanStatus::Success), "success");
    assert_eq!(result_label(SpanStatus::Cancelled), "cancelled");
    assert_eq!(result_label(SpanStatus::InternalError), "failure");
}

fn root() -> Vec<PathComponent> {
    vec![PathComponent::RootDir, PathComponent::Normal(OsName::Text("debug".to_string()))]
}

fn baseline() -> TaskEvidenceStart {
    TaskEvidenceStart {
        root: root(),
        started_at: wall(),
        log_lengths: PathMap::new(),
        existing_images: PathMap::new(),
        warnings: Vec::new(),
    }
}

fn list(_: &Vec<PathComponent>, _: usize) -> Option<Vec<Listed>> {
    Some(vec![Listed::File(OsName::Text("maafw.log".to_string()))])
}

fn open(_: &Vec<PathComponent>) -> Opened<Vec<u8>> {
    Opened::File {
        source: b"text".to_vec(),
        display: "/debug/maafw.log".to_string(),
        stamp: FileStamp { len: 4, modified: Some(wall()) },
    }
}

fn failed_report() -> TaskFailureReport<()> {
    let mut runs = running();
    record_evidence_start(&mut runs, "i", 42, baseline());
    finish(&mut runs, 42, false).report.expect("a report")
}

fn submit(
    report: TaskFailureReport<()>,
    epoch: u64,
    worker: Option<u64>,
) -> Submission<Vec<u8>, ()> {
    submit_failure_report(
        report,
        true,
        list,
        open,
        || epoch,
        |_: &TaskFailureReport<()>| worker,
    )
}

fn status_of(submission: &Submission<Vec<u8>, ()>) -> Option<&'static str> {
    match submission {
        Submission::Send { outcome: FailureAttachmentOutcome::Omitted { status, .. }, .. } => {
            Some(*status)
        }
        _ => None,
    }
}

#[test]
fn isolated_failure_is_gathered() {
    let submission = submit(failed_report(), 7, Some(3));
    let Submission::Gather { worker_id, report, selection, include_images } = submission else {
        panic!("evidence should be gathered");
    };
    assert_eq!(worker_id, 3);
    assert!(report.evidence_start.is_none());
    assert!(include_images);
    assert_eq!(selection.logs.len(), 1);
    let (logs, outcome) = gather_evidence(
        selection,
        include_images,
        "run-1",
        42,
        |bytes: &Vec<u8>, _: u64, _: u64| Ok(bytes.clone()),
        |bytes: &Vec<u8>, _: u64| Ok(bytes.clone()),
    );
    assert_eq!(logs.entries[0].content, "text");
    assert!(matches!(
        outcome,
        FailureAttachmentOutcome::Omitted { status: "no_evidence", .. }
    ));
}

#[test]
fn ambiguous_or_late_evidence_is_not_gathered() {
    let mut report = failed_report();
    report.evidence_isolated = false;
    let submission = submit(report, 7, Some(3));
    assert_eq!(status_of(&submission), Some("concurrent_instance"));
    let Submission::Send { outcome: FailureAttachmentOutcome::Omitted { detail, .. }, .. } =
        submission
    else {
        panic!("the event should be sent at once");
    };
    let words = ["another", "instance", "run", "overlapped", "this", "task", "evidence", "window"];
    assert_eq!(detail, words.join(" "));
    assert_eq!(status_of(&submit(failed_report(), 8, Some(3))), Some("concurrent_instance"));
    assert_eq!(status_of(&submit(failed_report(), 7, None)), Some("shutdown_in_progress"));
    let mut report = failed_report();
    report.evidence_start = None;
    assert!(matches!(
        submit(report, 7, Some(3)),
        Submission::Send { outcome: FailureAttachmentOutcome::NotSelected, .. }
    ));
}

#[test]
fn late_screenshots_are_waited_for_in_steps() {
    let deadline = settle_deadline(5);
    assert_eq!(deadline, 5 + IMAGE_SETTLE_TIMEOUT);
    assert_eq!(settle_pause(false, 1, 1, 5, deadline), Some(IMAGE_SETTLE_INTERVAL));
    assert_eq!(settle_pause(false, 1, 1, deadline - 7, deadline), Some(7));
    assert_eq!(settle_pause(false, 1, 1, deadline, deadline), None);
    assert_eq!(settle_pause(true, 1, 1, 5, deadline), None);
    assert_eq!(settle_pause(false, 2, 1, 5, deadline), None);
    assert!(may_refresh(false, 1, 1));
    assert!(!may_refresh(true, 1, 1));
    assert!(!may_refresh(false, 2, 1));
}

#[test]
fn worker_sends_once_and_only_while_active() {
    let mut workers = PendingFailureWorkers::new();
    let id = workers.register(false, failed_report()).expect("a worker");
    assert!(complete_failure_worker(&mut workers, id, true));
    assert!(!complete_failure_worker(&mut workers, id, true));
    let id = workers.register(false, failed_report()).expect("a worker");
    assert!(!complete_failure_worker(&mut workers, id, false));
    let id = workers.register(false, failed_report()).expect("a worker");
    let (_, outcome) = worker_unavailable(&mut workers, id, "no thread").expect("the report");
    assert!(matches!(
        outcome,
        FailureAttachmentOutcome::Omitted { status: "worker_unavailable", detail, .. }
            if detail == "no thread"
    ));
    assert!(worker_unavailable(&mut workers, id, "no thread").is_none());
}

#[test]
fn unfinished_workers_leave_bare_events() {
    let mut workers = PendingFailureWorkers::new();
    workers.register(false, failed_report());
    let events = fallback_events(&mut workers);
    assert_eq!(events.len(), 1);
    assert_eq!(text(&events[0].extra, "attachment.status"), Some("shutdown_fallback"));
    assert_eq!(text(&events[0].extra, "logs.status"), Some("not_available"));
    assert!(workers.is_idle());
}

#[test]
fn starts_advance_the_epoch_while_active() {
    let mut runs = Runs::new();
    assert!(begin_at(false, &mut runs, 4, "i").is_none());
    assert!(!runs.contains_key("i"));
    let (_, next) = begin_at(true, &mut runs, 4, "i").expect("the run starts");
    assert_eq!(next, 5);
    let (_, next) = begin_at(true, &mut runs, u64::MAX, "i").expect("the run starts");
    assert_eq!(next, 0);
    assert_eq!(on_task_start(false, &mut runs, 5, "i", 1, 0, wall(), child), None);
    assert!(runs.get("i").expect("the run").children.is_empty());
    let started = on_task_start(true, &mut runs, 5, "none", 1, 0, wall(), child);
    assert_eq!(started, Some((false, 6)));
    let started = on_task_start(true, &mut runs, 6, "i", 1, 0, wall(), child);
    assert_eq!(started, Some((true, 7)));
}

#[test]
fn new_run_replaces_the_one_of_its_instance() {
    let mut runs = running();
    begin(&mut runs, "j");
    finish(&mut runs, 42, false);
    start_task(&mut runs, "i", 43);
    begin(&mut runs, "i");
    let run = runs.get("i").expect("the run");
    assert!(run.children.is_empty() && run.metas.is_empty() && run.task_runtime.is_empty());
    assert_eq!(run.active_task, None);
    assert!(!run.has_failed);
    assert!(runs.contains_key("j"));
}

#[test]
fn numbers_of_workers_go_on_after_a_fallback() {
    let mut workers = PendingFailureWorkers::new();
    let id = workers.register(false, failed_report()).expect("a worker");
    worker_unavailable(&mut workers, id, "no thread");
    workers.register(false, failed_report());
    fallback_events(&mut workers);
    assert_eq!(workers.register(false, failed_report()), Some(id + 2));
}

#[test]
fn rate_of_screenshots_leaves_the_logs_alone() {
    let gathered = |rate: f32| {
        let mut report = failed_report();
        report.event_config.failure_attachments_sample_rate = SampleRate { bits: rate.to_bits() };
        let Submission::Gather { report, selection, include_images, .. } =
            submit(report, 7, Some(3))
        else {
            panic!("evidence should be gathered");
        };
        let (logs, outcome) = gather_evidence(
            selection,
            include_images,
            "run-1",
            42,
            |bytes: &Vec<u8>, _: u64, _: u64| Ok(bytes.clone()),
            |bytes: &Vec<u8>, _: u64| Ok(bytes.clone()),
        );
        let event = capture_failure_event(report, Some(&logs), outcome);
        let told: Vec<String> = event
            .extra
            .entries()
            .iter()
            .filter(|(key, _)| !key.starts_with("attachment."))
            .map(|(key, value)| format!("{key}={value:?}"))
            .collect();
        let status = text(&event.extra, "attachment.status").map(str::to_string);
        assert!(event.attachment.is_none());
        (format!("{:?}", logs.entries), told, status)
    };
    let (all_logs, all_told, all_status) = gathered(1.0);
    let (no_logs, no_told, no_status) = gathered(0.0);
    assert_eq!(all_logs, no_logs);
    assert_eq!(all_told, no_told);
    assert!(all_told.iter().any(|told| told.starts_with("logs.count=")));
    assert_eq!(all_status, Some("no_evidence".to_string()));
    assert_eq!(no_status, Some("not_selected".to_string()));
}

#[test]
fn nothing_is_sent_after_reporting_was_switched_off() {
    let mut runs = running();
    begin(&mut runs, "j");
    let mut workers = PendingFailureWorkers::new();
    let id = workers.register(false, failed_report()).expect("a worker");
    workers.register(false, failed_report());
    shut_down(&mut runs, &mut workers);
    assert!(runs.entries().is_empty());
    assert!(workers.is_idle());
    assert!(!complete_failure_worker(&mut workers, id, true));
    assert!(worker_unavailable(&mut workers, id, "no thread").is_none());
    assert!(fallback_events(&mut workers).is_empty());
    assert!(on_run_finished(&mut runs, "i").is_none());
    shut_down(&mut runs, &mut workers);
    assert!(runs.entries().is_empty());
    assert!(workers.is_idle());
    assert_eq!(workers.register(true, failed_report()), None);
    assert_eq!(workers.register(false, failed_report()), Some(3));
}
