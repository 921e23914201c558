//! The event that reports a failed task.

use vstd::prelude::*;
use crate::logs::{DiagnosticLogs, LogTexts};
use crate::map::{listed, StringMap};
use crate::report::{
    FailureAttachmentOutcome, FailureSignal, Report, Signal, TaskFailureReport, TraceContext,
};
use crate::text::{concat, from_chars, join, joined, starts_with, to_chars, views};
use crate::time::{unix_time_ms, Timestamp};

verus! {

/// No tag has more characters than this.
pub const MAX_TAG_CHARACTERS: usize = 200;

/// A value of the additional data of an event.
#[derive(Debug)]
pub enum Datum {
    Text(String),
    Integer(i64),
    Natural(u64),
    Flag(bool),
}

/// The content of a value of the additional data of an event.
pub enum DatumView {
    Text(Seq<char>),
    Integer(i64),
    Natural(u64),
    Flag(bool),
}

impl View for Datum {
    type V = DatumView;

    open spec fn view(&self) -> DatumView {
        match self {
            Datum::Text(text) => DatumView::Text(text@),
            Datum::Integer(value) => DatumView::Integer(*value),
            Datum::Natural(value) => DatumView::Natural(*value),
            Datum::Flag(value) => DatumView::Flag(*value),
        }
    }
}

/// A file that goes with an event.
#[derive(Debug)]
pub struct EventAttachment {
    pub buffer: Vec<u8>,
    pub filename: String,
    pub content_type: String,
}

/// The content of a file that goes with an event.
#[verifier::ext_equal]
pub struct AttachmentView {
    pub buffer: Seq<u8>,
    pub filename: Seq<char>,
    pub content_type: Seq<char>,
}

impl View for EventAttachment {
    type V = AttachmentView;

    open spec fn view(&self) -> AttachmentView {
        AttachmentView {
            buffer: self.buffer@,
            filename: self.filename@,
            content_type: self.content_type@,
        }
    }
}

/// The event that reports a failed task.
#[derive(Debug)]
pub struct FailureEvent<T> {
    pub message: String,
    pub logger: String,
    pub transaction: String,
    pub fingerprint: Vec<String>,
    pub tags: StringMap<String>,
    pub extra: StringMap<Datum>,
    pub trace: Option<TraceContext<T>>,
    pub attachment: Option<EventAttachment>,
    /// The name of the task, the node and the stage that the event is about.
    pub task_name: String,
    pub failure_node: String,
    pub failure_stage: String,
}

/// The content of an event.
#[verifier::ext_equal]
pub struct Event<T> {
    pub message: Seq<char>,
    pub logger: Seq<char>,
    pub transaction: Seq<char>,
    pub fingerprint: Seq<Seq<char>>,
    pub tags: Map<Seq<char>, Seq<char>>,
    pub extra: Map<Seq<char>, DatumView>,
    pub trace: Option<TraceContext<T>>,
    pub attachment: Option<AttachmentView>,
    pub task_name: Seq<char>,
    pub failure_node: Seq<char>,
    pub failure_stage: Seq<char>,
}

/// The content of a file that goes with an event, where there is one.
pub open spec fn attachment_view(attachment: Option<EventAttachment>) -> Option<AttachmentView> {
    match attachment {
        Some(attachment) => Some(attachment@),
        None => None,
    }
}

impl<T> View for FailureEvent<T> {
    type V = Event<T>;

    open spec fn view(&self) -> Event<T> {
        Event {
            message: self.message@,
            logger: self.logger@,
            transaction: self.transaction@,
            fingerprint: views(self.fingerprint@),
            tags: self.tags@,
            extra: self.extra@,
            trace: self.trace,
            attachment: attachment_view(self.attachment),
            task_name: self.task_name@,
            failure_node: self.failure_node@,
            failure_stage: self.failure_stage@,
        }
    }
}

/// The first characters of a text.
pub open spec fn shortened(text: Seq<char>, limit: nat) -> Seq<char> {
    if text.len() <= limit {
        text
    } else {
        text.take(limit as int)
    }
}

/// The value as a tag, which is bounded.
pub fn tag_value(value: &str) -> (text: String)
    ensures
        text@ == shortened(value@, MAX_TAG_CHARACTERS as nat),
{
    let chars = to_chars(value);
    let end: usize = if chars.len() <= MAX_TAG_CHARACTERS {
        chars.len()
    } else {
        MAX_TAG_CHARACTERS
    };
    let text = from_chars(&chars, 0, end);
    assert(text@ =~= shortened(value@, MAX_TAG_CHARACTERS as nat));
    text
}

/// The tags with one more, unless its value is empty.
pub open spec fn with_tag(
    tags: Map<Seq<char>, Seq<char>>,
    key: Seq<char>,
    value: Seq<char>,
) -> Map<Seq<char>, Seq<char>> {
    if value.len() == 0 {
        tags
    } else {
        tags.insert(key, shortened(value, MAX_TAG_CHARACTERS as nat))
    }
}

/// Whether a text is empty.
pub(crate) fn is_empty(text: &str) -> (empty: bool)
    ensures
        empty == (text@.len() == 0),
{
    to_chars(text).len() == 0
}

fn set_tag(tags: &mut StringMap<String>, key: &str, value: &str)
    ensures
        final(tags)@ == with_tag(old(tags)@, key@, value@),
{
    if !is_empty(value) {
        tags.insert(key.to_owned(), tag_value(value));
    }
}

/// The additional data with what is told of a failed node.
pub open spec fn with_signal(
    extra: Map<Seq<char>, DatumView>,
    prefix: Seq<char>,
    signal: Signal,
) -> Map<Seq<char>, DatumView> {
    let extra = extra.insert(prefix + ".node"@, DatumView::Text(signal.node)).insert(
        prefix + ".stage"@,
        DatumView::Text(signal.stage),
    ).insert(prefix + ".source_task_id"@, DatumView::Integer(signal.source_task_id));
    let extra = match signal.node_id {
        Some(node_id) => extra.insert(prefix + ".node_id"@, DatumView::Integer(node_id)),
        None => extra,
    };
    match signal.duration_ms {
        Some(millis) => extra.insert(prefix + ".duration_ms"@, DatumView::Natural(millis)),
        None => extra,
    }
}

fn set_text(extra: &mut StringMap<Datum>, key: &str, value: &str)
    ensures
        final(extra)@ == old(extra)@.insert(key@, DatumView::Text(value@)),
{
    extra.insert(key.to_owned(), Datum::Text(value.to_owned()));
}

fn set_natural(extra: &mut StringMap<Datum>, key: &str, value: u64)
    ensures
        final(extra)@ == old(extra)@.insert(key@, DatumView::Natural(value)),
{
    extra.insert(key.to_owned(), Datum::Natural(value));
}

/// Adds what is told of a failed node.
pub fn set_failure_extra(extra: &mut StringMap<Datum>, prefix: &str, failure: &FailureSignal)
    ensures
        final(extra)@ == with_signal(old(extra)@, prefix@, failure@),
{
    extra.insert(concat(prefix, ".node"), Datum::Text(failure.node.clone()));
    extra.insert(concat(prefix, ".stage"), Datum::Text(failure.stage.clone()));
    extra.insert(concat(prefix, ".source_task_id"), Datum::Integer(failure.source_task_id));
    if let Some(node_id) = failure.node_id {
        extra.insert(concat(prefix, ".node_id"), Datum::Integer(node_id));
    }
    if let Some(duration_ms) = failure.duration_ms {
        extra.insert(concat(prefix, ".duration_ms"), Datum::Natural(duration_ms));
    }
}

/// The additional data with what is told of the logs.
pub open spec fn with_logs(extra: Map<Seq<char>, DatumView>, logs: Option<LogTexts>) -> Map<
    Seq<char>,
    DatumView,
> {
    match logs {
        None => extra.insert("logs.status"@, DatumView::Text("not_available"@)),
        Some(logs) => {
            let extra = extra.insert(
                "logs.status"@,
                DatumView::Text(
                    if logs.entries.len() == 0 {
                        "no_evidence"@
                    } else {
                        "captured"@
                    },
                ),
            ).insert("logs.count"@, DatumView::Natural(logs.entries.len() as u64)).insert(
                "logs.selected_raw_bytes"@,
                DatumView::Natural(logs.selected_raw_bytes),
            ).insert("logs.truncated"@, DatumView::Flag(logs.truncated));
            if logs.warnings.len() == 0 {
                extra
            } else {
                extra.insert("logs.warnings"@, DatumView::Text(joined(logs.warnings, ","@)))
            }
        },
    }
}

/// The content of logs, where there are any.
pub open spec fn logs_view(logs: Option<&DiagnosticLogs>) -> Option<LogTexts> {
    match logs {
        Some(logs) => Some(logs@),
        None => None,
    }
}

/// Adds what is told of the logs.
pub fn set_log_evidence_data(extra: &mut StringMap<Datum>, logs: Option<&DiagnosticLogs>)
    ensures
        final(extra)@ == with_logs(old(extra)@, logs_view(logs)),
{
    let logs = match logs {
        Some(logs) => logs,
        None => {
            set_text(extra, "logs.status", "not_available");
            return;
        },
    };
    set_text(
        extra,
        "logs.status",
        if logs.entries.len() == 0 {
            "no_evidence"
        } else {
            "captured"
        },
    );
    set_natural(extra, "logs.count", logs.entries.len() as u64);
    set_natural(extra, "logs.selected_raw_bytes", logs.selected_raw_bytes);
    extra.insert("logs.truncated".to_owned(), Datum::Flag(logs.truncated));
    if logs.warnings.len() > 0 {
        extra.insert("logs.warnings".to_owned(), Datum::Text(join(&logs.warnings, ",")));
    }
}

/// The additional data with what became of the screenshots.
pub open spec fn with_outcome(
    extra: Map<Seq<char>, DatumView>,
    outcome: FailureAttachmentOutcome,
) -> Map<Seq<char>, DatumView> {
    match outcome {
        FailureAttachmentOutcome::NotSelected => extra.insert(
            "attachment.status"@,
            DatumView::Text("not_selected"@),
        ),
        FailureAttachmentOutcome::Attached(bundle) => {
            let extra = extra.insert("attachment.status"@, DatumView::Text("attached"@)).insert(
                "attachment.image_count"@,
                DatumView::Natural(bundle.image_count as u64),
            ).insert(
                "attachment.selected_raw_bytes"@,
                DatumView::Natural(bundle.selected_raw_bytes),
            ).insert(
                "attachment.bundle_bytes"@,
                DatumView::Natural(bundle.buffer@.len() as u64),
            ).insert("attachment.selection"@, DatumView::Text("new_on_error_screenshots"@));
            if bundle.warnings@.len() == 0 {
                extra
            } else {
                extra.insert(
                    "attachment.warnings"@,
                    DatumView::Text(joined(views(bundle.warnings@), ","@)),
                )
            }
        },
        FailureAttachmentOutcome::Omitted { status, detail, selected_raw_bytes, bundle_bytes } => {
            let extra = extra.insert("attachment.status"@, DatumView::Text(status@)).insert(
                "attachment.detail"@,
                DatumView::Text(detail@),
            );
            let extra = match selected_raw_bytes {
                Some(size) => extra.insert(
                    "attachment.selected_raw_bytes"@,
                    DatumView::Natural(size),
                ),
                None => extra,
            };
            match bundle_bytes {
                Some(size) => extra.insert(
                    "attachment.bundle_bytes"@,
                    DatumView::Natural(size as u64),
                ),
                None => extra,
            }
        },
    }
}

/// The file that goes with the event.
pub open spec fn outcome_attachment(outcome: FailureAttachmentOutcome) -> Option<AttachmentView> {
    match outcome {
        FailureAttachmentOutcome::Attached(bundle) => Some(
            AttachmentView {
                buffer: bundle.buffer@,
                filename: bundle.filename@,
                content_type: "application/zip"@,
            },
        ),
        _ => None,
    }
}

/// Adds what became of the screenshots, and gives the file that goes with the event.
pub fn set_attachment_data(
    extra: &mut StringMap<Datum>,
    outcome: FailureAttachmentOutcome,
) -> (attachment: Option<EventAttachment>)
    ensures
        final(extra)@ == with_outcome(old(extra)@, outcome),
        attachment_view(attachment) == outcome_attachment(outcome),
{
    match outcome {
        FailureAttachmentOutcome::NotSelected => {
            set_text(extra, "attachment.status", "not_selected");
            None
        },
        FailureAttachmentOutcome::Attached(bundle) => {
            set_text(extra, "attachment.status", "attached");
            set_natural(extra, "attachment.image_count", bundle.image_count as u64);
            set_natural(extra, "attachment.selected_raw_bytes", bundle.selected_raw_bytes);
            set_natural(extra, "attachment.bundle_bytes", bundle.buffer.len() as u64);
            set_text(extra, "attachment.selection", "new_on_error_screenshots");
            if bundle.warnings.len() > 0 {
                extra.insert(
                    "attachment.warnings".to_owned(),
                    Datum::Text(join(&bundle.warnings, ",")),
                );
            }
            let attachment = EventAttachment {
                buffer: bundle.buffer,
                filename: bundle.filename,
                content_type: "application/zip".to_owned(),
            };
            assert(attachment@ =~= outcome_attachment(outcome)->0);
            Some(attachment)
        },
        FailureAttachmentOutcome::Omitted { status, detail, selected_raw_bytes, bundle_bytes } => {
            set_text(extra, "attachment.status", status);
            extra.insert("attachment.detail".to_owned(), Datum::Text(detail));
            if let Some(size) = selected_raw_bytes {
                set_natural(extra, "attachment.selected_raw_bytes", size);
            }
            if let Some(size) = bundle_bytes {
                set_natural(extra, "attachment.bundle_bytes", size as u64);
            }
            None
        },
    }
}

/// The options of a task as additional data.
pub open spec fn option_data(options: Map<Seq<char>, Seq<char>>) -> Map<Seq<char>, DatumView> {
    Map::new(
        |key: Seq<char>|
            starts_with(key, "option."@) && options.dom().contains(
                key.skip("option."@.len() as int),
            ),
        |key: Seq<char>| DatumView::Text(options[key.skip("option."@.len() as int)]),
    )
}

proof fn lemma_option_data(
    options: Map<Seq<char>, Seq<char>>,
    name: Seq<char>,
    value: Seq<char>,
)
    ensures
        option_data(options.insert(name, value)) == option_data(options).insert(
            "option."@ + name,
            DatumView::Text(value),
        ),
{
    let prefix = "option."@;
    let left = option_data(options.insert(name, value));
    let right = option_data(options).insert(prefix + name, DatumView::Text(value));
    assert((prefix + name).skip(prefix.len() as int) =~= name);
    assert((prefix + name).subrange(0, prefix.len() as int) =~= prefix);
    assert forall|key: Seq<char>| left.dom().contains(key) == right.dom().contains(key) by {
        if starts_with(key, prefix) && key.skip(prefix.len() as int) == name {
            assert(key =~= prefix + name) by {
                assert(key.subrange(0, prefix.len() as int) == prefix);
                assert(key =~= key.subrange(0, prefix.len() as int) + key.skip(prefix.len() as int));
            }
        }
    }
    assert forall|key: Seq<char>| left.dom().contains(key) implies left[key] == right[key] by {
        if key.skip(prefix.len() as int) == name {
            assert(key =~= prefix + name) by {
                assert(key.subrange(0, prefix.len() as int) == prefix);
                assert(key =~= key.subrange(0, prefix.len() as int) + key.skip(prefix.len() as int));
            }
        }
    }
    assert(left =~= right);
}

/// Adds the options of a task.
pub(crate) fn set_options(extra: &mut StringMap<Datum>, options: StringMap<String>)
    ensures
        final(extra)@ == old(extra)@.union_prefer_right(option_data(options@)),
{
    let ghost start = extra@;
    let entries = options.into_entries();
    let ghost all = entries@;
    proof {
        assert(all.take(0) =~= seq![]);
        assert(option_data(Map::empty()) =~= Map::empty());
        assert(start.union_prefer_right(Map::empty()) =~= start);
    }
    let mut index: usize = 0;
    while index < entries.len()
        invariant
            index <= entries@.len(),
            all == entries@,
            extra@ == start.union_prefer_right(option_data(listed(all.take(index as int)))),
        decreases entries@.len() - index,
    {
        proof {
            let done = listed(all.take(index as int));
            let (name, value) = all[index as int];
            assert(all.take(index + 1).drop_last() =~= all.take(index as int));
            assert(all.take(index + 1).last() == all[index as int]);
            lemma_option_data(done, name@, value@);
            assert(start.union_prefer_right(
                option_data(done).insert("option."@ + name@, DatumView::Text(value@)),
            ) =~= start.union_prefer_right(option_data(done)).insert(
                "option."@ + name@,
                DatumView::Text(value@),
            ));
        }
        extra.insert(
            concat("option.", entries[index].0.as_str()),
            Datum::Text(entries[index].1.clone()),
        );
        index += 1;
    }
    assert(all.take(index as int) =~= all);
}

/// The name of the task in an event.
pub open spec fn event_task<T>(report: Report<T>) -> Seq<char> {
    if report.task.name.len() == 0 {
        "unknown-task"@
    } else {
        report.task.name
    }
}

/// The node that an event is about: the first that failed.
pub open spec fn event_node<T>(report: Report<T>) -> Seq<char> {
    match report.failure {
        Some(failure) => failure.node,
        None => "terminal_failure"@,
    }
}

/// The stage that an event is about.
pub open spec fn event_stage<T>(report: Report<T>) -> Seq<char> {
    match report.failure {
        Some(failure) => failure.stage,
        None => "unknown"@,
    }
}

/// By what events are grouped: the project, the task, and the node and stage that failed first.
pub open spec fn event_fingerprint<T>(report: Report<T>) -> Seq<Seq<char>> {
    seq![
        "mxu-task-failure"@,
        report.event_config.app_name,
        event_task(report),
        event_node(report),
        event_stage(report),
    ]
}

/// The tags of an event.
pub open spec fn event_tags<T>(report: Report<T>) -> Map<Seq<char>, Seq<char>> {
    let tags = with_tag(report.tags, "app.name"@, report.event_config.app_name);
    let tags = with_tag(tags, "app.version"@, report.event_config.app_version);
    let tags = with_tag(tags, "mxu.version"@, report.event_config.mxu_version);
    let tags = with_tag(tags, "task.name"@, event_task(report));
    let tags = with_tag(tags, "failure.node"@, event_node(report));
    let tags = with_tag(tags, "failure.stage"@, event_stage(report));
    with_tag(tags, "result"@, "failure"@)
}

/// The wall time at which a task started, in milliseconds since 1970, where it can be told.
pub open spec fn started_at_ms(time: Option<Timestamp>) -> Option<u64> {
    match time {
        Some(time) => time.unix_ms(),
        None => None,
    }
}

/// The additional data of an event, without what is told of the logs and the screenshots.
pub open spec fn event_facts<T>(report: Report<T>) -> Map<Seq<char>, DatumView> {
    let extra = Map::empty().insert("run.id"@, DatumView::Text(report.run_id)).insert(
        "task.id"@,
        DatumView::Integer(report.maa_task_id),
    ).insert("failure.count"@, DatumView::Natural(report.failed_node_count as u64));
    let extra = match report.duration_ms {
        Some(millis) => extra.insert("task.duration_ms"@, DatumView::Natural(millis)),
        None => extra,
    };
    let extra = match started_at_ms(report.started_wall_time) {
        Some(millis) => extra.insert("task.started_at_ms"@, DatumView::Natural(millis)),
        None => extra,
    };
    let extra = match report.failure {
        Some(failure) => with_signal(extra, "failure"@, failure),
        None => extra,
    };
    let extra = match report.terminal_failure {
        Some(terminal) => if report.failure == Some(terminal) {
            extra
        } else {
            with_signal(extra, "terminal_failure"@, terminal)
        },
        None => extra,
    };
    extra.union_prefer_right(option_data(report.task.options))
}

/// The event that reports a failed task.
pub open spec fn event_of<T>(
    report: Report<T>,
    logs: Option<LogTexts>,
    outcome: FailureAttachmentOutcome,
) -> Event<T> {
    Event {
        message: "Maa task failed: "@ + event_task(report) + " at "@ + event_node(report) + " ("@
            + event_stage(report) + ")"@,
        logger: "mxu.task"@,
        transaction: "mxu.task.failure"@,
        fingerprint: event_fingerprint(report),
        tags: event_tags(report),
        extra: with_outcome(with_logs(event_facts(report), logs), outcome),
        trace: report.trace_context,
        attachment: outcome_attachment(outcome),
        task_name: event_task(report),
        failure_node: event_node(report),
        failure_stage: event_stage(report),
    }
}

/// Adds what is known of the failure itself.
fn set_facts(
    extra: &mut StringMap<Datum>,
    run_id: &str,
    maa_task_id: i64,
    failed_node_count: u32,
    duration_ms: Option<u64>,
    started_wall_time: Option<Timestamp>,
)
    ensures
        final(extra)@ == ({
            let extra = old(extra)@.insert("run.id"@, DatumView::Text(run_id@)).insert(
                "task.id"@,
                DatumView::Integer(maa_task_id),
            ).insert("failure.count"@, DatumView::Natural(failed_node_count as u64));
            let extra = match duration_ms {
                Some(millis) => extra.insert("task.duration_ms"@, DatumView::Natural(millis)),
                None => extra,
            };
            match started_at_ms(started_wall_time) {
                Some(millis) => extra.insert("task.started_at_ms"@, DatumView::Natural(millis)),
                None => extra,
            }
        }),
{
    set_text(extra, "run.id", run_id);
    extra.insert("task.id".to_owned(), Datum::Integer(maa_task_id));
    set_natural(extra, "failure.count", failed_node_count as u64);
    if let Some(millis) = duration_ms {
        set_natural(extra, "task.duration_ms", millis);
    }
    if let Some(time) = started_wall_time {
        if let Some(millis) = unix_time_ms(time) {
            set_natural(extra, "task.started_at_ms", millis);
        }
    }
}

/// Makes the event that reports a failed task, with its logs and what became of its screenshots.
pub fn capture_failure_event<T>(
    report: TaskFailureReport<T>,
    logs: Option<&DiagnosticLogs>,
    outcome: FailureAttachmentOutcome,
) -> (event: FailureEvent<T>)
    ensures
        event@ == event_of(report@, logs_view(logs), outcome),
{
    let ghost given = report@;
    let task_name = if is_empty(report.task.name.as_str()) {
        "unknown-task".to_owned()
    } else {
        report.task.name.clone()
    };
    let failure_node = match &report.failure {
        Some(failure) => failure.node.clone(),
        None => "terminal_failure".to_owned(),
    };
    let failure_stage = match &report.failure {
        Some(failure) => failure.stage.clone(),
        None => "unknown".to_owned(),
    };
    let message = concat("Maa task failed: ", task_name.as_str());
    let message = concat(message.as_str(), " at ");
    let message = concat(message.as_str(), failure_node.as_str());
    let message = concat(message.as_str(), " (");
    let message = concat(message.as_str(), failure_stage.as_str());
    let message = concat(message.as_str(), ")");
    let mut fingerprint: Vec<String> = Vec::new();
    fingerprint.push("mxu-task-failure".to_owned());
    fingerprint.push(report.event_config.app_name.clone());
    fingerprint.push(task_name.clone());
    fingerprint.push(failure_node.clone());
    fingerprint.push(failure_stage.clone());
    assert(views(fingerprint@) =~= event_fingerprint(given));
    let mut tags = report.tags;
    set_tag(&mut tags, "app.name", report.event_config.app_name.as_str());
    set_tag(&mut tags, "app.version", report.event_config.app_version.as_str());
    set_tag(&mut tags, "mxu.version", report.event_config.mxu_version.as_str());
    set_tag(&mut tags, "task.name", task_name.as_str());
    set_tag(&mut tags, "failure.node", failure_node.as_str());
    set_tag(&mut tags, "failure.stage", failure_stage.as_str());
    set_tag(&mut tags, "result", "failure");
    assert(tags@ == event_tags(given));
    let mut extra: StringMap<Datum> = StringMap::new();
    set_facts(
        &mut extra,
        report.run_id.as_str(),
        report.maa_task_id,
        report.failed_node_count,
        report.duration_ms,
        report.started_wall_time,
    );
    if let Some(failure) = &report.failure {
        set_failure_extra(&mut extra, "failure", failure);
    }
    if let Some(terminal) = &report.terminal_failure {
        let repeated = match &report.failure {
            Some(failure) => failure.same(terminal),
            None => false,
        };
        if !repeated {
            set_failure_extra(&mut extra, "terminal_failure", terminal);
        }
    }
    set_options(&mut extra, report.task.options);
    assert(extra@ == event_facts(given));
    set_log_evidence_data(&mut extra, logs);
    let attachment = set_attachment_data(&mut extra, outcome);
    let event = FailureEvent {
        message,
        logger: "mxu.task".to_owned(),
        transaction: "mxu.task.failure".to_owned(),
        fingerprint,
        tags,
        extra,
        trace: report.trace_context,
        attachment,
        task_name,
        failure_node,
        failure_stage,
    };
    assert(event@ =~= event_of(given, logs_view(logs), outcome));
    event
}

/// Failures of the same task of the same project that began at the same node and stage are grouped
/// together, whatever else is told of them.
pub proof fn lemma_failures_grouped<T>(
    first: Report<T>,
    second: Report<T>,
    first_logs: Option<LogTexts>,
    second_logs: Option<LogTexts>,
    first_outcome: FailureAttachmentOutcome,
    second_outcome: FailureAttachmentOutcome,
)
    requires
        first.event_config.app_name == second.event_config.app_name,
        first.task.name == second.task.name,
        event_node(first) == event_node(second),
        event_stage(first) == event_stage(second),
    ensures
        event_of(first, first_logs, first_outcome).fingerprint == event_of(
            second,
            second_logs,
            second_outcome,
        ).fingerprint,
        event_of(first, first_logs, first_outcome).message == event_of(
            second,
            second_logs,
            second_outcome,
        ).message,
{
}

proof fn lemma_signal_keeps(
    extra: Map<Seq<char>, DatumView>,
    prefix: Seq<char>,
    signal: Signal,
    key: Seq<char>,
)
    requires
        key != prefix + ".node"@,
        key != prefix + ".stage"@,
        key != prefix + ".source_task_id"@,
        key != prefix + ".node_id"@,
        key != prefix + ".duration_ms"@,
        extra.dom().contains(key),
    ensures
        with_signal(extra, prefix, signal).dom().contains(key),
        with_signal(extra, prefix, signal)[key] == extra[key],
{
}

proof fn lemma_short_key(prefix: Seq<char>, suffix: Seq<char>, key: Seq<char>)
    requires
        key.len() < prefix.len() + suffix.len(),
    ensures
        key != prefix + suffix,
{
    assert((prefix + suffix).len() == prefix.len() + suffix.len());
}

proof fn lemma_keeps_link(extra: Map<Seq<char>, DatumView>, signal: Signal, key: Seq<char>)
    requires
        key == "run.id"@ || key == "task.id"@,
        extra.dom().contains(key),
    ensures
        with_signal(extra, "failure"@, signal).dom().contains(key),
        with_signal(extra, "failure"@, signal)[key] == extra[key],
        with_signal(extra, "terminal_failure"@, signal).dom().contains(key),
        with_signal(extra, "terminal_failure"@, signal)[key] == extra[key],
{
    reveal_strlit("run.id");
    reveal_strlit("task.id");
    reveal_strlit("failure");
    reveal_strlit("terminal_failure");
    reveal_strlit(".node");
    reveal_strlit(".stage");
    reveal_strlit(".source_task_id");
    reveal_strlit(".node_id");
    reveal_strlit(".duration_ms");
    lemma_short_key("failure"@, ".node"@, key);
    lemma_short_key("failure"@, ".stage"@, key);
    lemma_short_key("failure"@, ".source_task_id"@, key);
    lemma_short_key("failure"@, ".node_id"@, key);
    lemma_short_key("failure"@, ".duration_ms"@, key);
    lemma_short_key("terminal_failure"@, ".node"@, key);
    lemma_short_key("terminal_failure"@, ".stage"@, key);
    lemma_short_key("terminal_failure"@, ".source_task_id"@, key);
    lemma_short_key("terminal_failure"@, ".node_id"@, key);
    lemma_short_key("terminal_failure"@, ".duration_ms"@, key);
    lemma_signal_keeps(extra, "failure"@, signal, key);
    lemma_signal_keeps(extra, "terminal_failure"@, signal, key);
}

/// Whatever the options, the logs and the screenshots are, an event names the run and the task that
/// it is about.
pub proof fn lemma_event_names_task<T>(
    report: Report<T>,
    logs: Option<LogTexts>,
    outcome: FailureAttachmentOutcome,
)
    ensures
        ({
            let extra = event_of(report, logs, outcome).extra;
            &&& extra.dom().contains("run.id"@)
            &&& extra["run.id"@] == DatumView::Text(report.run_id)
            &&& extra.dom().contains("task.id"@)
            &&& extra["task.id"@] == DatumView::Integer(report.maa_task_id)
        }),
{
    reveal_strlit("run.id");
    reveal_strlit("task.id");
    reveal_strlit("failure.count");
    reveal_strlit("task.duration_ms");
    reveal_strlit("task.started_at_ms");
    reveal_strlit("option.");
    let extra = Map::empty().insert("run.id"@, DatumView::Text(report.run_id)).insert(
        "task.id"@,
        DatumView::Integer(report.maa_task_id),
    ).insert("failure.count"@, DatumView::Natural(report.failed_node_count as u64));
    assert("run.id"@.len() == 6 && "task.id"@.len() == 7 && "failure.count"@.len() == 13);
    let extra = match report.duration_ms {
        Some(millis) => extra.insert("task.duration_ms"@, DatumView::Natural(millis)),
        None => extra,
    };
    assert("task.duration_ms"@.len() == 16);
    let extra = match started_at_ms(report.started_wall_time) {
        Some(millis) => extra.insert("task.started_at_ms"@, DatumView::Natural(millis)),
        None => extra,
    };
    assert("task.started_at_ms"@.len() == 18);
    if report.failure is Some {
        lemma_keeps_link(extra, report.failure->0, "run.id"@);
        lemma_keeps_link(extra, report.failure->0, "task.id"@);
    }
    let extra = match report.failure {
        Some(failure) => with_signal(extra, "failure"@, failure),
        None => extra,
    };
    if report.terminal_failure is Some {
        lemma_keeps_link(extra, report.terminal_failure->0, "run.id"@);
        lemma_keeps_link(extra, report.terminal_failure->0, "task.id"@);
    }
    let facts = event_facts(report);
    assert("option."@.len() == 7);
    assert(!starts_with("run.id"@, "option."@));
    assert(!starts_with("task.id"@, "option."@)) by {
        assert("task.id"@[0] != "option."@[0]);
        if starts_with("task.id"@, "option."@) {
            assert("task.id"@.subrange(0, 7)[0] == "option."@[0]);
        }
    }
    assert(facts.dom().contains("run.id"@) && facts["run.id"@] == DatumView::Text(report.run_id));
    assert(facts.dom().contains("task.id"@) && facts["task.id"@] == DatumView::Integer(
        report.maa_task_id,
    ));
    reveal_strlit("logs.status");
    reveal_strlit("logs.count");
    reveal_strlit("logs.selected_raw_bytes");
    reveal_strlit("logs.truncated");
    reveal_strlit("logs.warnings");
    assert("logs.status"@.len() == 11 && "logs.count"@.len() == 10 && "logs.truncated"@.len() == 14
        && "logs.selected_raw_bytes"@.len() == 23 && "logs.warnings"@.len() == 13);
    reveal_strlit("attachment.status");
    reveal_strlit("attachment.image_count");
    reveal_strlit("attachment.selected_raw_bytes");
    reveal_strlit("attachment.bundle_bytes");
    reveal_strlit("attachment.selection");
    reveal_strlit("attachment.warnings");
    reveal_strlit("attachment.detail");
    assert("attachment.status"@.len() == 17 && "attachment.image_count"@.len() == 22
        && "attachment.selected_raw_bytes"@.len() == 29 && "attachment.bundle_bytes"@.len() == 23
        && "attachment.selection"@.len() == 20 && "attachment.warnings"@.len() == 19
        && "attachment.detail"@.len() == 17);
}

/// Two maps agree on a key.
pub open spec fn agree_on<V>(
    first: Map<Seq<char>, V>,
    second: Map<Seq<char>, V>,
    key: Seq<char>,
) -> bool {
    &&& first.dom().contains(key) == second.dom().contains(key)
    &&& first.dom().contains(key) ==> first[key] == second[key]
}

proof fn lemma_attachment_keys()
    ensures
        starts_with("attachment.status"@, "attachment."@),
        starts_with("attachment.image_count"@, "attachment."@),
        starts_with("attachment.selected_raw_bytes"@, "attachment."@),
        starts_with("attachment.bundle_bytes"@, "attachment."@),
        starts_with("attachment.selection"@, "attachment."@),
        starts_with("attachment.warnings"@, "attachment."@),
        starts_with("attachment.detail"@, "attachment."@),
{
    reveal_strlit("attachment.");
    reveal_strlit("attachment.status");
    assert("attachment.status"@.subrange(0, 11) =~= "attachment."@);
    reveal_strlit("attachment.image_count");
    assert("attachment.image_count"@.subrange(0, 11) =~= "attachment."@);
    reveal_strlit("attachment.selected_raw_bytes");
    assert("attachment.selected_raw_bytes"@.subrange(0, 11) =~= "attachment."@);
    reveal_strlit("attachment.bundle_bytes");
    assert("attachment.bundle_bytes"@.subrange(0, 11) =~= "attachment."@);
    reveal_strlit("attachment.selection");
    assert("attachment.selection"@.subrange(0, 11) =~= "attachment."@);
    reveal_strlit("attachment.warnings");
    assert("attachment.warnings"@.subrange(0, 11) =~= "attachment."@);
    reveal_strlit("attachment.detail");
    assert("attachment.detail"@.subrange(0, 11) =~= "attachment."@);
}

/// What became of the screenshots is told under keys of its own: the rest of the data of an event
/// does not depend on it.
pub proof fn lemma_outcome_told_apart(
    extra: Map<Seq<char>, DatumView>,
    outcome: FailureAttachmentOutcome,
    key: Seq<char>,
)
    requires
        !starts_with(key, "attachment."@),
    ensures
        agree_on(with_outcome(extra, outcome), extra, key),
{
    lemma_attachment_keys();
}

} // verus!
