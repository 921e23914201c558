//! The event that reports a failed task.

use vstd::prelude::*;
use crate::event::{
    capture_failure_event, event_facts, event_of, logs_view, option_data, set_attachment_data,
    set_failure_extra, set_log_evidence_data, tag_value, with_logs, with_outcome, with_signal,
    Datum, DatumView, EventAttachment, FailureEvent,
};
use crate::logs::{DiagnosticLogs, LogTexts};
use crate::map::StringMap;
use crate::report::{FailureAttachmentOutcome, FailureSignal, Report, Signal, TaskFailureReport};
use crate::text::{joined, starts_with, views};

verus! {

/// The first two hundred characters of a text.
pub open spec fn tag_text(text: Seq<char>) -> Seq<char> {
    if text.len() > 200 {
        text.take(200)
    } else {
        text
    }
}

/// The name under which a task is reported: its own, or a stand-in for a task without one.
pub open spec fn reported_task<T>(report: Report<T>) -> Seq<char> {
    if report.task.name.len() > 0 {
        report.task.name
    } else {
        "unknown-task"@
    }
}

/// The node under which a failure is reported: the one that failed first, or a stand-in.
pub open spec fn reported_node<T>(report: Report<T>) -> Seq<char> {
    if report.failure is Some {
        report.failure->0.node
    } else {
        "terminal_failure"@
    }
}

/// The stage under which a failure is reported.
pub open spec fn reported_stage<T>(report: Report<T>) -> Seq<char> {
    if report.failure is Some {
        report.failure->0.stage
    } else {
        "unknown"@
    }
}

proof fn lemma_tag_keys()
    ensures
        "app.name"@ != "app.version"@,
        "app.name"@ != "mxu.version"@,
        "app.name"@ != "task.name"@,
        "app.name"@ != "failure.node"@,
        "app.name"@ != "failure.stage"@,
        "app.name"@ != "result"@,
        "app.version"@ != "mxu.version"@,
        "app.version"@ != "task.name"@,
        "app.version"@ != "failure.node"@,
        "app.version"@ != "failure.stage"@,
        "app.version"@ != "result"@,
        "mxu.version"@ != "task.name"@,
        "mxu.version"@ != "failure.node"@,
        "mxu.version"@ != "failure.stage"@,
        "mxu.version"@ != "result"@,
        "task.name"@ != "failure.node"@,
        "task.name"@ != "failure.stage"@,
        "task.name"@ != "result"@,
        "failure.node"@ != "failure.stage"@,
        "failure.node"@ != "result"@,
        "failure.stage"@ != "result"@,
        "failure"@.len() == 7,
        "unknown-task"@.len() == 12,
        "terminal_failure"@.len() == 16,
        "unknown"@.len() == 7,
{
    reveal_strlit("app.name");
    reveal_strlit("app.version");
    reveal_strlit("mxu.version");
    reveal_strlit("task.name");
    reveal_strlit("failure.node");
    reveal_strlit("failure.stage");
    reveal_strlit("result");
    reveal_strlit("failure");
    reveal_strlit("unknown-task");
    reveal_strlit("terminal_failure");
    reveal_strlit("unknown");
    assert("app.name"@.len() == 8 && "app.version"@.len() == 11 && "mxu.version"@.len() == 11
        && "task.name"@.len() == 9 && "failure.node"@.len() == 12 && "failure.stage"@.len() == 13
        && "result"@.len() == 6);
    assert("app.version"@[0] == 'a' && "mxu.version"@[0] == 'm');
}

/// A tag tells the given text, shortened; an empty text leaves what the run was tagged with.
pub open spec fn is_tagged(
    tags: Map<Seq<char>, Seq<char>>,
    before: Map<Seq<char>, Seq<char>>,
    key: Seq<char>,
    text: Seq<char>,
) -> bool {
    if text.len() > 0 {
        tags.dom().contains(key) && tags[key] == tag_text(text)
    } else {
        &&& tags.dom().contains(key) == before.dom().contains(key)
        &&& before.dom().contains(key) ==> tags[key] == before[key]
    }
}

/// What an event is tagged with, key by key: the project and its version, the version of the
/// application, the task, the node and the stage that failed first, and that it is a failure. The
/// other tags are those of the run.
pub proof fn lemma_event_tags<T>(
    report: Report<T>,
    logs: Option<LogTexts>,
    outcome: FailureAttachmentOutcome,
    other: Seq<char>,
)
    ensures
        ({
            let tags = event_of(report, logs, outcome).tags;
            &&& is_tagged(tags, report.tags, "app.name"@, report.event_config.app_name)
            &&& is_tagged(tags, report.tags, "app.version"@, report.event_config.app_version)
            &&& is_tagged(tags, report.tags, "mxu.version"@, report.event_config.mxu_version)
            &&& is_tagged(tags, report.tags, "task.name"@, reported_task(report))
            &&& is_tagged(tags, report.tags, "failure.node"@, reported_node(report))
            &&& is_tagged(tags, report.tags, "failure.stage"@, reported_stage(report))
            &&& tags.dom().contains("result"@) && tags["result"@] == "failure"@
            &&& other != "app.name"@ && other != "app.version"@ && other != "mxu.version"@ && other
                != "task.name"@ && other != "failure.node"@ && other != "failure.stage"@ && other
                != "result"@ ==> {
                &&& tags.dom().contains(other) == report.tags.dom().contains(other)
                &&& report.tags.dom().contains(other) ==> tags[other] == report.tags[other]
            }
        }),
{
    lemma_tag_keys();
}

/// What an event says: a message with the task, the node and the stage, the same three by themselves,
/// and by what it is grouped.
pub proof fn lemma_event_says<T>(
    report: Report<T>,
    logs: Option<LogTexts>,
    outcome: FailureAttachmentOutcome,
)
    ensures
        ({
            let event = event_of(report, logs, outcome);
            &&& event.message == "Maa task failed: "@ + reported_task(report) + " at "@
                + reported_node(report) + " ("@ + reported_stage(report) + ")"@
            &&& event.logger == "mxu.task"@
            &&& event.transaction == "mxu.task.failure"@
            &&& event.fingerprint == seq![
                "mxu-task-failure"@,
                report.event_config.app_name,
                reported_task(report),
                reported_node(report),
                reported_stage(report),
            ]
            &&& event.task_name == reported_task(report)
            &&& event.failure_node == reported_node(report)
            &&& event.failure_stage == reported_stage(report)
            &&& event.trace == report.trace_context
        }),
{
    lemma_tag_keys();
}

/// The file with the screenshots goes with the event exactly when there is one, byte for byte, as a
/// ZIP file under its own name.
pub proof fn lemma_event_attachment<T>(
    report: Report<T>,
    logs: Option<LogTexts>,
    outcome: FailureAttachmentOutcome,
)
    ensures
        ({
            let attachment = event_of(report, logs, outcome).attachment;
            &&& attachment is Some <==> outcome is Attached
            &&& outcome matches FailureAttachmentOutcome::Attached(bundle) ==> {
                &&& attachment->0.buffer == bundle.buffer@
                &&& attachment->0.filename == bundle.filename@
                &&& attachment->0.content_type == "application/zip"@
            }
        }),
{
}

/// A key has the given value.
pub open spec fn tells(
    extra: Map<Seq<char>, DatumView>,
    key: Seq<char>,
    value: DatumView,
) -> bool {
    extra.dom().contains(key) && extra[key] == value
}

/// A key has the given value, or is not there where there is none.
pub open spec fn tells_of(
    extra: Map<Seq<char>, DatumView>,
    key: Seq<char>,
    value: Option<DatumView>,
) -> bool {
    match value {
        Some(value) => tells(extra, key, value),
        None => !extra.dom().contains(key),
    }
}

/// Two maps tell the same under a key.
pub open spec fn same_under(
    one: Map<Seq<char>, DatumView>,
    other: Map<Seq<char>, DatumView>,
    key: Seq<char>,
) -> bool {
    &&& one.dom().contains(key) == other.dom().contains(key)
    &&& one.dom().contains(key) ==> one[key] == other[key]
}

/// An integer that may be missing, as a value.
pub open spec fn integer_datum(value: Option<i64>) -> Option<DatumView> {
    match value {
        Some(value) => Some(DatumView::Integer(value)),
        None => None,
    }
}

/// A number that may be missing, as a value.
pub open spec fn natural_datum(value: Option<u64>) -> Option<DatumView> {
    match value {
        Some(value) => Some(DatumView::Natural(value)),
        None => None,
    }
}

proof fn lemma_signal_suffixes()
    ensures
        ".node"@.len() == 5,
        ".stage"@.len() == 6,
        ".source_task_id"@.len() == 15,
        ".node_id"@.len() == 8,
        ".duration_ms"@.len() == 12,
        ".node"@[0] == '.' && ".node"@[1] == 'n',
        ".stage"@[0] == '.' && ".stage"@[1] == 's',
        ".source_task_id"@[0] == '.' && ".source_task_id"@[1] == 's',
        ".node_id"@[0] == '.' && ".node_id"@[1] == 'n',
        ".duration_ms"@[0] == '.' && ".duration_ms"@[1] == 'd',
{
    reveal_strlit(".node");
    reveal_strlit(".stage");
    reveal_strlit(".source_task_id");
    reveal_strlit(".node_id");
    reveal_strlit(".duration_ms");
}

/// What is told of a failed node, key by key under a prefix; nothing else changes.
pub proof fn lemma_signal_told(
    extra: Map<Seq<char>, DatumView>,
    prefix: Seq<char>,
    signal: Signal,
    other: Seq<char>,
)
    requires
        forall|key: Seq<char>| #[trigger]
            extra.dom().contains(key) && key.len() > prefix.len() + 1 && key.take(
                prefix.len() as int,
            ) == prefix && key[prefix.len() as int] == '.' ==> key[prefix.len() as int + 1] == 'c',
    ensures
        ({
            let told = with_signal(extra, prefix, signal);
            &&& tells(told, prefix + ".node"@, DatumView::Text(signal.node))
            &&& tells(told, prefix + ".stage"@, DatumView::Text(signal.stage))
            &&& tells(told, prefix + ".source_task_id"@, DatumView::Integer(signal.source_task_id))
            &&& tells_of(told, prefix + ".node_id"@, integer_datum(signal.node_id))
            &&& tells_of(told, prefix + ".duration_ms"@, natural_datum(signal.duration_ms))
            &&& (forall|suffix: Seq<char>|
                suffix.len() > 1 && suffix[0] == '.' && suffix[1] != 'c' ==> other != #[trigger] (
                prefix + suffix)) ==> same_under(told, extra, other)
        }),
{
    lemma_signal_suffixes();
    let told = with_signal(extra, prefix, signal);
    let node = prefix + ".node"@;
    let stage = prefix + ".stage"@;
    let source = prefix + ".source_task_id"@;
    let node_id = prefix + ".node_id"@;
    let duration = prefix + ".duration_ms"@;
    assert(node.len() == prefix.len() + 5 && stage.len() == prefix.len() + 6 && source.len()
        == prefix.len() + 15 && node_id.len() == prefix.len() + 8 && duration.len() == prefix.len()
        + 12);
    assert(node_id.take(prefix.len() as int) =~= prefix);
    assert(node_id[prefix.len() as int] == '.' && node_id[prefix.len() as int + 1] == 'n');
    assert(duration.take(prefix.len() as int) =~= prefix);
    assert(duration[prefix.len() as int] == '.' && duration[prefix.len() as int + 1] == 'd');
    assert(!extra.dom().contains(node_id));
    assert(!extra.dom().contains(duration));
    assert((forall|suffix: Seq<char>|
        suffix.len() > 1 && suffix[0] == '.' && suffix[1] != 'c' ==> other != #[trigger] (prefix
            + suffix)) ==> other != node && other != stage && other != source && other != node_id
        && other != duration);
}

proof fn lemma_log_keys()
    ensures
        "logs.status"@.len() == 11,
        "logs.count"@.len() == 10,
        "logs.selected_raw_bytes"@.len() == 23,
        "logs.truncated"@.len() == 14,
        "logs.warnings"@.len() == 13,
        starts_with("logs.status"@, "logs."@),
        starts_with("logs.count"@, "logs."@),
        starts_with("logs.selected_raw_bytes"@, "logs."@),
        starts_with("logs.truncated"@, "logs."@),
        starts_with("logs.warnings"@, "logs."@),
{
    reveal_strlit("logs.");
    reveal_strlit("logs.status");
    reveal_strlit("logs.count");
    reveal_strlit("logs.selected_raw_bytes");
    reveal_strlit("logs.truncated");
    reveal_strlit("logs.warnings");
    assert("logs.status"@.subrange(0, 5) =~= "logs."@);
    assert("logs.count"@.subrange(0, 5) =~= "logs."@);
    assert("logs.selected_raw_bytes"@.subrange(0, 5) =~= "logs."@);
    assert("logs.truncated"@.subrange(0, 5) =~= "logs."@);
    assert("logs.warnings"@.subrange(0, 5) =~= "logs."@);
}

/// What an event tells of the logs, key by key under `logs.`; nothing else changes.
pub proof fn lemma_logs_told(
    extra: Map<Seq<char>, DatumView>,
    logs: Option<LogTexts>,
    other: Seq<char>,
)
    requires
        forall|key: Seq<char>| #[trigger]
            extra.dom().contains(key) ==> !starts_with(key, "logs."@),
    ensures
        ({
            let told = with_logs(extra, logs);
            &&& logs is None ==> {
                &&& tells(told, "logs.status"@, DatumView::Text("not_available"@))
                &&& !told.dom().contains("logs.count"@)
            }
            &&& logs matches Some(logs) ==> {
                &&& tells(
                    told,
                    "logs.status"@,
                    DatumView::Text(
                        if logs.entries.len() > 0 {
                            "captured"@
                        } else {
                            "no_evidence"@
                        },
                    ),
                )
                &&& tells(told, "logs.count"@, DatumView::Natural(logs.entries.len() as u64))
                &&& tells(
                    told,
                    "logs.selected_raw_bytes"@,
                    DatumView::Natural(logs.selected_raw_bytes),
                )
                &&& tells(told, "logs.truncated"@, DatumView::Flag(logs.truncated))
                &&& tells_of(
                    told,
                    "logs.warnings"@,
                    if logs.warnings.len() > 0 {
                        Some(DatumView::Text(joined(logs.warnings, ","@)))
                    } else {
                        None
                    },
                )
            }
            &&& !starts_with(other, "logs."@) ==> same_under(told, extra, other)
            &&& forall|key: Seq<char>| #[trigger]
                told.dom().contains(key) ==> extra.dom().contains(key) || starts_with(key, "logs."@)
        }),
{
    lemma_log_keys();
    assert(!extra.dom().contains("logs.count"@));
    assert(!extra.dom().contains("logs.warnings"@));
}

proof fn lemma_outcome_keys()
    ensures
        "attachment.status"@ != "attachment.image_count"@,
        "attachment.status"@ != "attachment.selected_raw_bytes"@,
        "attachment.status"@ != "attachment.bundle_bytes"@,
        "attachment.status"@ != "attachment.selection"@,
        "attachment.status"@ != "attachment.warnings"@,
        "attachment.status"@ != "attachment.detail"@,
        "attachment.image_count"@ != "attachment.selected_raw_bytes"@,
        "attachment.image_count"@ != "attachment.bundle_bytes"@,
        "attachment.image_count"@ != "attachment.selection"@,
        "attachment.image_count"@ != "attachment.warnings"@,
        "attachment.image_count"@ != "attachment.detail"@,
        "attachment.selected_raw_bytes"@ != "attachment.bundle_bytes"@,
        "attachment.selected_raw_bytes"@ != "attachment.selection"@,
        "attachment.selected_raw_bytes"@ != "attachment.warnings"@,
        "attachment.selected_raw_bytes"@ != "attachment.detail"@,
        "attachment.bundle_bytes"@ != "attachment.selection"@,
        "attachment.bundle_bytes"@ != "attachment.warnings"@,
        "attachment.bundle_bytes"@ != "attachment.detail"@,
        "attachment.selection"@ != "attachment.warnings"@,
        "attachment.selection"@ != "attachment.detail"@,
        "attachment.warnings"@ != "attachment.detail"@,
        starts_with("attachment.status"@, "attachment."@),
        starts_with("attachment.image_count"@, "attachment."@),
        starts_with("attachment.selected_raw_bytes"@, "attachment."@),
        starts_with("attachment.bundle_bytes"@, "attachment."@),
        starts_with("attachment.selection"@, "attachment."@),
        starts_with("attachment.warnings"@, "attachment."@),
        starts_with("attachment.detail"@, "attachment."@),
{
    reveal_strlit("attachment.");
    reveal_strlit("attachment.status");
    reveal_strlit("attachment.image_count");
    reveal_strlit("attachment.selected_raw_bytes");
    reveal_strlit("attachment.bundle_bytes");
    reveal_strlit("attachment.selection");
    reveal_strlit("attachment.warnings");
    reveal_strlit("attachment.detail");
    assert("attachment.status"@.len() == 17 && "attachment.image_count"@.len() == 22
        && "attachment.selected_raw_bytes"@.len() == 29 && "attachment.bundle_bytes"@.len() == 23
        && "attachment.selection"@.len() == 20 && "attachment.warnings"@.len() == 19
        && "attachment.detail"@.len() == 17);
    assert("attachment.status"@[11] == 's' && "attachment.detail"@[11] == 'd');
    assert("attachment.status"@.subrange(0, 11) =~= "attachment."@);
    assert("attachment.image_count"@.subrange(0, 11) =~= "attachment."@);
    assert("attachment.selected_raw_bytes"@.subrange(0, 11) =~= "attachment."@);
    assert("attachment.bundle_bytes"@.subrange(0, 11) =~= "attachment."@);
    assert("attachment.selection"@.subrange(0, 11) =~= "attachment."@);
    assert("attachment.warnings"@.subrange(0, 11) =~= "attachment."@);
    assert("attachment.detail"@.subrange(0, 11) =~= "attachment."@);
}

/// What an event tells of the screenshots, key by key under `attachment.`; nothing else changes.
pub proof fn lemma_outcome_told(
    extra: Map<Seq<char>, DatumView>,
    outcome: FailureAttachmentOutcome,
    other: Seq<char>,
)
    requires
        forall|key: Seq<char>| #[trigger]
            extra.dom().contains(key) ==> !starts_with(key, "attachment."@),
    ensures
        ({
            let told = with_outcome(extra, outcome);
            &&& outcome is NotSelected ==> {
                &&& tells(told, "attachment.status"@, DatumView::Text("not_selected"@))
                &&& !told.dom().contains("attachment.image_count"@)
                &&& !told.dom().contains("attachment.detail"@)
            }
            &&& outcome matches FailureAttachmentOutcome::Attached(bundle) ==> {
                &&& tells(told, "attachment.status"@, DatumView::Text("attached"@))
                &&& tells(
                    told,
                    "attachment.image_count"@,
                    DatumView::Natural(bundle.image_count as u64),
                )
                &&& tells(
                    told,
                    "attachment.selected_raw_bytes"@,
                    DatumView::Natural(bundle.selected_raw_bytes),
                )
                &&& tells(
                    told,
                    "attachment.bundle_bytes"@,
                    DatumView::Natural(bundle.buffer@.len() as u64),
                )
                &&& tells(
                    told,
                    "attachment.selection"@,
                    DatumView::Text("new_on_error_screenshots"@),
                )
                &&& tells_of(
                    told,
                    "attachment.warnings"@,
                    if bundle.warnings@.len() > 0 {
                        Some(DatumView::Text(joined(views(bundle.warnings@), ","@)))
                    } else {
                        None
                    },
                )
            }
            &&& outcome matches FailureAttachmentOutcome::Omitted {
                status,
                detail,
                selected_raw_bytes,
                bundle_bytes,
            } ==> {
                &&& tells(told, "attachment.status"@, DatumView::Text(status@))
                &&& tells(told, "attachment.detail"@, DatumView::Text(detail@))
                &&& tells_of(
                    told,
                    "attachment.selected_raw_bytes"@,
                    natural_datum(selected_raw_bytes),
                )
                &&& tells_of(
                    told,
                    "attachment.bundle_bytes"@,
                    match bundle_bytes {
                        Some(size) => Some(DatumView::Natural(size as u64)),
                        None => None,
                    },
                )
            }
            &&& !starts_with(other, "attachment."@) ==> same_under(told, extra, other)
        }),
{
    lemma_outcome_keys();
    assert(!extra.dom().contains("attachment.image_count"@));
    assert(!extra.dom().contains("attachment.detail"@));
    assert(!extra.dom().contains("attachment.warnings"@));
    assert(!extra.dom().contains("attachment.selected_raw_bytes"@));
    assert(!extra.dom().contains("attachment.bundle_bytes"@));
}

/// What is told of a failure before anything else is: the run, the task, how many nodes failed, and
/// when the task started and how long it took.
pub open spec fn base_facts<T>(report: Report<T>) -> Map<Seq<char>, DatumView> {
    let extra = Map::empty().insert("run.id"@, DatumView::Text(report.run_id)).insert(
        "task.id"@,
        DatumView::Integer(report.maa_task_id),
    ).insert("failure.count"@, DatumView::Natural(report.failed_node_count as u64));
    let extra = match report.duration_ms {
        Some(millis) => extra.insert("task.duration_ms"@, DatumView::Natural(millis)),
        None => extra,
    };
    match crate::event::started_at_ms(report.started_wall_time) {
        Some(millis) => extra.insert("task.started_at_ms"@, DatumView::Natural(millis)),
        None => extra,
    }
}

proof fn lemma_base_keys()
    ensures
        "run.id"@.len() == 6 && "run.id"@[0] == 'r' && "run.id"@[1] == 'u',
        "task.id"@.len() == 7 && "task.id"@[0] == 't' && "task.id"@[1] == 'a' && "task.id"@[4]
            == '.',
        "failure.count"@.len() == 13 && "failure.count"@[0] == 'f' && "failure.count"@[8] == 'c',
        "task.duration_ms"@.len() == 16 && "task.duration_ms"@[0] == 't' && "task.duration_ms"@[1]
            == 'a',
        "task.started_at_ms"@.len() == 18 && "task.started_at_ms"@[0] == 't'
            && "task.started_at_ms"@[1] == 'a',
        "failure"@.len() == 7 && "failure"@[0] == 'f',
        "terminal_failure"@.len() == 16 && "terminal_failure"@[0] == 't'
            && "terminal_failure"@[1] == 'e',
        "option."@.len() == 7 && "option."@[0] == 'o',
        "logs."@.len() == 5 && "logs."@[0] == 'l',
        "attachment."@.len() == 11 && "attachment."@[0] == 'a',
{
    reveal_strlit("run.id");
    reveal_strlit("task.id");
    reveal_strlit("failure.count");
    reveal_strlit("task.duration_ms");
    reveal_strlit("task.started_at_ms");
    reveal_strlit("failure");
    reveal_strlit("terminal_failure");
    reveal_strlit("option.");
    reveal_strlit("logs.");
    reveal_strlit("attachment.");
}

/// The additional data of a failure, key by key: the run and the task, how many nodes failed, when the
/// task started and how long it took, the node that failed first, the one that failed last where that
/// is another failure, and the options of the task.
pub proof fn lemma_facts<T>(report: Report<T>, option: Seq<char>)
    ensures
        ({
            let facts = event_facts(report);
            &&& tells(facts, "run.id"@, DatumView::Text(report.run_id))
            &&& tells(facts, "task.id"@, DatumView::Integer(report.maa_task_id))
            &&& tells(
                facts,
                "failure.count"@,
                DatumView::Natural(report.failed_node_count as u64),
            )
            &&& tells_of(facts, "task.duration_ms"@, natural_datum(report.duration_ms))
            &&& tells_of(
                facts,
                "task.started_at_ms"@,
                match report.started_wall_time {
                    Some(time) => natural_datum(time.unix_ms()),
                    None => None,
                },
            )
            &&& report.failure matches Some(first) ==> {
                &&& tells(facts, "failure"@ + ".node"@, DatumView::Text(first.node))
                &&& tells(facts, "failure"@ + ".stage"@, DatumView::Text(first.stage))
                &&& tells(
                    facts,
                    "failure"@ + ".source_task_id"@,
                    DatumView::Integer(first.source_task_id),
                )
                &&& tells_of(facts, "failure"@ + ".node_id"@, integer_datum(first.node_id))
                &&& tells_of(facts, "failure"@ + ".duration_ms"@, natural_datum(first.duration_ms))
            }
            &&& report.terminal_failure matches Some(last) ==> report.failure != Some(last) ==> {
                &&& tells(facts, "terminal_failure"@ + ".node"@, DatumView::Text(last.node))
                &&& tells(facts, "terminal_failure"@ + ".stage"@, DatumView::Text(last.stage))
                &&& tells(
                    facts,
                    "terminal_failure"@ + ".source_task_id"@,
                    DatumView::Integer(last.source_task_id),
                )
                &&& tells_of(
                    facts,
                    "terminal_failure"@ + ".node_id"@,
                    integer_datum(last.node_id),
                )
                &&& tells_of(
                    facts,
                    "terminal_failure"@ + ".duration_ms"@,
                    natural_datum(last.duration_ms),
                )
            }
            &&& report.terminal_failure is None || report.terminal_failure == report.failure
                ==> !facts.dom().contains("terminal_failure"@ + ".node"@)
            &&& report.failure is None ==> !facts.dom().contains("failure"@ + ".node"@)
            &&& tells_of(
                facts,
                "option."@ + option,
                if report.task.options.dom().contains(option) {
                    Some(DatumView::Text(report.task.options[option]))
                } else {
                    None
                },
            )
            &&& forall|key: Seq<char>| #[trigger]
                facts.dom().contains(key) ==> key.len() > 0 && (key[0] == 'r' || key[0] == 't'
                    || key[0] == 'f' || key[0] == 'o')
        }),
{
    lemma_base_keys();
    lemma_signal_suffixes();
    let base = base_facts(report);
    let first = "failure"@;
    let last = "terminal_failure"@;
    assert forall|key: Seq<char>| #[trigger] base.dom().contains(key) implies key == "run.id"@ || key
        == "task.id"@ || key == "failure.count"@ || key == "task.duration_ms"@ || key
        == "task.started_at_ms"@ by {}
    assert forall|key: Seq<char>| #[trigger]
        base.dom().contains(key) && key.len() > first.len() + 1 && key.take(first.len() as int)
            == first && key[first.len() as int] == '.' implies key[first.len() as int + 1] == 'c' by {
        assert(key.take(first.len() as int)[0] == key[0]);
    }
    let middle = match report.failure {
        Some(failure) => with_signal(base, first, failure),
        None => base,
    };
    if report.failure is Some {
        assert forall|suffix: Seq<char>|
            suffix.len() > 1 && suffix[0] == '.' && suffix[1] != 'c' implies "run.id"@ != #[trigger] (
        first + suffix) && "task.id"@ != first + suffix && "failure.count"@ != first + suffix && "task.duration_ms"@
            != first + suffix && "task.started_at_ms"@ != first + suffix by {
            assert((first + suffix)[0] == 'f' && (first + suffix)[8] == suffix[1]);
        }
        lemma_signal_told(base, first, report.failure->0, "run.id"@);
        lemma_signal_told(base, first, report.failure->0, "task.id"@);
        lemma_signal_told(base, first, report.failure->0, "failure.count"@);
        lemma_signal_told(base, first, report.failure->0, "task.duration_ms"@);
        lemma_signal_told(base, first, report.failure->0, "task.started_at_ms"@);
    }
    assert forall|key: Seq<char>| #[trigger] middle.dom().contains(key) implies key.len() > 0 && (
    key[0] == 'f' || base.dom().contains(key)) by {
        assert((first + ".node"@)[0] == 'f' && (first + ".stage"@)[0] == 'f' && (first
            + ".source_task_id"@)[0] == 'f' && (first + ".node_id"@)[0] == 'f' && (first
            + ".duration_ms"@)[0] == 'f');
    }
    assert forall|key: Seq<char>| #[trigger]
        middle.dom().contains(key) && key.len() > last.len() + 1 && key.take(last.len() as int)
            == last && key[last.len() as int] == '.' implies key[last.len() as int + 1] == 'c' by {
        assert(key.take(last.len() as int)[0] == key[0] && key.take(last.len() as int)[1] == key[1]);
    }
    let repeated = report.terminal_failure is None || report.terminal_failure == report.failure;
    let whole = match report.terminal_failure {
        Some(terminal) => if report.failure == Some(terminal) {
            middle
        } else {
            with_signal(middle, last, terminal)
        },
        None => middle,
    };
    if !repeated {
        let terminal = report.terminal_failure->0;
        assert forall|suffix: Seq<char>|
            suffix.len() > 1 && suffix[0] == '.' && suffix[1] != 'c' implies "run.id"@ != #[trigger] (
        last + suffix) && "task.id"@ != last + suffix && "failure.count"@ != last + suffix && "task.duration_ms"@ != last
            + suffix && "task.started_at_ms"@ != last + suffix && first + ".node"@ != last + suffix && first
            + ".stage"@ != last + suffix && first + ".source_task_id"@ != last + suffix && first
            + ".node_id"@ != last + suffix && first + ".duration_ms"@ != last + suffix by {
            assert((last + suffix)[0] == 't' && (last + suffix)[1] == 'e');
            assert((first + ".node"@)[0] == 'f' && (first + ".stage"@)[0] == 'f' && (first
                + ".source_task_id"@)[0] == 'f' && (first + ".node_id"@)[0] == 'f' && (first
                + ".duration_ms"@)[0] == 'f');
        }
        lemma_signal_told(middle, last, terminal, "run.id"@);
        lemma_signal_told(middle, last, terminal, "task.id"@);
        lemma_signal_told(middle, last, terminal, "failure.count"@);
        lemma_signal_told(middle, last, terminal, "task.duration_ms"@);
        lemma_signal_told(middle, last, terminal, "task.started_at_ms"@);
        lemma_signal_told(middle, last, terminal, first + ".node"@);
        lemma_signal_told(middle, last, terminal, first + ".stage"@);
        lemma_signal_told(middle, last, terminal, first + ".source_task_id"@);
        lemma_signal_told(middle, last, terminal, first + ".node_id"@);
        lemma_signal_told(middle, last, terminal, first + ".duration_ms"@);
    } else {
        assert((last + ".node"@)[0] == 't' && (last + ".node"@)[1] == 'e');
    }
    assert forall|key: Seq<char>| #[trigger] whole.dom().contains(key) implies key.len() > 0 && (
    key[0] == 'r' || key[0] == 't' || key[0] == 'f') by {
        assert((last + ".node"@)[0] == 't' && (last + ".stage"@)[0] == 't' && (last
            + ".source_task_id"@)[0] == 't' && (last + ".node_id"@)[0] == 't' && (last
            + ".duration_ms"@)[0] == 't');
    }
    let facts = event_facts(report);
    assert(facts == whole.union_prefer_right(option_data(report.task.options)));
    let prefix = "option."@;
    let key = prefix + option;
    assert(key[0] == 'o');
    assert(key.subrange(0, prefix.len() as int) =~= prefix);
    assert(key.skip(prefix.len() as int) =~= option);
    assert forall|other: Seq<char>| starts_with(other, prefix) implies other[0] == 'o' by {
        assert(other.subrange(0, prefix.len() as int)[0] == other[0]);
    }
    assert((first + ".node"@)[0] == 'f' && (first + ".stage"@)[0] == 'f' && (first
        + ".source_task_id"@)[0] == 'f' && (first + ".node_id"@)[0] == 'f' && (first
        + ".duration_ms"@)[0] == 'f');
    assert((last + ".node"@)[0] == 't' && (last + ".stage"@)[0] == 't' && (last
        + ".source_task_id"@)[0] == 't' && (last + ".node_id"@)[0] == 't' && (last
        + ".duration_ms"@)[0] == 't');
}

/// What an event tells of the failure, of the logs and of the screenshots stands side by side: the
/// data of the event are those of the failure under their keys, of the logs under `logs.` and of the
/// screenshots under `attachment.`.
pub proof fn lemma_event_data<T>(
    report: Report<T>,
    logs: Option<LogTexts>,
    outcome: FailureAttachmentOutcome,
    key: Seq<char>,
)
    ensures
        ({
            let extra = event_of(report, logs, outcome).extra;
            &&& !starts_with(key, "logs."@) && !starts_with(key, "attachment."@) ==> same_under(
                extra,
                event_facts(report),
                key,
            )
            &&& !starts_with(key, "attachment."@) ==> same_under(
                extra,
                with_logs(event_facts(report), logs),
                key,
            )
            &&& extra == with_outcome(with_logs(event_facts(report), logs), outcome)
            &&& forall|other: Seq<char>| #[trigger]
                event_facts(report).dom().contains(other) ==> !starts_with(other, "logs."@)
                    && !starts_with(other, "attachment."@)
            &&& forall|other: Seq<char>| #[trigger]
                with_logs(event_facts(report), logs).dom().contains(other) ==> !starts_with(
                    other,
                    "attachment."@,
                )
        }),
{
    lemma_base_keys();
    let facts = event_facts(report);
    lemma_facts(report, seq![]);
    assert forall|other: Seq<char>| #[trigger] facts.dom().contains(other) implies !starts_with(
        other,
        "logs."@,
    ) && !starts_with(other, "attachment."@) by {
        if starts_with(other, "logs."@) {
            assert(other.subrange(0, 5)[0] == other[0]);
        }
        if starts_with(other, "attachment."@) {
            assert(other.subrange(0, 11)[0] == other[0]);
        }
    }
    lemma_logs_told(facts, logs, key);
    let told = with_logs(facts, logs);
    assert forall|other: Seq<char>| #[trigger] told.dom().contains(other) implies !starts_with(
        other,
        "attachment."@,
    ) by {
        if starts_with(other, "attachment."@) && starts_with(other, "logs."@) {
            assert(other.subrange(0, 5)[0] == other[0]);
            assert(other.subrange(0, 11)[0] == other[0]);
        }
    }
    lemma_outcome_told(told, outcome, key);
}

/// The event of a failure says what failed, is tagged with where it did, is grouped by that, names the
/// run and the task, and carries the file with the screenshots where there is one.
pub proof fn lemma_capture_failure_event<T>(
    report: TaskFailureReport<T>,
    logs: Option<&DiagnosticLogs>,
    outcome: FailureAttachmentOutcome,
    event: FailureEvent<T>,
    option: Seq<char>,
    other: Seq<char>,
)
    requires
        call_ensures(capture_failure_event::<T>, (report, logs, outcome), event),
    ensures
        is_tagged(event@.tags, report@.tags, "app.name"@, report@.event_config.app_name),
        is_tagged(event@.tags, report@.tags, "app.version"@, report@.event_config.app_version),
        is_tagged(event@.tags, report@.tags, "mxu.version"@, report@.event_config.mxu_version),
        is_tagged(event@.tags, report@.tags, "task.name"@, reported_task(report@)),
        is_tagged(event@.tags, report@.tags, "failure.node"@, reported_node(report@)),
        is_tagged(event@.tags, report@.tags, "failure.stage"@, reported_stage(report@)),
        event@.tags.dom().contains("result"@) && event@.tags["result"@] == "failure"@,
        other != "app.name"@ && other != "app.version"@ && other != "mxu.version"@ && other
            != "task.name"@ && other != "failure.node"@ && other != "failure.stage"@ && other
            != "result"@ ==> event@.tags.dom().contains(other) == report@.tags.dom().contains(
            other,
        ) && (report@.tags.dom().contains(other) ==> event@.tags[other] == report@.tags[other]),
        event@.message == "Maa task failed: "@ + reported_task(report@) + " at "@ + reported_node(
            report@,
        ) + " ("@ + reported_stage(report@) + ")"@,
        event@.fingerprint == seq![
            "mxu-task-failure"@,
            report@.event_config.app_name,
            reported_task(report@),
            reported_node(report@),
            reported_stage(report@),
        ],
        event@.logger == "mxu.task"@,
        event@.transaction == "mxu.task.failure"@,
        event@.task_name == reported_task(report@),
        event@.failure_node == reported_node(report@),
        event@.failure_stage == reported_stage(report@),
        event@.trace == report@.trace_context,
        event@.attachment is Some <==> outcome is Attached,
        outcome matches FailureAttachmentOutcome::Attached(bundle) ==> event@.attachment->0.buffer
            == bundle.buffer@ && event@.attachment->0.filename == bundle.filename@
            && event@.attachment->0.content_type == "application/zip"@,
        tells(event@.extra, "run.id"@, DatumView::Text(report@.run_id)),
        tells(event@.extra, "task.id"@, DatumView::Integer(report@.maa_task_id)),
        tells(
            event@.extra,
            "failure.count"@,
            DatumView::Natural(report@.failed_node_count as u64),
        ),
        tells_of(
            event@.extra,
            "option."@ + option,
            if report@.task.options.dom().contains(option) {
                Some(DatumView::Text(report@.task.options[option]))
            } else {
                None
            },
        ),
        event@.extra == with_outcome(
            with_logs(event_facts(report@), logs_view(logs)),
            outcome,
        ),
{
    let seen = logs_view(logs);
    lemma_base_keys();
    lemma_event_tags(report@, seen, outcome, other);
    lemma_event_says(report@, seen, outcome);
    lemma_event_attachment(report@, seen, outcome);
    lemma_facts(report@, option);
    lemma_event_data(report@, seen, outcome, "run.id"@);
    lemma_event_data(report@, seen, outcome, "task.id"@);
    lemma_event_data(report@, seen, outcome, "failure.count"@);
    let key = "option."@ + option;
    assert(key[0] == 'o');
    lemma_event_data(report@, seen, outcome, key);
    assert forall|one: Seq<char>|
        one.len() > 0 && (one[0] == 'r' || one[0] == 't' || one[0] == 'f' || one[0] == 'o') implies
        !starts_with(one, "logs."@) && !starts_with(one, "attachment."@) by {
        if starts_with(one, "logs."@) {
            assert(one.subrange(0, 5)[0] == one[0]);
        }
        if starts_with(one, "attachment."@) {
            assert(one.subrange(0, 11)[0] == one[0]);
        }
    }
}

/// A tag is told by the first two hundred characters of its text.
pub proof fn lemma_tag_value(value: &str, text: String)
    requires
        call_ensures(tag_value, (value,), text),
    ensures
        text@ == tag_text(value@),
        text@.len() <= 200,
{
}

/// What is told of a failed node is written under its prefix.
pub proof fn lemma_set_failure_extra(
    extra: &mut StringMap<Datum>,
    prefix: &str,
    failure: &FailureSignal,
)
    requires
        call_ensures(set_failure_extra, (extra, prefix, failure), ()),
        old(extra)@ == Map::<Seq<char>, DatumView>::empty(),
    ensures
        tells(final(extra)@, prefix@ + ".node"@, DatumView::Text(failure@.node)),
        tells(final(extra)@, prefix@ + ".stage"@, DatumView::Text(failure@.stage)),
        tells(
            final(extra)@,
            prefix@ + ".source_task_id"@,
            DatumView::Integer(failure@.source_task_id),
        ),
        tells_of(final(extra)@, prefix@ + ".node_id"@, integer_datum(failure@.node_id)),
        tells_of(final(extra)@, prefix@ + ".duration_ms"@, natural_datum(failure@.duration_ms)),
{
    lemma_signal_told(old(extra)@, prefix@, failure@, seq![]);
}

/// What is told of the logs is written under `logs.`.
pub proof fn lemma_set_log_evidence_data(
    extra: &mut StringMap<Datum>,
    logs: Option<&DiagnosticLogs>,
    other: Seq<char>,
)
    requires
        call_ensures(set_log_evidence_data, (extra, logs), ()),
        !starts_with(other, "logs."@),
        forall|key: Seq<char>| #[trigger]
            old(extra)@.dom().contains(key) ==> !starts_with(key, "logs."@),
    ensures
        same_under(final(extra)@, old(extra)@, other),
        logs is None ==> tells(final(extra)@, "logs.status"@, DatumView::Text("not_available"@)),
        logs matches Some(logs) ==> {
            &&& tells(
                final(extra)@,
                "logs.status"@,
                DatumView::Text(
                    if logs@.entries.len() > 0 {
                        "captured"@
                    } else {
                        "no_evidence"@
                    },
                ),
            )
            &&& tells(
                final(extra)@,
                "logs.count"@,
                DatumView::Natural(logs@.entries.len() as u64),
            )
            &&& tells(
                final(extra)@,
                "logs.selected_raw_bytes"@,
                DatumView::Natural(logs@.selected_raw_bytes),
            )
            &&& tells(final(extra)@, "logs.truncated"@, DatumView::Flag(logs@.truncated))
        },
{
    lemma_logs_told(old(extra)@, logs_view(logs), other);
}

/// What became of the screenshots is written under `attachment.`, and the file is handed on.
pub proof fn lemma_set_attachment_data(
    extra: &mut StringMap<Datum>,
    outcome: FailureAttachmentOutcome,
    attachment: Option<EventAttachment>,
    other: Seq<char>,
)
    requires
        call_ensures(set_attachment_data, (extra, outcome), attachment),
        !starts_with(other, "attachment."@),
        forall|key: Seq<char>| #[trigger]
            old(extra)@.dom().contains(key) ==> !starts_with(key, "attachment."@),
    ensures
        same_under(final(extra)@, old(extra)@, other),
        attachment is Some <==> outcome is Attached,
        outcome matches FailureAttachmentOutcome::Attached(bundle) ==> {
            &&& attachment->0.buffer@ == bundle.buffer@
            &&& attachment->0.filename@ == bundle.filename@
            &&& attachment->0.content_type@ == "application/zip"@
            &&& tells(final(extra)@, "attachment.status"@, DatumView::Text("attached"@))
        },
        outcome is NotSelected ==> tells(
            final(extra)@,
            "attachment.status"@,
            DatumView::Text("not_selected"@),
        ),
        outcome is Omitted ==> tells(
            final(extra)@,
            "attachment.status"@,
            DatumView::Text(outcome->status@),
        ) && tells(final(extra)@, "attachment.detail"@, DatumView::Text(outcome->detail@)),
{
    lemma_outcome_told(old(extra)@, outcome, other);
}

} // verus!
