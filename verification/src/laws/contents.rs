//! What the values that are handed over hold, field by field.

use vstd::prelude::*;
use crate::config::TelemetryInitConfig;
use crate::discovery::{Listed, ListedView};
use crate::event::{Datum, DatumView, EventAttachment, FailureEvent};
use crate::evidence::{ImageEntry, LogSlice, SelectedEntries, TaskEvidenceStart};
use crate::logs::{DiagnosticLog, DiagnosticLogs};
use crate::nodes::{NodeEvent, NodeSpan};
use crate::path::{ComponentView, OsName, OsNameView, PathComponent};
use crate::records::{DiagnosticLogContext, LogRecord};
use crate::report::{FailureEventConfig, FailureSignal, TaskFailureReport, TaskMeta};
use crate::runs::{RunState, SpanPlan, TaskRuntime};
use crate::selection::{TaskEvidenceSelection, TaskImageRefresh};

verus! {

/// A configuration holds what its fields do.
pub proof fn lemma_telemetry_init_config(value: TelemetryInitConfig)
    ensures
        value@.dsn == value.dsn@,
        value@.enabled == value.enabled,
        value@.release == value.release@,
        value@.environment == value.environment@,
        value@.tracing == value.tracing,
        value@.traces_sample_rate == value.traces_sample_rate,
        value@.failure_attachments_sample_rate == value.failure_attachments_sample_rate,
        value@.app_name == value.app_name@,
        value@.app_version == value.app_version@,
        value@.mxu_version == value.mxu_version@,
{
}

/// A file that goes with an event holds what its fields do.
pub proof fn lemma_event_attachment(value: EventAttachment)
    ensures
        value@.buffer == value.buffer@,
        value@.filename == value.filename@,
        value@.content_type == value.content_type@,
{
}

/// An event holds what its fields do.
pub proof fn lemma_failure_event<T>(value: FailureEvent<T>, at: int)
    ensures
        value@.message == value.message@,
        value@.logger == value.logger@,
        value@.transaction == value.transaction@,
        value@.fingerprint.len() == value.fingerprint@.len(),
        0 <= at < value.fingerprint@.len() ==> value@.fingerprint[at] == value.fingerprint@[at]@,
        value@.tags == value.tags@,
        value@.extra == value.extra@,
        value@.trace == value.trace,
        value@.attachment is Some <==> value.attachment is Some,
        value.attachment matches Some(held) ==> value@.attachment == Some(held@),
        value@.task_name == value.task_name@,
        value@.failure_node == value.failure_node@,
        value@.failure_stage == value.failure_stage@,
{
}

/// A baseline holds what its fields do.
pub proof fn lemma_task_evidence_start(value: TaskEvidenceStart, at: int)
    ensures
        value@.root.len() == value.root@.len(),
        0 <= at < value.root@.len() ==> value@.root[at] == value.root@[at]@,
        value@.started_at == value.started_at,
        value@.log_lengths == value.log_lengths@,
        value@.existing_images == value.existing_images@,
        value@.warnings.len() == value.warnings@.len(),
        0 <= at < value.warnings@.len() ==> value@.warnings[at] == value.warnings@[at]@,
{
}

/// A range of a log holds what its fields do.
pub proof fn lemma_log_slice<H>(value: LogSlice<H>)
    ensures
        value@.source == value.source,
        value@.archive_name == value.archive_name@,
        value@.start == value.start,
        value@.end == value.end,
{
}

/// A screenshot holds what its fields do.
pub proof fn lemma_image_entry<H>(value: ImageEntry<H>)
    ensures
        value@.source == value.source,
        value@.source_path == value.source_path@,
        value@.archive_name == value.archive_name@,
        value@.len == value.len,
        value@.stamp == value.stamp,
{
}

/// What was selected holds what its fields do.
pub proof fn lemma_selected_entries<H>(value: SelectedEntries<H>, at: int)
    ensures
        value@.logs.len() == value.logs@.len(),
        0 <= at < value.logs@.len() ==> value@.logs[at] == value.logs@[at]@,
        value@.images.len() == value.images@.len(),
        0 <= at < value.images@.len() ==> value@.images[at] == value.images@[at]@,
        value@.warnings.len() == value.warnings@.len(),
        0 <= at < value.warnings@.len() ==> value@.warnings[at] == value.warnings@[at]@,
{
}

/// A log holds what its fields do.
pub proof fn lemma_diagnostic_log(value: DiagnosticLog)
    ensures
        value@.source == value.source@,
        value@.kind == value.kind@,
        value@.content == value.content@,
        value@.raw_bytes == value.raw_bytes,
{
}

/// The logs of a task holds what its fields do.
pub proof fn lemma_diagnostic_logs(value: DiagnosticLogs, at: int)
    ensures
        value@.entries.len() == value.entries@.len(),
        0 <= at < value.entries@.len() ==> value@.entries[at] == value.entries@[at]@,
        value@.selected_raw_bytes == value.selected_raw_bytes,
        value@.truncated == value.truncated,
        value@.warnings.len() == value.warnings@.len(),
        0 <= at < value.warnings@.len() ==> value@.warnings[at] == value.warnings@[at]@,
{
}

/// The span of a node holds what its fields do.
pub proof fn lemma_node_span(value: NodeSpan)
    ensures
        value@.owner_id == value.owner_id,
        value@.operation == value.operation@,
        value@.description == value.description@,
        value@.failed == value.failed,
        value@.data == value.data@,
{
}

/// What a node reports holds what its fields do.
pub proof fn lemma_node_event<'a>(value: NodeEvent<'a>)
    ensures
        value@.message == value.message@,
        value@.task_id == value.task_id,
        value@.node_id == value.node_id,
        value@.search is Some <==> value.search_node is Some,
        value.search_node matches Some(held) ==> value@.search == Some(held@),
        value@.hit is Some <==> value.hit_node is Some,
        value.hit_node matches Some(held) ==> value@.hit == Some(held@),
{
}

/// A record holds what its fields do.
pub proof fn lemma_log_record(value: LogRecord, at: int)
    ensures
        value@.level == value.level,
        value@.body == value.body@,
        value@.trace_id == value.trace_id,
        value@.timestamp == value.timestamp,
        value@.attributes.len() == value.attributes@.len(),
        0 <= at < value.attributes@.len() ==> value@.attributes[at].0 == value.attributes@[at].0@ && value@.attributes[at].1
            == value.attributes@[at].1@,
{
}

/// What records are linked to holds what its fields do.
pub proof fn lemma_diagnostic_log_context<'a>(value: DiagnosticLogContext<'a>)
    ensures
        value@.event_id == value.event_id@,
        value@.run_id == value.run_id@,
        value@.maa_task_id == value.maa_task_id,
        value@.task_name == value.task_name@,
        value@.failure_node == value.failure_node@,
        value@.failure_stage == value.failure_stage@,
        value@.trace_id == value.trace_id,
        value@.span_id == value.span_id,
{
}

/// What was told of a task holds what its fields do.
pub proof fn lemma_task_meta(value: TaskMeta)
    ensures
        value@.name == value.name@,
        value@.options == value.options@,
{
}

/// A node that failed holds what its fields do.
pub proof fn lemma_failure_signal(value: FailureSignal)
    ensures
        value@.node == value.node@,
        value@.stage == value.stage@,
        value@.source_task_id == value.source_task_id,
        value@.node_id == value.node_id,
        value@.duration_ms == value.duration_ms,
{
}

/// What an event tells of the project holds what its fields do.
pub proof fn lemma_failure_event_config(value: FailureEventConfig)
    ensures
        value@.app_name == value.app_name@,
        value@.app_version == value.app_version@,
        value@.mxu_version == value.mxu_version@,
        value@.failure_attachments_sample_rate == value.failure_attachments_sample_rate,
{
}

/// A report holds what its fields do.
pub proof fn lemma_task_failure_report<T>(value: TaskFailureReport<T>)
    ensures
        value@.run_id == value.run_id@,
        value@.maa_task_id == value.maa_task_id,
        value@.task == value.task@,
        value@.duration_ms == value.duration_ms,
        value@.started_wall_time == value.started_wall_time,
        value@.failure is Some <==> value.failure is Some,
        value.failure matches Some(held) ==> value@.failure == Some(held@),
        value@.terminal_failure is Some <==> value.terminal_failure is Some,
        value.terminal_failure matches Some(held) ==> value@.terminal_failure == Some(held@),
        value@.failed_node_count == value.failed_node_count,
        value@.trace_context == value.trace_context,
        value@.tags == value.tags@,
        value@.event_config == value.event_config@,
        value@.evidence_start is Some <==> value.evidence_start is Some,
        value.evidence_start matches Some(held) ==> value@.evidence_start == Some(held@),
        value@.evidence_isolated == value.evidence_isolated,
        value@.evidence_epoch == value.evidence_epoch,
{
}

/// When a task started and what its evidence is measured against holds what its fields do.
pub proof fn lemma_task_runtime(value: TaskRuntime)
    ensures
        value@.started_at == value.started_at,
        value@.started_wall_time == value.started_wall_time,
        value@.evidence_start is Some <==> value.evidence_start is Some,
        value.evidence_start matches Some(held) ==> value@.evidence_start == Some(held@),
        value@.evidence_isolated == value.evidence_isolated,
        value@.evidence_epoch == value.evidence_epoch,
{
}

/// A run holds what its fields do.
pub proof fn lemma_run_state<S>(value: RunState<S>, id: i64)
    ensures
        value@.run_id == value.run_id@,
        value@.transaction == value.transaction,
        value@.children == value.children@,
        value@.metas.dom().contains(id) <==> value.metas@.dom().contains(id),
        value.metas@.dom().contains(id) ==> value@.metas[id] == value.metas@[id]@,
        value@.last_steps == value.last_steps@,
        value@.failed_nodes == value.failed_nodes@,
        value@.traced_nodes == value.traced_nodes@,
        value@.failure_signals.dom().contains(id) <==> value.failure_signals@.dom().contains(id),
        value.failure_signals@.dom().contains(id) ==> value@.failure_signals[id] == value.failure_signals@[id]@,
        value@.terminal_failure_signals.dom().contains(id) <==> value.terminal_failure_signals@.dom().contains(id),
        value.terminal_failure_signals@.dom().contains(id) ==> value@.terminal_failure_signals[id] == value.terminal_failure_signals@[id]@,
        value@.task_runtime.dom().contains(id) <==> value.task_runtime@.dom().contains(id),
        value.task_runtime@.dom().contains(id) ==> value@.task_runtime[id] == value.task_runtime@[id]@,
        value@.active_task == value.active_task,
        value@.tags == value.tags@,
        value@.has_failed == value.has_failed,
        value@.event_config == value.event_config@,
{
}

/// A span that is to be started holds what its fields do.
pub proof fn lemma_span_plan(value: SpanPlan)
    ensures
        value@.operation == value.operation@,
        value@.description == value.description@,
        value@.data == value.data@,
{
}

/// A selection holds what its fields do.
pub proof fn lemma_task_evidence_selection<H>(value: TaskEvidenceSelection<H>, at: int)
    ensures
        value@.logs.len() == value.logs@.len(),
        0 <= at < value.logs@.len() ==> value@.logs[at] == value.logs@[at]@,
        value@.images.len() == value.images@.len(),
        0 <= at < value.images@.len() ==> value@.images[at] == value.images@[at]@,
        value@.warnings.len() == value.warnings@.len(),
        0 <= at < value.warnings@.len() ==> value@.warnings[at] == value.warnings@[at]@,
        value@.image_root.len() == value.image_root@.len(),
        0 <= at < value.image_root@.len() ==> value@.image_root[at] == value.image_root@[at]@,
        value@.image_started_at == value.image_started_at,
        value@.existing_images == value.existing_images@,
{
}

/// A refresh holds what its fields do.
pub proof fn lemma_task_image_refresh<H>(value: TaskImageRefresh<H>, at: int)
    ensures
        value@.images.len() == value.images@.len(),
        0 <= at < value.images@.len() ==> value@.images[at] == value.images@[at]@,
        value@.warnings.len() == value.warnings@.len(),
        0 <= at < value.warnings@.len() ==> value@.warnings[at] == value.warnings@[at]@,
{
}

/// An item of a listing is what it was listed as.
pub proof fn lemma_listed(item: Listed)
    ensures
        item is Unreadable <==> item@ is Unreadable,
        item is TypeUnknown <==> item@ is TypeUnknown,
        item is Symlink <==> item@ is Symlink,
        item is Special <==> item@ is Special,
        item matches Listed::Directory(name) ==> item@ == ListedView::Directory(name@),
        item matches Listed::File(name) ==> item@ == ListedView::File(name@),
{
}

/// A datum is what it was given as.
pub proof fn lemma_datum(datum: Datum)
    ensures
        datum matches Datum::Text(text) ==> datum@ == DatumView::Text(text@),
        datum matches Datum::Integer(value) ==> datum@ == DatumView::Integer(value),
        datum matches Datum::Natural(value) ==> datum@ == DatumView::Natural(value),
        datum matches Datum::Flag(value) ==> datum@ == DatumView::Flag(value),
{
}

/// A component of a path is of the kind that it was read as, and a name is a text where it is valid
/// Unicode.
pub proof fn lemma_component(component: PathComponent, name: OsName)
    ensures
        component is RootDir <==> component@ is RootDir,
        component is CurDir <==> component@ is CurDir,
        component is ParentDir <==> component@ is ParentDir,
        component is Prefix <==> component@ is Prefix,
        component matches PathComponent::Normal(name) ==> component@ == ComponentView::Normal(name@),
        name matches OsName::Text(text) ==> name@ == OsNameView::Text(text@),
        name is Text <==> name@ is Text,
{
}

} // verus!
