//! What is known of a failed task when it is reported.

use vstd::prelude::*;
use crate::bundle::{ImageBundle, ImageBundleError};
use crate::evidence::{Baseline, TaskEvidenceStart};
use crate::map::StringMap;
use crate::sampling::SampleRate;
use crate::text::same_text;
use crate::time::Timestamp;

verus! {

/// What is told of a task when it is posted: its name, and a summary of its options.
#[derive(Debug)]
pub struct TaskMeta {
    pub name: String,
    pub options: StringMap<String>,
}

/// The content of the description of a task.
#[verifier::ext_equal]
pub struct Meta {
    pub name: Seq<char>,
    pub options: Map<Seq<char>, Seq<char>>,
}

impl Meta {
    /// The description of a task of which nothing was told.
    pub open spec fn unknown() -> Meta {
        Meta { name: seq![], options: Map::empty() }
    }
}

impl View for TaskMeta {
    type V = Meta;

    open spec fn view(&self) -> Meta {
        Meta { name: self.name@, options: self.options@ }
    }
}

impl Default for TaskMeta {
    fn default() -> (meta: Self)
        ensures
            meta@ == Meta::unknown(),
    {
        let meta = TaskMeta { name: String::new(), options: StringMap::new() };
        assert(meta@ =~= Meta::unknown());
        meta
    }
}

impl Clone for TaskMeta {
    fn clone(&self) -> (copy: Self)
        ensures
            copy@ == self@,
    {
        TaskMeta { name: self.name.clone(), options: self.options.clone() }
    }
}

/// A node that failed.
#[derive(Debug)]
pub struct FailureSignal {
    pub node: String,
    pub stage: String,
    pub source_task_id: i64,
    pub node_id: Option<i64>,
    pub duration_ms: Option<u64>,
}

/// The content of a failure signal.
#[verifier::ext_equal]
pub struct Signal {
    pub node: Seq<char>,
    pub stage: Seq<char>,
    pub source_task_id: i64,
    pub node_id: Option<i64>,
    pub duration_ms: Option<u64>,
}

impl View for FailureSignal {
    type V = Signal;

    open spec fn view(&self) -> Signal {
        Signal {
            node: self.node@,
            stage: self.stage@,
            source_task_id: self.source_task_id,
            node_id: self.node_id,
            duration_ms: self.duration_ms,
        }
    }
}

impl Clone for FailureSignal {
    fn clone(&self) -> (copy: Self)
        ensures
            copy@ == self@,
    {
        FailureSignal {
            node: self.node.clone(),
            stage: self.stage.clone(),
            source_task_id: self.source_task_id,
            node_id: self.node_id,
            duration_ms: self.duration_ms,
        }
    }
}

impl FailureSignal {
    /// Whether two signals are the same.
    pub fn same(&self, other: &FailureSignal) -> (same: bool)
        ensures
            same == (self@ == other@),
    {
        let same_ids = match (self.node_id, other.node_id) {
            (Some(left), Some(right)) => left == right,
            (None, None) => true,
            _ => false,
        };
        let same_durations = match (self.duration_ms, other.duration_ms) {
            (Some(left), Some(right)) => left == right,
            (None, None) => true,
            _ => false,
        };
        same_text(self.node.as_str(), other.node.as_str()) && same_text(
            self.stage.as_str(),
            other.stage.as_str(),
        ) && self.source_task_id == other.source_task_id && same_ids && same_durations
    }
}

/// The content of a failure signal, where there is one.
pub open spec fn signal_view(signal: Option<FailureSignal>) -> Option<Signal> {
    match signal {
        Some(signal) => Some(signal@),
        None => None,
    }
}

/// The project that a run belongs to, and how its screenshots are sampled.
#[derive(Debug)]
pub struct FailureEventConfig {
    pub app_name: String,
    pub app_version: String,
    pub mxu_version: String,
    pub failure_attachments_sample_rate: SampleRate,
}

/// The content of the configuration of a run.
#[verifier::ext_equal]
pub struct EventConfig {
    pub app_name: Seq<char>,
    pub app_version: Seq<char>,
    pub mxu_version: Seq<char>,
    pub failure_attachments_sample_rate: SampleRate,
}

impl EventConfig {
    /// Nothing is known of the project, and nothing is sampled.
    pub open spec fn unknown() -> EventConfig {
        EventConfig {
            app_name: seq![],
            app_version: seq![],
            mxu_version: seq![],
            failure_attachments_sample_rate: SampleRate { bits: 0 },
        }
    }
}

impl View for FailureEventConfig {
    type V = EventConfig;

    open spec fn view(&self) -> EventConfig {
        EventConfig {
            app_name: self.app_name@,
            app_version: self.app_version@,
            mxu_version: self.mxu_version@,
            failure_attachments_sample_rate: self.failure_attachments_sample_rate,
        }
    }
}

impl Default for FailureEventConfig {
    fn default() -> (config: Self)
        ensures
            config@ == EventConfig::unknown(),
    {
        let config = FailureEventConfig {
            app_name: String::new(),
            app_version: String::new(),
            mxu_version: String::new(),
            failure_attachments_sample_rate: SampleRate { bits: 0 },
        };
        assert(config@ =~= EventConfig::unknown());
        config
    }
}

impl Clone for FailureEventConfig {
    fn clone(&self) -> (copy: Self)
        ensures
            copy@ == self@,
    {
        FailureEventConfig {
            app_name: self.app_name.clone(),
            app_version: self.app_version.clone(),
            mxu_version: self.mxu_version.clone(),
            failure_attachments_sample_rate: self.failure_attachments_sample_rate,
        }
    }
}

/// Where a span stands in its trace, and all that the tracer tells of it.
#[derive(Debug)]
pub struct TraceContext<T> {
    pub trace_id: [u8; 16],
    pub span_id: [u8; 8],
    pub detail: T,
}

impl<T: Clone> Clone for TraceContext<T> {
    fn clone(&self) -> (copy: Self)
        ensures
            copy.trace_id == self.trace_id,
            copy.span_id == self.span_id,
            cloned(self.detail, copy.detail),
    {
        TraceContext {
            trace_id: self.trace_id,
            span_id: self.span_id,
            detail: self.detail.clone(),
        }
    }
}

/// A failed task, ready to be reported.
#[derive(Debug)]
pub struct TaskFailureReport<T> {
    pub run_id: String,
    pub maa_task_id: i64,
    pub task: TaskMeta,
    pub duration_ms: Option<u64>,
    pub started_wall_time: Option<Timestamp>,
    pub failure: Option<FailureSignal>,
    pub terminal_failure: Option<FailureSignal>,
    pub failed_node_count: u32,
    pub trace_context: Option<TraceContext<T>>,
    pub tags: StringMap<String>,
    pub event_config: FailureEventConfig,
    pub evidence_start: Option<TaskEvidenceStart>,
    pub evidence_isolated: bool,
    pub evidence_epoch: u64,
}

/// The content of a report.
#[verifier::ext_equal]
pub struct Report<T> {
    pub run_id: Seq<char>,
    pub maa_task_id: i64,
    pub task: Meta,
    pub duration_ms: Option<u64>,
    pub started_wall_time: Option<Timestamp>,
    pub failure: Option<Signal>,
    pub terminal_failure: Option<Signal>,
    pub failed_node_count: u32,
    pub trace_context: Option<TraceContext<T>>,
    pub tags: Map<Seq<char>, Seq<char>>,
    pub event_config: EventConfig,
    pub evidence_start: Option<Baseline>,
    pub evidence_isolated: bool,
    pub evidence_epoch: u64,
}

/// The content of a baseline, where there is one.
pub open spec fn start_view(start: Option<TaskEvidenceStart>) -> Option<Baseline> {
    match start {
        Some(start) => Some(start@),
        None => None,
    }
}

impl<T> View for TaskFailureReport<T> {
    type V = Report<T>;

    open spec fn view(&self) -> Report<T> {
        Report {
            run_id: self.run_id@,
            maa_task_id: self.maa_task_id,
            task: self.task@,
            duration_ms: self.duration_ms,
            started_wall_time: self.started_wall_time,
            failure: signal_view(self.failure),
            terminal_failure: signal_view(self.terminal_failure),
            failed_node_count: self.failed_node_count,
            trace_context: self.trace_context,
            tags: self.tags@,
            event_config: self.event_config@,
            evidence_start: start_view(self.evidence_start),
            evidence_isolated: self.evidence_isolated,
            evidence_epoch: self.evidence_epoch,
        }
    }
}

/// What became of the screenshots of a failed task.
#[derive(Debug)]
pub enum FailureAttachmentOutcome {
    /// They are not sent.
    NotSelected,
    /// They go with the event.
    Attached(ImageBundle),
    /// They should have been sent but are not.
    Omitted {
        status: &'static str,
        detail: String,
        selected_raw_bytes: Option<u64>,
        bundle_bytes: Option<usize>,
    },
}

impl FailureAttachmentOutcome {
    /// The screenshots are left out for the given reason, and nothing is told of their size.
    pub open spec fn is_omitted(self, expected: Seq<char>, reason: Seq<char>) -> bool {
        self matches FailureAttachmentOutcome::Omitted {
            status,
            detail,
            selected_raw_bytes,
            bundle_bytes,
        } && status@ == expected && detail@ == reason && selected_raw_bytes is None
            && bundle_bytes is None
    }

    /// The screenshots are left out for the given reason.
    pub(crate) fn omitted(status: &'static str, detail: &str) -> (outcome: Self)
        ensures
            outcome.is_omitted(status@, detail@),
    {
        FailureAttachmentOutcome::Omitted {
            status,
            detail: detail.to_owned(),
            selected_raw_bytes: None,
            bundle_bytes: None,
        }
    }
}

/// What becomes of the screenshots when there is no ZIP file of them.
pub open spec fn is_outcome_of(outcome: FailureAttachmentOutcome, error: ImageBundleError) -> bool {
    match error {
        ImageBundleError::NoEvidence => outcome.is_omitted("no_evidence"@, error.description()),
        ImageBundleError::TooLarge { selected_raw_bytes: raw, bundle_bytes: size } => {
            outcome matches FailureAttachmentOutcome::Omitted {
                status,
                detail,
                selected_raw_bytes,
                bundle_bytes,
            } && status@ == (if size is Some {
                "bundle_too_large"@
            } else {
                "raw_too_large"@
            }) && detail@ == error.description() && selected_raw_bytes == Some(raw) && bundle_bytes
                == size
        },
        ImageBundleError::Io(_) => outcome.is_omitted("build_failed"@, error.description()),
    }
}

/// What becomes of the screenshots when there is no ZIP file of them.
pub fn attachment_error_outcome(error: ImageBundleError) -> (outcome: FailureAttachmentOutcome)
    ensures
        is_outcome_of(outcome, error),
{
    let detail = error.describe();
    match error {
        ImageBundleError::NoEvidence => FailureAttachmentOutcome::omitted(
            "no_evidence",
            detail.as_str(),
        ),
        ImageBundleError::TooLarge { selected_raw_bytes, bundle_bytes } => {
            FailureAttachmentOutcome::Omitted {
                status: if bundle_bytes.is_some() {
                    "bundle_too_large"
                } else {
                    "raw_too_large"
                },
                detail,
                selected_raw_bytes: Some(selected_raw_bytes),
                bundle_bytes,
            }
        },
        ImageBundleError::Io(_) => FailureAttachmentOutcome::omitted(
            "build_failed",
            detail.as_str(),
        ),
    }
}

} // verus!
