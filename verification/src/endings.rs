//! The ends of tasks and of runs.

use vstd::prelude::*;
use std::collections::HashMap;
use crate::evidence::Baseline;
use crate::map::StringMap;
use crate::nodes::{count_of, lemma_nodes_leave_tasks, with_step, NodeView};
use crate::report::{Meta, Report, TaskFailureReport, TaskMeta, TraceContext};
use crate::runs::{
    meta_of, with_baseline, with_task, Run, RunState, Runtime, TaskRuntime,
};
use crate::time::{elapsed_ms, millis_between};

verus! {

broadcast use vstd::std_specs::hash::group_hash_axioms;

/// How a span or a transaction ends.
#[derive(Clone, Copy, PartialEq, Eq, Structural, Debug)]
pub enum SpanStatus {
    Success,
    Cancelled,
    InternalError,
}

/// What is told of the result of a span.
pub open spec fn label_of(status: SpanStatus) -> Seq<char> {
    match status {
        SpanStatus::Success => "success"@,
        SpanStatus::Cancelled => "cancelled"@,
        SpanStatus::InternalError => "failure"@,
    }
}

/// What is told of the result of a span.
pub fn result_label(status: SpanStatus) -> (label: &'static str)
    ensures
        label@ == label_of(status),
{
    match status {
        SpanStatus::Success => "success",
        SpanStatus::Cancelled => "cancelled",
        SpanStatus::InternalError => "failure",
    }
}

/// A span or a transaction that is over.
#[derive(Debug)]
pub struct FinishedSpan<S> {
    pub span: S,
    pub status: SpanStatus,
    pub result: &'static str,
}

impl<S> FinishedSpan<S> {
    /// The span ends as given, and tells so.
    pub open spec fn ends(self, span: S, status: SpanStatus) -> bool {
        self.span == span && self.status == status && self.result@ == label_of(status)
    }
}

fn finished<S>(span: S, status: SpanStatus) -> (ended: FinishedSpan<S>)
    ensures
        ended.ends(span, status),
{
    FinishedSpan { span, status, result: result_label(status) }
}

/// The status of a task.
pub open spec fn task_status(success: bool) -> SpanStatus {
    if success {
        SpanStatus::Success
    } else {
        SpanStatus::InternalError
    }
}

/// The run after one of its tasks ended: nothing is kept of the task but that it failed.
pub open spec fn without_task<S>(run: Run<S>, task_id: i64, success: bool) -> Run<S> {
    Run {
        children: run.children.remove(task_id),
        metas: run.metas.remove(task_id),
        last_steps: run.last_steps.remove(task_id),
        failed_nodes: run.failed_nodes.remove(task_id),
        traced_nodes: run.traced_nodes.remove(task_id),
        failure_signals: run.failure_signals.remove(task_id),
        terminal_failure_signals: run.terminal_failure_signals.remove(task_id),
        task_runtime: run.task_runtime.remove(task_id),
        active_task: if run.active_task == Some(task_id) {
            None
        } else {
            run.active_task
        },
        has_failed: run.has_failed || !success,
        ..run
    }
}

/// The value of a key, where it has one.
pub open spec fn value_of<V>(map: Map<i64, V>, key: i64) -> Option<V> {
    if map.dom().contains(key) {
        Some(map[key])
    } else {
        None
    }
}

/// The content of the runtime of a task, where there is one.
pub open spec fn runtime_of(runtime: Option<TaskRuntime>) -> Option<Runtime> {
    match runtime {
        Some(runtime) => Some(runtime@),
        None => None,
    }
}

/// What is reported of a task that failed.
///
/// Where nothing is known of its start, its evidence counts as that of the present `epoch`.
pub open spec fn failure_report<S, T>(
    run: Run<S>,
    task_id: i64,
    now: u128,
    epoch: u64,
    trace_context: Option<TraceContext<T>>,
) -> Report<T> {
    let runtime = value_of(run.task_runtime, task_id);
    Report {
        run_id: run.run_id,
        maa_task_id: task_id,
        task: meta_of(run, task_id),
        duration_ms: match runtime {
            Some(runtime) => Some(millis_between(runtime.started_at, now)),
            None => None,
        },
        started_wall_time: match runtime {
            Some(runtime) => Some(runtime.started_wall_time),
            None => None,
        },
        failure: value_of(run.failure_signals, task_id),
        terminal_failure: value_of(run.terminal_failure_signals, task_id),
        failed_node_count: count_of(run.failed_nodes, task_id),
        trace_context,
        tags: run.tags,
        event_config: run.event_config,
        evidence_start: match runtime {
            Some(runtime) => runtime.evidence_start,
            None => None,
        },
        evidence_isolated: match runtime {
            Some(runtime) => runtime.evidence_isolated,
            None => true,
        },
        evidence_epoch: match runtime {
            Some(runtime) => runtime.evidence_epoch,
            None => epoch,
        },
    }
}

/// `trace` gave `context` for the span of a task, which may have none.
pub open spec fn is_trace_of<S, T, F: Fn(&S) -> TraceContext<T>>(
    trace: F,
    span: Option<S>,
    context: Option<TraceContext<T>>,
) -> bool {
    match (span, context) {
        (Some(span), Some(context)) => call_ensures(trace, (&span,), context),
        (None, None) => true,
        _ => false,
    }
}

/// The end of a task: its span, where it has one, and a report, where it failed.
#[derive(Debug)]
pub struct TaskEnd<S, T> {
    pub span: Option<FinishedSpan<S>>,
    pub report: Option<TaskFailureReport<T>>,
}

/// `end` is the end of a task.
pub open spec fn is_end_of<S, T>(
    end: TaskEnd<S, T>,
    run: Run<S>,
    task_id: i64,
    success: bool,
    now: u128,
    epoch: u64,
    trace_context: Option<TraceContext<T>>,
) -> bool {
    &&& match value_of(run.children, task_id) {
        Some(span) => end.span matches Some(ended) && ended.ends(span, task_status(success)),
        None => end.span is None,
    }
    &&& if success {
        end.report is None
    } else {
        end.report matches Some(report) && report@ == failure_report(
            run,
            task_id,
            now,
            epoch,
            trace_context,
        )
    }
}

/// Takes a task out of its run.
pub fn end_task<S, T, F: Fn(&S) -> TraceContext<T>>(
    run: &mut RunState<S>,
    maa_task_id: i64,
    success: bool,
    now: u128,
    epoch: u64,
    trace: F,
) -> (end: TaskEnd<S, T>)
    requires
        forall|span: &S| call_requires(trace, (span,)),
    ensures
        final(run)@ == without_task(old(run)@, maa_task_id, success),
        exists|context: Option<TraceContext<T>>|
            {
                &&& #[trigger] is_trace_of(
                    trace,
                    value_of(old(run)@.children, maa_task_id),
                    context,
                )
                &&& is_end_of(end, old(run)@, maa_task_id, success, now, epoch, context)
            },
        end.report is Some <==> !success,
        end.report matches Some(report) ==> {
            &&& report@.maa_task_id == maa_task_id
            &&& report@.run_id == old(run)@.run_id
            &&& old(run)@.metas.dom().contains(maa_task_id) ==> report@.task
                == old(run)@.metas[maa_task_id]
        },
{
    let ghost given = run@;
    if !success {
        run.has_failed = true;
    }
    let task = match run.metas.remove(&maa_task_id) {
        Some(meta) => meta,
        None => TaskMeta::default(),
    };
    assert(task@ == meta_of(given, maa_task_id));
    let runtime = run.task_runtime.remove(&maa_task_id);
    assert(runtime_of(runtime) == value_of(given.task_runtime, maa_task_id));
    run.last_steps.remove(&maa_task_id);
    let failed_node_count: u32 = match run.failed_nodes.remove(&maa_task_id) {
        Some(count) => count,
        None => 0,
    };
    run.traced_nodes.remove(&maa_task_id);
    let failure = run.failure_signals.remove(&maa_task_id);
    let terminal_failure = run.terminal_failure_signals.remove(&maa_task_id);
    let was_active = match run.active_task {
        Some(id) => id == maa_task_id,
        None => false,
    };
    if was_active {
        run.active_task = None;
    }
    let span = run.children.remove(&maa_task_id);
    assert(span == value_of(given.children, maa_task_id));
    let trace_context = match &span {
        Some(span) => Some(trace(span)),
        None => None,
    };
    let ghost context = trace_context;
    assert(is_trace_of(trace, value_of(given.children, maa_task_id), context));
    assert(run@ =~= without_task(given, maa_task_id, success));
    let ended = match span {
        Some(span) => Some(
            finished(
                span,
                if success {
                    SpanStatus::Success
                } else {
                    SpanStatus::InternalError
                },
            ),
        ),
        None => None,
    };
    if success {
        return TaskEnd { span: ended, report: None };
    }
    let (duration_ms, started_wall_time, evidence_start, evidence_isolated, evidence_epoch) =
        match runtime {
        Some(runtime) => (
            Some(elapsed_ms(runtime.started_at, now)),
            Some(runtime.started_wall_time),
            runtime.evidence_start,
            runtime.evidence_isolated,
            runtime.evidence_epoch,
        ),
        None => (None, None, None, true, epoch),
    };
    let report = TaskFailureReport {
        run_id: run.run_id.clone(),
        maa_task_id,
        task,
        duration_ms,
        started_wall_time,
        failure,
        terminal_failure,
        failed_node_count,
        trace_context,
        tags: run.tags.clone(),
        event_config: run.event_config.clone(),
        evidence_start,
        evidence_isolated,
        evidence_epoch,
    };
    assert(report@ =~= failure_report(given, maa_task_id, now, epoch, context));
    TaskEnd { span: ended, report: Some(report) }
}

/// Notes that a task ended.
///
/// `now` is the reading of a clock that never goes back, in nanoseconds, and `epoch` the present
/// epoch. `trace` tells where a span stands in its trace.
pub fn on_task_finished<S, T, F: Fn(&S) -> TraceContext<T>>(
    active: bool,
    runs: &mut StringMap<RunState<S>>,
    instance_id: &str,
    maa_task_id: i64,
    success: bool,
    now: u128,
    epoch: u64,
    trace: F,
) -> (end: TaskEnd<S, T>)
    requires
        forall|span: &S| call_requires(trace, (span,)),
    ensures
        if active && old(runs)@.dom().contains(instance_id@) {
            let run = old(runs)@[instance_id@];
            &&& final(runs)@ == old(runs)@.insert(
                instance_id@,
                without_task(run, maa_task_id, success),
            )
            &&& exists|context: Option<TraceContext<T>>|
                {
                    &&& #[trigger] is_trace_of(
                        trace,
                        value_of(old(runs)@[instance_id@].children, maa_task_id),
                        context,
                    )
                    &&& is_end_of(
                        end,
                        old(runs)@[instance_id@],
                        maa_task_id,
                        success,
                        now,
                        epoch,
                        context,
                    )
                }
        } else {
            final(runs)@ == old(runs)@ && end.span is None && end.report is None
        },
{
    let ghost before = runs@;
    if !active {
        return TaskEnd { span: None, report: None };
    }
    match runs.remove(instance_id) {
        Some(run) => {
            let mut run = run;
            let ghost given = run@;
            let end = end_task(&mut run, maa_task_id, success, now, epoch, trace);
            let ghost after = run@;
            runs.insert(instance_id.to_owned(), run);
            assert(runs@ =~= before.insert(instance_id@, after));
            end
        },
        None => {
            assert(runs@ =~= before);
            TaskEnd { span: None, report: None }
        },
    }
}

/// The end of a run: the spans of the tasks that were running, its transaction and its tags.
#[derive(Debug)]
pub struct RunEnd<S> {
    pub children: Vec<FinishedSpan<S>>,
    pub transaction: FinishedSpan<S>,
    pub tags: StringMap<String>,
}

/// `ended` are the spans of the given tasks, each of which is over.
pub open spec fn are_ended<S>(
    ended: Seq<FinishedSpan<S>>,
    children: Map<i64, S>,
    ids: Seq<i64>,
    status: SpanStatus,
) -> bool {
    &&& ended.len() == ids.len()
    &&& forall|i: int|
        0 <= i < ids.len() ==> children.dom().contains(ids[i]) && (#[trigger] ended[i]).ends(
            children[ids[i]],
            status,
        )
}

/// The status that tasks get which were running when their run ended.
pub open spec fn open_status(forced: Option<SpanStatus>) -> SpanStatus {
    match forced {
        Some(status) => status,
        None => SpanStatus::Cancelled,
    }
}

/// The status of a run that ended.
pub open spec fn run_status<S>(run: Run<S>, forced: Option<SpanStatus>) -> SpanStatus {
    match forced {
        Some(status) => status,
        None => if run.has_failed {
            SpanStatus::InternalError
        } else {
            SpanStatus::Success
        },
    }
}

/// `end` is the end of a run: every span that was open is over, once, and so is the transaction.
pub open spec fn is_run_end<S>(end: RunEnd<S>, run: Run<S>, forced: Option<SpanStatus>) -> bool {
    &&& end.transaction.ends(run.transaction, run_status(run, forced))
    &&& end.tags@ == run.tags
    &&& exists|ids: Seq<i64>|
        {
            &&& ids.no_duplicates()
            &&& ids.to_set() == run.children.dom()
            &&& #[trigger] are_ended(end.children@, run.children, ids, open_status(forced))
        }
}

/// The keys of a map, in any order.
fn ids_of<V>(map: &HashMap<i64, V>) -> (ids: Vec<i64>)
    ensures
        ids@.no_duplicates(),
        ids@.to_set() == map@.dom(),
{
    let mut ids: Vec<i64> = Vec::new();
    for key in it: map.keys()
        invariant
            ids@ == it.seq().unref().take(it.index() as int),
            it.seq().no_duplicates(),
            it.seq().unref().to_set() == map@.dom(),
            it.index() == it.seq().len() ==> ids@ == it.seq().unref(),
            ids@.no_duplicates(),
    {
        let ghost before = ids@;
        assert(forall|i: int|
            0 <= i < before.len() ==> before[i] == *it.seq()[i] && #[trigger] it.seq()[i] != key);
        assert(forall|i: int| 0 <= i < before.len() ==> #[trigger] before[i] != *key);
        ids.push(*key);
        assert(it.seq().unref()[it.index() as int] == *key);
        assert(ids@ =~= it.seq().unref().take(it.index() + 1));
        assert(it.index() + 1 == it.seq().len() ==> ids@ =~= it.seq().unref());
    }
    ids
}

/// Ends the spans of the tasks that are running.
fn end_children<S>(children: HashMap<i64, S>, status: SpanStatus) -> (ended: Vec<FinishedSpan<S>>)
    ensures
        exists|ids: Seq<i64>|
            {
                &&& ids.no_duplicates()
                &&& ids.to_set() == children@.dom()
                &&& #[trigger] are_ended(ended@, children@, ids, status)
            },
{
    let ghost all = children@;
    let mut children = children;
    let ids = ids_of(&children);
    let mut ended: Vec<FinishedSpan<S>> = Vec::new();
    let mut index: usize = 0;
    while index < ids.len()
        invariant
            index <= ids@.len(),
            ids@.no_duplicates(),
            ids@.to_set() == all.dom(),
            ended@.len() == index,
            forall|i: int|
                0 <= i < index ==> all.dom().contains(ids@[i]) && (#[trigger] ended@[i]).ends(
                    all[ids@[i]],
                    status,
                ),
            forall|i: int|
                index <= i < ids@.len() ==> children@.dom().contains(#[trigger] ids@[i])
                    && children@[ids@[i]] == all[ids@[i]],
        decreases ids@.len() - index,
    {
        let id: i64 = ids[index];
        assert(ids@.to_set().contains(id)) by {
            assert(ids@[index as int] == id);
        }
        match children.remove(&id) {
            Some(span) => {
                ended.push(finished(span, status));
            },
            None => {
                assert(children@.dom().contains(ids@[index as int]));
            },
        }
        index += 1;
    }
    assert(are_ended(ended@, all, ids@, status));
    ended
}

/// Ends the run of an instance, where it has one.
///
/// A status that is forced is that of everything that was still open. Without one, the tasks that
/// were running count as cancelled, and the run as failed where a task failed.
pub fn finish_run<S>(
    runs: &mut StringMap<RunState<S>>,
    instance_id: &str,
    forced_status: Option<SpanStatus>,
) -> (end: Option<RunEnd<S>>)
    ensures
        final(runs)@ == old(runs)@.remove(instance_id@),
        end is Some <==> old(runs)@.dom().contains(instance_id@),
        end matches Some(end) ==> is_run_end(end, old(runs)@[instance_id@], forced_status),
{
    let run = match runs.remove(instance_id) {
        Some(run) => run,
        None => {
            return None;
        },
    };
    let ghost given = run@;
    let status = match forced_status {
        Some(status) => status,
        None => if run.has_failed {
            SpanStatus::InternalError
        } else {
            SpanStatus::Success
        },
    };
    let child_status = match forced_status {
        Some(status) => status,
        None => SpanStatus::Cancelled,
    };
    let end = RunEnd {
        children: end_children(run.children, child_status),
        transaction: finished(run.transaction, status),
        tags: run.tags,
    };
    proof {
        let ids = choose|ids: Seq<i64>|
            {
                &&& ids.no_duplicates()
                &&& ids.to_set() == given.children.dom()
                &&& #[trigger] are_ended(end.children@, given.children, ids, child_status)
            };
        assert(are_ended(end.children@, given.children, ids, open_status(forced_status)));
        assert(is_run_end(end, given, forced_status));
    }
    Some(end)
}

/// Ends a run that came to its end.
pub fn on_run_finished<S>(runs: &mut StringMap<RunState<S>>, instance_id: &str) -> (end: Option<
    RunEnd<S>,
>)
    ensures
        final(runs)@ == old(runs)@.remove(instance_id@),
        end is Some <==> old(runs)@.dom().contains(instance_id@),
        end matches Some(end) ==> is_run_end(end, old(runs)@[instance_id@], None),
{
    finish_run(runs, instance_id, None)
}

/// Ends a run that the user stopped.
pub fn on_run_cancelled<S>(runs: &mut StringMap<RunState<S>>, instance_id: &str) -> (end: Option<
    RunEnd<S>,
>)
    ensures
        final(runs)@ == old(runs)@.remove(instance_id@),
        end is Some <==> old(runs)@.dom().contains(instance_id@),
        end matches Some(end) ==> is_run_end(
            end,
            old(runs)@[instance_id@],
            Some(SpanStatus::Cancelled),
        ),
{
    finish_run(runs, instance_id, Some(SpanStatus::Cancelled))
}

/// The tasks that have a span are those that have started and not ended, and the active one is among
/// them.
pub open spec fn is_consistent<S>(run: Run<S>) -> bool {
    &&& run.children.dom() == run.task_runtime.dom()
    &&& run.active_task matches Some(id) ==> run.children.dom().contains(id)
}

/// A run is consistent from its start on, whatever happens to it.
pub proof fn lemma_runs_stay_consistent<S>(
    run: Run<S>,
    task_id: i64,
    span: S,
    runtime: Runtime,
    start: Baseline,
    meta: Meta,
    node: NodeView,
    node_id: i64,
    now: u128,
    success: bool,
)
    requires
        is_consistent(run),
    ensures
        is_consistent(
            Run::started(run.run_id, run.transaction, run.tags, run.event_config),
        ),
        is_consistent(Run { metas: run.metas.insert(task_id, meta), ..run }),
        is_consistent(with_task(run, task_id, span, runtime)),
        is_consistent(with_baseline(run, task_id, start)),
        is_consistent(with_step(run, task_id, node_id, now)),
        is_consistent(node.outcome(run, now).0),
        is_consistent(without_task(run, task_id, success)),
{
    assert(with_task(run, task_id, span, runtime).children.dom() =~= with_task(
        run,
        task_id,
        span,
        runtime,
    ).task_runtime.dom());
    assert(with_baseline(run, task_id, start).children.dom() =~= with_baseline(
        run,
        task_id,
        start,
    ).task_runtime.dom());
    assert(without_task(run, task_id, success).children.dom() =~= without_task(
        run,
        task_id,
        success,
    ).task_runtime.dom());
    let started = Run::started(run.run_id, run.transaction, run.tags, run.event_config);
    assert(started.children.dom() =~= started.task_runtime.dom());
    lemma_nodes_leave_tasks(run, node, now);
}

/// Nothing is left of a task that ended, and nothing of any other task changes.
pub proof fn lemma_ended_task_forgotten<S>(run: Run<S>, task_id: i64, success: bool, other: i64)
    requires
        other != task_id,
    ensures
        ({
            let after = without_task(run, task_id, success);
            &&& !after.children.dom().contains(task_id)
            &&& !after.metas.dom().contains(task_id)
            &&& !after.last_steps.dom().contains(task_id)
            &&& !after.failed_nodes.dom().contains(task_id)
            &&& !after.traced_nodes.dom().contains(task_id)
            &&& !after.failure_signals.dom().contains(task_id)
            &&& !after.terminal_failure_signals.dom().contains(task_id)
            &&& !after.task_runtime.dom().contains(task_id)
            &&& after.active_task != Some(task_id)
            &&& value_of(after.children, other) == value_of(run.children, other)
            &&& value_of(after.metas, other) == value_of(run.metas, other)
            &&& value_of(after.failure_signals, other) == value_of(run.failure_signals, other)
            &&& value_of(after.task_runtime, other) == value_of(run.task_runtime, other)
            &&& run.has_failed ==> after.has_failed
        }),
{
}

} // verus!
