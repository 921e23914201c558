//! Runs and their tasks, from their start to their end.

use vstd::prelude::*;
use crate::endings::{
    are_ended, end_task, failure_report, finish_run, is_end_of, is_run_end, label_of,
    on_run_cancelled, on_run_finished, on_task_finished, result_label, without_task, RunEnd,
    SpanStatus, TaskEnd,
};
use crate::event::{Datum, DatumView};
use crate::evidence::{Baseline, TaskEvidenceStart};
use crate::map::StringMap;
use crate::nodes::{after_nodes, lemma_nodes_leave_tasks, NodeView};
use crate::report::{EventConfig, FailureEventConfig, Meta, TaskMeta, TraceContext};
use crate::runs::{
    begin_posting, controller_view, describe_run, evidence_isolated_for_ids, keys, on_run_start,
    on_task_start, record_evidence_start, run_data, run_tags, runs_alone, task_span, with_baseline,
    with_task, ControllerInfo, PostingGuard, Run, RunDescription, RunState, Runtime, Span, SpanPlan,
};
use crate::text::{joined, starts_with, views};
use crate::time::{millis_between, Timestamp};

verus! {

/// What the report of a failed task says, field by field, in terms of its run: which run and task it
/// was and what was told of it when it was posted, when it started and how long it took, what failed
/// first and last and how often, and what its evidence is measured against.
pub proof fn lemma_report<S, T>(
    run: Run<S>,
    task_id: i64,
    now: u128,
    epoch: u64,
    trace_context: Option<TraceContext<T>>,
)
    ensures
        ({
            let report = failure_report(run, task_id, now, epoch, trace_context);
            &&& report.run_id == run.run_id
            &&& report.maa_task_id == task_id
            &&& run.metas.dom().contains(task_id) ==> report.task.name == run.metas[task_id].name
                && report.task.options == run.metas[task_id].options
            &&& !run.metas.dom().contains(task_id) ==> report.task.name.len() == 0
                && report.task.options.dom() =~= Set::<Seq<char>>::empty()
            &&& report.trace_context == trace_context
            &&& report.tags == run.tags
            &&& report.event_config == run.event_config
            &&& report.failure is Some <==> run.failure_signals.dom().contains(task_id)
            &&& report.failure matches Some(signal) ==> signal == run.failure_signals[task_id]
            &&& report.terminal_failure is Some <==> run.terminal_failure_signals.dom().contains(
                task_id,
            )
            &&& report.terminal_failure matches Some(signal) ==> signal
                == run.terminal_failure_signals[task_id]
            &&& run.failed_nodes.dom().contains(task_id) ==> report.failed_node_count
                == run.failed_nodes[task_id]
            &&& !run.failed_nodes.dom().contains(task_id) ==> report.failed_node_count == 0
            &&& run.task_runtime.dom().contains(task_id) ==> {
                let runtime = run.task_runtime[task_id];
                &&& report.duration_ms == Some(millis_between(runtime.started_at, now))
                &&& report.started_wall_time == Some(runtime.started_wall_time)
                &&& report.evidence_start == runtime.evidence_start
                &&& report.evidence_isolated == runtime.evidence_isolated
                &&& report.evidence_epoch == runtime.evidence_epoch
            }
            &&& !run.task_runtime.dom().contains(task_id) ==> {
                &&& report.duration_ms is None
                &&& report.started_wall_time is None
                &&& report.evidence_start is None
                &&& report.evidence_isolated
                &&& report.evidence_epoch == epoch
            }
        }),
{
}

proof fn lemma_nodes_keep<S>(run: Run<S>, nodes: Seq<(NodeView, u128)>)
    ensures
        ({
            let after = after_nodes(run, nodes).0;
            &&& after.metas == run.metas
            &&& after.children == run.children
            &&& after.task_runtime == run.task_runtime
            &&& after.run_id == run.run_id
            &&& after.tags == run.tags
            &&& after.event_config == run.event_config
            &&& after.has_failed == run.has_failed
        }),
    decreases nodes.len(),
{
    if nodes.len() > 0 {
        lemma_nodes_keep(run, nodes.drop_last());
        let before = after_nodes(run, nodes.drop_last()).0;
        lemma_nodes_leave_tasks(before, nodes.last().0, nodes.last().1);
    }
}

/// A task that is posted, starts, has its baseline taken, runs through any nodes and fails is reported
/// under the name and with the options that it was posted with, with the baseline that was taken, and
/// with the time since it started. Its span ends as failed, and where it succeeds instead, nothing is
/// reported and its span ends as a success.
pub proof fn lemma_task_life<S, T>(
    run: Run<S>,
    task_id: i64,
    meta: Meta,
    span: S,
    runtime: Runtime,
    start: Baseline,
    nodes: Seq<(NodeView, u128)>,
    success: bool,
    now: u128,
    epoch: u64,
    context: Option<TraceContext<T>>,
    end: TaskEnd<S, T>,
)
    requires
        ({
            let posted = Run { metas: run.metas.insert(task_id, meta), ..run };
            let started = with_task(posted, task_id, span, runtime);
            let measured = with_baseline(started, task_id, start);
            let last = after_nodes(measured, nodes).0;
            is_end_of(end, last, task_id, success, now, epoch, context)
        }),
    ensures
        end.span matches Some(ended) && ended.span == span && (success ==> ended.status is Success
            && ended.result@ == "success"@) && (!success ==> ended.status is InternalError
            && ended.result@ == "failure"@),
        success ==> end.report is None,
        !success ==> end.report is Some,
        end.report matches Some(report) ==> {
            &&& report@.task.name == meta.name
            &&& report@.task.options == meta.options
            &&& report@.run_id == run.run_id
            &&& report@.maa_task_id == task_id
            &&& report@.tags == run.tags
            &&& report@.event_config == run.event_config
            &&& report@.duration_ms == Some(millis_between(runtime.started_at, now))
            &&& report@.started_wall_time == Some(runtime.started_wall_time)
            &&& report@.evidence_start == Some(start)
            &&& report@.evidence_isolated == runtime.evidence_isolated
            &&& report@.evidence_epoch == runtime.evidence_epoch
            &&& report@.trace_context == context
        },
{
    let posted = Run { metas: run.metas.insert(task_id, meta), ..run };
    let started = with_task(posted, task_id, span, runtime);
    let measured = with_baseline(started, task_id, start);
    lemma_nodes_keep(measured, nodes);
}

/// The end of a task: its span ends where it has one, as a success or as a failure, and a report is
/// made exactly when it failed.
pub proof fn lemma_task_end<S, T>(
    end: TaskEnd<S, T>,
    run: Run<S>,
    task_id: i64,
    success: bool,
    now: u128,
    epoch: u64,
    context: Option<TraceContext<T>>,
)
    requires
        is_end_of(end, run, task_id, success, now, epoch, context),
    ensures
        end.span is Some <==> run.children.dom().contains(task_id),
        end.span matches Some(ended) ==> {
            &&& ended.span == run.children[task_id]
            &&& success ==> ended.status is Success && ended.result@ == "success"@
            &&& !success ==> ended.status is InternalError && ended.result@ == "failure"@
        },
        end.report is Some <==> !success,
        end.report matches Some(report) ==> report@.maa_task_id == task_id && report@.run_id
            == run.run_id && (run.metas.dom().contains(task_id) ==> report@.task
            == run.metas[task_id]),
{
}

/// What is left of a run when one of its tasks ended: all but what it held of that task; a failure
/// is remembered, and no task is active where it was that one.
pub proof fn lemma_task_left<S>(run: Run<S>, task_id: i64, success: bool)
    ensures
        ({
            let after = without_task(run, task_id, success);
            &&& after.has_failed <==> run.has_failed || !success
            &&& run.active_task == Some(task_id) ==> after.active_task is None
            &&& run.active_task != Some(task_id) ==> after.active_task == run.active_task
            &&& after.children == run.children.remove(task_id)
            &&& after.metas == run.metas.remove(task_id)
            &&& after.task_runtime == run.task_runtime.remove(task_id)
            &&& after.failure_signals == run.failure_signals.remove(task_id)
            &&& after.terminal_failure_signals == run.terminal_failure_signals.remove(task_id)
            &&& after.failed_nodes == run.failed_nodes.remove(task_id)
            &&& after.traced_nodes == run.traced_nodes.remove(task_id)
            &&& after.last_steps == run.last_steps.remove(task_id)
            &&& after.run_id == run.run_id
            &&& after.transaction == run.transaction
            &&& after.tags == run.tags
            &&& after.event_config == run.event_config
        }),
{
}

/// What is told of how a span ended.
pub proof fn lemma_labels()
    ensures
        label_of(SpanStatus::Success) == "success"@,
        label_of(SpanStatus::Cancelled) == "cancelled"@,
        label_of(SpanStatus::InternalError) == "failure"@,
{
}

/// The end of a run: without a forced status it failed exactly when one of its tasks did, and the
/// tasks that were still running are cancelled; a forced status is that of all of them. The span of
/// every task that was running ends, and no other.
pub proof fn lemma_run_end<S>(end: RunEnd<S>, run: Run<S>, forced: Option<SpanStatus>)
    requires
        is_run_end(end, run, forced),
    ensures
        end.transaction.span == run.transaction,
        end.tags@ == run.tags,
        forced matches Some(status) ==> end.transaction.status == status,
        forced is None && run.has_failed ==> end.transaction.status is InternalError
            && end.transaction.result@ == "failure"@,
        forced is None && !run.has_failed ==> end.transaction.status is Success
            && end.transaction.result@ == "success"@,
        end.children@.len() == run.children.dom().len(),
        run.children.dom().finite(),
        forall|i: int|
            0 <= i < end.children@.len() ==> {
                let child = #[trigger] end.children@[i];
                &&& exists|id: i64| #[trigger]
                    run.children.dom().contains(id) && run.children[id] == child.span
                &&& forced matches Some(status) ==> child.status == status
                &&& forced is None ==> child.status is Cancelled && child.result@ == "cancelled"@
            },
        forall|id: i64| #[trigger]
            run.children.dom().contains(id) ==> exists|i: int|
                0 <= i < end.children@.len() && (#[trigger] end.children@[i]).span
                    == run.children[id],
{
    let status = crate::endings::open_status(forced);
    let ids = choose|ids: Seq<i64>|
        {
            &&& ids.no_duplicates()
            &&& ids.to_set() == run.children.dom()
            &&& #[trigger] are_ended(end.children@, run.children, ids, status)
        };
    ids.unique_seq_to_set();
    assert forall|i: int| 0 <= i < end.children@.len() implies {
        let child = #[trigger] end.children@[i];
        &&& exists|id: i64| #[trigger]
            run.children.dom().contains(id) && run.children[id] == child.span
        &&& forced matches Some(status) ==> child.status == status
        &&& forced is None ==> child.status is Cancelled && child.result@ == "cancelled"@
    } by {
        assert(end.children@[i].ends(run.children[ids[i]], status));
        assert(run.children.dom().contains(ids[i]));
    }
    assert forall|id: i64| #[trigger] run.children.dom().contains(id) implies exists|i: int|
        0 <= i < end.children@.len() && (#[trigger] end.children@[i]).span == run.children[id] by {
        assert(ids.to_set().contains(id));
        let i = choose|i: int| 0 <= i < ids.len() && ids[i] == id;
        assert(end.children@[i].ends(run.children[ids[i]], status));
    }
}

/// A run one of whose tasks failed ends as failed, whatever its other tasks came to.
pub proof fn lemma_failure_carries<S>(
    run: Run<S>,
    failed: i64,
    others: Seq<(i64, bool)>,
    end: RunEnd<S>,
)
    requires
        is_run_end(end, after_ends(without_task(run, failed, false), others), None),
    ensures
        end.transaction.status is InternalError,
{
    lemma_failed_stays(without_task(run, failed, false), others);
}

/// The run after the given tasks ended.
pub open spec fn after_ends<S>(run: Run<S>, ends: Seq<(i64, bool)>) -> Run<S>
    decreases ends.len(),
{
    if ends.len() == 0 {
        run
    } else {
        without_task(after_ends(run, ends.drop_last()), ends.last().0, ends.last().1)
    }
}

proof fn lemma_failed_stays<S>(run: Run<S>, ends: Seq<(i64, bool)>)
    requires
        run.has_failed,
    ensures
        after_ends(run, ends).has_failed,
    decreases ends.len(),
{
    if ends.len() > 0 {
        lemma_failed_stays(run, ends.drop_last());
    }
}

/// A run starts without tasks, without failures, and with what it was given.
pub proof fn lemma_run_started<S>(
    run_id: Seq<char>,
    transaction: S,
    tags: Map<Seq<char>, Seq<char>>,
    config: EventConfig,
    id: i64,
)
    ensures
        ({
            let run = Run::started(run_id, transaction, tags, config);
            &&& run.run_id == run_id
            &&& run.transaction == transaction
            &&& run.tags == tags
            &&& run.event_config == config
            &&& !run.has_failed
            &&& run.active_task is None
            &&& !run.children.dom().contains(id)
            &&& !run.metas.dom().contains(id)
            &&& !run.task_runtime.dom().contains(id)
            &&& !run.failure_signals.dom().contains(id)
            &&& !run.terminal_failure_signals.dom().contains(id)
            &&& !run.failed_nodes.dom().contains(id)
            &&& !run.traced_nodes.dom().contains(id)
            &&& !run.last_steps.dom().contains(id)
        }),
{
}

/// A text is there and is not empty.
pub open spec fn is_filled(text: Option<String>) -> bool {
    text matches Some(text) && text@.len() > 0
}

/// What a run tells of itself: its identity, its tasks, and the name and kind of its controller, in
/// the data of its transaction and, but for the tasks, in its tags.
pub proof fn lemma_run_described(
    run_id: Seq<char>,
    names: Seq<Seq<char>>,
    controller: Option<ControllerInfo>,
)
    requires
        names.len() <= u64::MAX,
    ensures
        ({
            let data = run_data(run_id, names, controller);
            let tags = run_tags(run_id, controller);
            let named = controller is Some && is_filled(controller->0.name);
            let typed = controller is Some && is_filled(controller->0.kind);
            &&& data.dom().contains("run_id"@) && data["run_id"@] == DatumView::Text(run_id)
            &&& data.dom().contains("task_count"@) && data["task_count"@] == DatumView::Natural(
                names.len() as u64,
            )
            &&& data.dom().contains("tasks"@) <==> names.len() > 0
            &&& names.len() > 0 ==> data["tasks"@] == DatumView::Text(joined(names, ","@))
            &&& data.dom().contains("controller.name"@) <==> named
            &&& named ==> data["controller.name"@] == DatumView::Text(controller->0.name->0@)
            &&& data.dom().contains("controller.type"@) <==> typed
            &&& typed ==> data["controller.type"@] == DatumView::Text(controller->0.kind->0@)
            &&& tags.dom().contains("run.id"@) && tags["run.id"@] == run_id
            &&& tags.dom().contains("controller.name"@) <==> named
            &&& named ==> tags["controller.name"@] == controller->0.name->0@
            &&& tags.dom().contains("controller.type"@) <==> typed
            &&& typed ==> tags["controller.type"@] == controller->0.kind->0@
            &&& forall|key: Seq<char>| #[trigger]
                data.dom().contains(key) ==> key == "run_id"@ || key == "task_count"@ || key
                    == "tasks"@ || key == "controller.name"@ || key == "controller.type"@
            &&& forall|key: Seq<char>| #[trigger]
                tags.dom().contains(key) ==> key == "run.id"@ || key == "controller.name"@ || key
                    == "controller.type"@
        }),
{
    reveal_strlit("run_id");
    reveal_strlit("run.id");
    reveal_strlit("task_count");
    reveal_strlit("tasks");
    reveal_strlit("controller.name");
    reveal_strlit("controller.type");
    assert("run_id"@.len() == 6 && "run.id"@.len() == 6 && "task_count"@.len() == 10
        && "tasks"@.len() == 5 && "controller.name"@.len() == 15 && "controller.type"@.len()
        == 15);
    assert("controller.name"@[11] == 'n' && "controller.type"@[11] == 't');
}

/// The span of a task: what it does, its name as it was posted, and its run, name, identity and
/// options in its data.
pub proof fn lemma_task_span<S>(run: Run<S>, task_id: i64, option: Seq<char>)
    ensures
        ({
            let span = task_span(run, task_id);
            let known = run.metas.dom().contains(task_id);
            &&& span.operation == "mxu.task"@
            &&& known ==> span.description == run.metas[task_id].name
            &&& !known ==> span.description.len() == 0
            &&& span.data.dom().contains("run_id"@) && span.data["run_id"@] == DatumView::Text(
                run.run_id,
            )
            &&& span.data.dom().contains("task"@) && span.data["task"@] == DatumView::Text(
                span.description,
            )
            &&& span.data.dom().contains("task_id"@) && span.data["task_id"@]
                == DatumView::Integer(task_id)
            &&& span.data.dom().contains("option."@ + option) <==> known
                && run.metas[task_id].options.dom().contains(option)
            &&& span.data.dom().contains("option."@ + option) ==> span.data["option."@ + option]
                == DatumView::Text(run.metas[task_id].options[option])
        }),
{
    let prefix = "option."@;
    let key = prefix + option;
    reveal_strlit("option.");
    reveal_strlit("task");
    reveal_strlit("task_id");
    reveal_strlit("run_id");
    assert("task"@.len() == 4 && "task_id"@.len() == 7 && "run_id"@.len() == 6);
    assert("task"@[0] == 't' && "task_id"@[0] == 't' && "run_id"@[0] == 'r' && prefix[0] == 'o');
    assert(key[0] == 'o');
    assert forall|other: Seq<char>| other.len() > 0 && other[0] != 'o' implies !starts_with(
        other,
        prefix,
    ) by {
        if starts_with(other, prefix) {
            assert(other.subrange(0, prefix.len() as int)[0] == other[0]);
        }
    }
    assert(key.subrange(0, prefix.len() as int) =~= prefix);
    assert(key.skip(prefix.len() as int) =~= option);
}

/// A task that starts becomes the active one, with its span and the time at which it started; the
/// other tasks stay as they are.
pub proof fn lemma_task_started<S>(run: Run<S>, task_id: i64, span: S, runtime: Runtime, other: i64)
    requires
        other != task_id,
    ensures
        ({
            let after = with_task(run, task_id, span, runtime);
            &&& after.active_task == Some(task_id)
            &&& after.children.dom().contains(task_id) && after.children[task_id] == span
            &&& after.task_runtime.dom().contains(task_id) && after.task_runtime[task_id]
                == runtime
            &&& after.children.dom().contains(other) == run.children.dom().contains(other)
            &&& run.children.dom().contains(other) ==> after.children[other] == run.children[other]
            &&& after.task_runtime.dom().contains(other) == run.task_runtime.dom().contains(other)
            &&& run.task_runtime.dom().contains(other) ==> after.task_runtime[other]
                == run.task_runtime[other]
            &&& after.metas == run.metas
            &&& after.failure_signals == run.failure_signals
            &&& after.terminal_failure_signals == run.terminal_failure_signals
            &&& after.failed_nodes == run.failed_nodes
            &&& after.traced_nodes == run.traced_nodes
            &&& after.last_steps == run.last_steps
            &&& after.run_id == run.run_id
            &&& after.transaction == run.transaction
            &&& after.tags == run.tags
            &&& after.has_failed == run.has_failed
            &&& after.event_config == run.event_config
        }),
{
}

/// A baseline is noted for its task alone, and only while that task has not ended.
pub proof fn lemma_baseline_noted<S>(run: Run<S>, task_id: i64, start: Baseline, other: i64)
    requires
        other != task_id,
    ensures
        ({
            let after = with_baseline(run, task_id, start);
            &&& !run.task_runtime.dom().contains(task_id) ==> after == run
            &&& run.task_runtime.dom().contains(task_id) ==> {
                let (before, now) = (run.task_runtime[task_id], after.task_runtime[task_id]);
                &&& after.task_runtime.dom() =~= run.task_runtime.dom()
                &&& now.evidence_start == Some(start)
                &&& now.started_at == before.started_at
                &&& now.started_wall_time == before.started_wall_time
                &&& now.evidence_isolated == before.evidence_isolated
                &&& now.evidence_epoch == before.evidence_epoch
            }
            &&& run.task_runtime.dom().contains(other) ==> after.task_runtime[other]
                == run.task_runtime[other]
            &&& after.children == run.children
            &&& after.metas == run.metas
            &&& after.active_task == run.active_task
            &&& after.has_failed == run.has_failed
            &&& after.failure_signals == run.failure_signals
        }),
{
}

/// An instance runs alone exactly when no other one has a run.
pub proof fn lemma_runs_alone<V>(runs: Map<Seq<char>, V>, instance: Seq<char>, other: Seq<char>)
    ensures
        runs_alone(runs, instance) && runs.dom().contains(other) ==> other == instance,
        (forall|key: Seq<char>| #[trigger] runs.dom().contains(key) ==> key == instance)
            ==> runs_alone(runs, instance),
        !crate::runs::is_isolated(instance, seq![instance, other]) <==> other != instance,
{
    if other != instance {
        assert(seq![instance, other][1] != instance);
    }
}

/// A task that ends is taken out of its run. Where it failed, the report names it as it was posted.
pub proof fn lemma_end_task<S, T, F: Fn(&S) -> TraceContext<T>>(
    run: &mut RunState<S>,
    maa_task_id: i64,
    success: bool,
    now: u128,
    epoch: u64,
    trace: F,
    end: TaskEnd<S, T>,
)
    requires
        call_ensures(end_task::<S, T, F>, (run, maa_task_id, success, now, epoch, trace), end),
    ensures
        final(run)@ == without_task(old(run)@, maa_task_id, success),
        end.report is Some <==> !success,
        end.span is Some <==> old(run)@.children.dom().contains(maa_task_id),
        end.span matches Some(ended) ==> ended.span == old(run)@.children[maa_task_id] && (success
            ==> ended.status is Success && ended.result@ == "success"@) && (!success
            ==> ended.status is InternalError && ended.result@ == "failure"@),
        end.report matches Some(report) ==> {
            let known = old(run)@.metas.dom().contains(maa_task_id);
            let context = report@.trace_context;
            &&& known ==> report@.task.name == old(run)@.metas[maa_task_id].name
                && report@.task.options == old(run)@.metas[maa_task_id].options
            &&& !known ==> report@.task.name.len() == 0
            &&& report@ == failure_report(old(run)@, maa_task_id, now, epoch, context)
            &&& context is Some <==> old(run)@.children.dom().contains(maa_task_id)
            &&& context matches Some(told) ==> call_ensures(
                trace,
                (&old(run)@.children[maa_task_id],),
                told,
            )
        },
{
    let context = choose|context: Option<TraceContext<T>>|
        {
            &&& #[trigger] crate::endings::is_trace_of(
                trace,
                crate::endings::value_of(old(run)@.children, maa_task_id),
                context,
            )
            &&& is_end_of(end, old(run)@, maa_task_id, success, now, epoch, context)
        };
    lemma_task_end(end, old(run)@, maa_task_id, success, now, epoch, context);
    lemma_report(old(run)@, maa_task_id, now, epoch, context);
}

/// A task that ends concerns the run of its instance alone, and only while reporting is active.
pub proof fn lemma_on_task_finished<S, T, F: Fn(&S) -> TraceContext<T>>(
    active: bool,
    runs: &mut StringMap<RunState<S>>,
    instance_id: &str,
    maa_task_id: i64,
    success: bool,
    now: u128,
    epoch: u64,
    trace: F,
    end: TaskEnd<S, T>,
    other: Seq<char>,
)
    requires
        call_ensures(
            on_task_finished::<S, T, F>,
            (active, runs, instance_id, maa_task_id, success, now, epoch, trace),
            end,
        ),
        other != instance_id@,
    ensures
        ({
            let known = active && old(runs)@.dom().contains(instance_id@);
            let run = old(runs)@[instance_id@];
            &&& !known ==> final(runs)@ == old(runs)@ && end.span is None && end.report is None
            &&& known ==> {
                &&& final(runs)@.dom().contains(instance_id@)
                &&& final(runs)@[instance_id@] == without_task(run, maa_task_id, success)
                &&& end.report is Some <==> !success
                &&& end.span is Some <==> run.children.dom().contains(maa_task_id)
                &&& end.span matches Some(ended) ==> ended.span == run.children[maa_task_id] && (
                success ==> ended.status is Success && ended.result@ == "success"@) && (!success
                    ==> ended.status is InternalError && ended.result@ == "failure"@)
                &&& end.report matches Some(report) ==> {
                    &&& report@.run_id == run.run_id
                    &&& report@.maa_task_id == maa_task_id
                    &&& run.metas.dom().contains(maa_task_id) ==> report@.task
                        == run.metas[maa_task_id]
                    &&& report@ == failure_report(
                        run,
                        maa_task_id,
                        now,
                        epoch,
                        report@.trace_context,
                    )
                }
            }
            &&& final(runs)@.dom().contains(other) == old(runs)@.dom().contains(other)
            &&& old(runs)@.dom().contains(other) ==> final(runs)@[other] == old(runs)@[other]
        }),
{
    if active && old(runs)@.dom().contains(instance_id@) {
        let run = old(runs)@[instance_id@];
        let context = choose|context: Option<TraceContext<T>>|
            {
                &&& #[trigger] crate::endings::is_trace_of(
                    trace,
                    crate::endings::value_of(run.children, maa_task_id),
                    context,
                )
                &&& is_end_of(end, run, maa_task_id, success, now, epoch, context)
            };
        lemma_task_end(end, run, maa_task_id, success, now, epoch, context);
    }
}

/// What ends a run: the run of the instance is over where there is one, and no other is.
pub open spec fn is_over<S>(
    before: Map<Seq<char>, Run<S>>,
    after: Map<Seq<char>, Run<S>>,
    instance: Seq<char>,
    other: Seq<char>,
    end: Option<RunEnd<S>>,
) -> bool {
    &&& end is Some <==> before.dom().contains(instance)
    &&& !after.dom().contains(instance)
    &&& end matches Some(end) ==> end.transaction.span == before[instance].transaction && end.tags@
        == before[instance].tags && end.children@.len() == before[instance].children.dom().len()
    &&& other != instance ==> after.dom().contains(other) == before.dom().contains(other) && (
    before.dom().contains(other) ==> after[other] == before[other])
}

/// A run that came to its end failed exactly when one of its tasks did; tasks that were still running
/// are cancelled.
pub proof fn lemma_on_run_finished<S>(
    runs: &mut StringMap<RunState<S>>,
    instance_id: &str,
    end: Option<RunEnd<S>>,
    other: Seq<char>,
)
    requires
        call_ensures(on_run_finished::<S>, (runs, instance_id), end),
    ensures
        is_over(old(runs)@, final(runs)@, instance_id@, other, end),
        end matches Some(end) ==> {
            &&& old(runs)@[instance_id@].has_failed ==> end.transaction.status is InternalError
                && end.transaction.result@ == "failure"@
            &&& !old(runs)@[instance_id@].has_failed ==> end.transaction.status is Success
                && end.transaction.result@ == "success"@
            &&& forall|i: int|
                0 <= i < end.children@.len() ==> (#[trigger] end.children@[i]).status is Cancelled
        },
{
    if end is Some {
        lemma_run_end(end->0, old(runs)@[instance_id@], None);
    }
}

/// A run that the user stopped is cancelled, and so are its tasks that were still running, whatever
/// failed before.
pub proof fn lemma_on_run_cancelled<S>(
    runs: &mut StringMap<RunState<S>>,
    instance_id: &str,
    end: Option<RunEnd<S>>,
    other: Seq<char>,
)
    requires
        call_ensures(on_run_cancelled::<S>, (runs, instance_id), end),
    ensures
        is_over(old(runs)@, final(runs)@, instance_id@, other, end),
        end matches Some(end) ==> {
            &&& end.transaction.status is Cancelled && end.transaction.result@ == "cancelled"@
            &&& forall|i: int|
                0 <= i < end.children@.len() ==> (#[trigger] end.children@[i]).status is Cancelled
        },
{
    if end is Some {
        lemma_run_end(end->0, old(runs)@[instance_id@], Some(SpanStatus::Cancelled));
    }
}

/// A run ends with the status that is forced, or with the one that its tasks came to.
pub proof fn lemma_finish_run<S>(
    runs: &mut StringMap<RunState<S>>,
    instance_id: &str,
    forced: Option<SpanStatus>,
    end: Option<RunEnd<S>>,
    other: Seq<char>,
)
    requires
        call_ensures(finish_run::<S>, (runs, instance_id, forced), end),
    ensures
        is_over(old(runs)@, final(runs)@, instance_id@, other, end),
        end matches Some(end) ==> {
            &&& forced matches Some(status) ==> end.transaction.status == status
            &&& forced is None ==> (end.transaction.status is InternalError
                <==> old(runs)@[instance_id@].has_failed)
        },
{
    if end is Some {
        lemma_run_end(end->0, old(runs)@[instance_id@], forced);
    }
}

/// A run that starts takes the place of one that its instance had, begins a new epoch, and describes
/// itself; nothing happens while reporting is not active.
pub proof fn lemma_on_run_start<S>(
    active: bool,
    runs: &mut StringMap<RunState<S>>,
    epoch: u64,
    instance_id: &str,
    run_id: &str,
    task_names: &Vec<String>,
    controller: Option<&ControllerInfo>,
    event_config: FailureEventConfig,
    transaction: S,
    started: Option<(StringMap<Datum>, u64)>,
    other: Seq<char>,
)
    requires
        call_ensures(
            on_run_start::<S>,
            (
                active,
                runs,
                epoch,
                instance_id,
                run_id,
                task_names,
                controller,
                event_config,
                transaction,
            ),
            started,
        ),
        other != instance_id@,
    ensures
        started is Some <==> active,
        !active ==> final(runs)@ == old(runs)@,
        started matches Some((data, next)) ==> {
            let run = final(runs)@[instance_id@];
            &&& next == epoch.wrapping_add(1)
            &&& final(runs)@.dom().contains(instance_id@)
            &&& run.run_id == run_id@
            &&& run.transaction == transaction
            &&& run.event_config == event_config@
            &&& !run.has_failed
            &&& run.active_task is None
            &&& run.children.dom() =~= Set::<i64>::empty()
            &&& run.metas.dom() =~= Set::<i64>::empty()
            &&& run.tags == run_tags(run_id@, controller_view(controller))
            &&& data@ == run_data(run_id@, views(task_names@), controller_view(controller))
        },
        final(runs)@.dom().contains(other) == old(runs)@.dom().contains(other),
        old(runs)@.dom().contains(other) ==> final(runs)@[other] == old(runs)@[other],
{
}

/// A task that is posted is known by what is told of it, in the run of its instance.
pub proof fn lemma_register_task<S>(
    guard: &PostingGuard,
    runs: &mut StringMap<RunState<S>>,
    maa_task_id: i64,
    meta: TaskMeta,
    other: i64,
)
    requires
        call_ensures(PostingGuard::register::<S>, (guard, runs, maa_task_id, meta), ()),
        other != maa_task_id,
    ensures
        !old(runs)@.dom().contains(guard.instance()) ==> final(runs)@ == old(runs)@,
        old(runs)@.dom().contains(guard.instance()) ==> {
            let before = old(runs)@[guard.instance()];
            let after = final(runs)@[guard.instance()];
            &&& final(runs)@.dom() =~= old(runs)@.dom()
            &&& after.metas.dom().contains(maa_task_id)
            &&& after.metas[maa_task_id].name == meta@.name
            &&& after.metas[maa_task_id].options == meta@.options
            &&& after.metas.dom().contains(other) == before.metas.dom().contains(other)
            &&& before.metas.dom().contains(other) ==> after.metas[other] == before.metas[other]
            &&& after.children == before.children
            &&& after.run_id == before.run_id
            &&& after.active_task == before.active_task
        },
{
}

/// Tasks can be posted exactly while reporting is active and the instance has a run, for that instance.
pub proof fn lemma_begin_posting<S>(
    active: bool,
    runs: &StringMap<RunState<S>>,
    instance_id: &str,
    guard: Option<PostingGuard>,
)
    requires
        call_ensures(begin_posting::<S>, (active, runs, instance_id), guard),
    ensures
        guard is Some <==> active && runs@.dom().contains(instance_id@),
        guard matches Some(guard) ==> guard.instance() == instance_id@,
{
}

/// A task that starts begins a new epoch, becomes the active one of its run, and is to have a baseline
/// exactly when no other instance has a run; its span is that of a task with what it was posted with.
pub proof fn lemma_on_task_start<S, F: Fn(&S, &SpanPlan) -> S>(
    active: bool,
    runs: &mut StringMap<RunState<S>>,
    epoch: u64,
    instance_id: &str,
    maa_task_id: i64,
    started_at: u128,
    wall_time: Timestamp,
    start_child: F,
    started: Option<(bool, u64)>,
    other: Seq<char>,
)
    requires
        call_ensures(
            on_task_start::<S, F>,
            (
                active,
                runs,
                epoch,
                instance_id,
                maa_task_id,
                started_at,
                wall_time,
                start_child,
            ),
            started,
        ),
        other != instance_id@,
    ensures
        started is Some <==> active,
        started matches Some((capture, next)) ==> {
            &&& next == epoch.wrapping_add(1)
            &&& capture ==> !old(runs)@.dom().contains(other)
            &&& capture ==> old(runs)@.dom().contains(instance_id@)
            &&& old(runs)@.dom().contains(instance_id@) && (forall|id: Seq<char>| #[trigger]
                old(runs)@.dom().contains(id) ==> id == instance_id@) ==> capture
        },
        !(active && old(runs)@.dom().contains(instance_id@)) ==> final(runs)@ == old(runs)@,
        active && old(runs)@.dom().contains(instance_id@) ==> {
            let before = old(runs)@[instance_id@];
            let after = final(runs)@[instance_id@];
            let runtime = after.task_runtime[maa_task_id];
            &&& final(runs)@.dom().contains(instance_id@)
            &&& after.active_task == Some(maa_task_id)
            &&& after.children.dom().contains(maa_task_id)
            &&& after.task_runtime.dom().contains(maa_task_id)
            &&& runtime.started_at == started_at
            &&& runtime.started_wall_time == wall_time
            &&& runtime.evidence_start is None
            &&& runtime.evidence_epoch == epoch.wrapping_add(1)
            &&& runtime.evidence_isolated == (started->0).0
            &&& after.metas == before.metas
            &&& after.run_id == before.run_id
            &&& crate::runs::child_started(
                start_child,
                before.transaction,
                task_span(before, maa_task_id),
                after.children[maa_task_id],
            )
        },
        final(runs)@.dom().contains(other) == old(runs)@.dom().contains(other),
        old(runs)@.dom().contains(other) ==> final(runs)@[other] == old(runs)@[other],
{
    if active && old(runs)@.dom().contains(instance_id@) {
        let before = old(runs)@[instance_id@];
        let span = choose|span: S|
            {
                &&& #[trigger] crate::runs::child_started(
                    start_child,
                    before.transaction,
                    task_span(before, maa_task_id),
                    span,
                )
                &&& final(runs)@ == old(runs)@.insert(
                    instance_id@,
                    with_task(
                        before,
                        maa_task_id,
                        span,
                        Runtime {
                            started_at,
                            started_wall_time: wall_time,
                            evidence_start: None,
                            evidence_isolated: runs_alone(old(runs)@, instance_id@),
                            evidence_epoch: epoch.wrapping_add(1),
                        },
                    ),
                )
            };
        assert(final(runs)@[instance_id@].children[maa_task_id] == span);
    }
}

/// A baseline is noted for the task that it was taken for.
pub proof fn lemma_record_evidence_start<S>(
    runs: &mut StringMap<RunState<S>>,
    instance_id: &str,
    maa_task_id: i64,
    start: TaskEvidenceStart,
    other: Seq<char>,
)
    requires
        call_ensures(record_evidence_start::<S>, (runs, instance_id, maa_task_id, start), ()),
        other != instance_id@,
    ensures
        !old(runs)@.dom().contains(instance_id@) ==> final(runs)@ == old(runs)@,
        old(runs)@.dom().contains(instance_id@)
            && old(runs)@[instance_id@].task_runtime.dom().contains(maa_task_id) ==> {
            let before = old(runs)@[instance_id@].task_runtime[maa_task_id];
            let after = final(runs)@[instance_id@].task_runtime[maa_task_id];
            &&& after.evidence_start == Some(start@)
            &&& after.started_at == before.started_at
            &&& after.evidence_epoch == before.evidence_epoch
            &&& after.evidence_isolated == before.evidence_isolated
        },
        old(runs)@.dom().contains(other) ==> final(runs)@.dom().contains(other)
            && final(runs)@[other] == old(runs)@[other],
{
}

/// The evidence of a task is its own exactly when every instance that runs is its own.
pub proof fn lemma_isolated(current: &str, running: &Vec<String>, isolated: bool)
    requires
        call_ensures(evidence_isolated_for_ids, (current, running), isolated),
    ensures
        isolated <==> forall|i: int| 0 <= i < running@.len() ==> (#[trigger] running@[i])@
            == current@,
{
    let all = views(running@);
    assert forall|i: int| 0 <= i < running@.len() implies (#[trigger] running@[i])@ == all[i] by {}
    if isolated {
        assert forall|i: int| 0 <= i < running@.len() implies (#[trigger] running@[i])@
            == current@ by {
            assert(all[i] == current@);
        }
    }
    if forall|i: int| 0 <= i < running@.len() ==> (#[trigger] running@[i])@ == current@ {
        assert forall|i: int| 0 <= i < all.len() implies #[trigger] all[i] == current@ by {
            assert(running@[i]@ == current@);
        }
    }
}

/// What is told of how a span ended.
pub proof fn lemma_result_label(status: SpanStatus, label: &'static str)
    requires
        call_ensures(result_label, (status,), label),
    ensures
        status is Success ==> label@ == "success"@,
        status is Cancelled ==> label@ == "cancelled"@,
        status is InternalError ==> label@ == "failure"@,
{
}

/// A run is described by its data and its tags.
pub proof fn lemma_describe_run(
    run_id: &str,
    names: &Vec<String>,
    controller: Option<&ControllerInfo>,
    description: RunDescription,
)
    requires
        call_ensures(describe_run, (run_id, names, controller), description),
    ensures
        description.data@ == run_data(run_id@, views(names@), controller_view(controller)),
        description.tags@ == run_tags(run_id@, controller_view(controller)),
{
}

/// What is asked for when the span of a task is started: what it does, under the name that the task was
/// posted with, for its run and with its identity.
pub open spec fn is_task_plan<S>(plan: Span, run: Run<S>, task_id: i64) -> bool {
    let known = run.metas.dom().contains(task_id);
    &&& plan.operation == "mxu.task"@
    &&& known ==> plan.description == run.metas[task_id].name
    &&& !known ==> plan.description.len() == 0
    &&& plan.data.dom().contains("run_id"@) && plan.data["run_id"@] == DatumView::Text(run.run_id)
    &&& plan.data.dom().contains("task_id"@) && plan.data["task_id"@] == DatumView::Integer(
        task_id,
    )
}

/// The span of a task that starts is a child of the transaction of its run, started as the task was
/// posted.
pub proof fn lemma_child_span<S, F: Fn(&S, &SpanPlan) -> S>(
    runs: &mut StringMap<RunState<S>>,
    epoch: u64,
    instance_id: &str,
    maa_task_id: i64,
    started_at: u128,
    wall_time: Timestamp,
    start_child: F,
    started: Option<(bool, u64)>,
)
    requires
        call_ensures(
            on_task_start::<S, F>,
            (true, runs, epoch, instance_id, maa_task_id, started_at, wall_time, start_child),
            started,
        ),
        old(runs)@.dom().contains(instance_id@),
    ensures
        exists|plan: SpanPlan|
            {
                &&& #[trigger] call_ensures(
                    start_child,
                    (&old(runs)@[instance_id@].transaction, &plan),
                    final(runs)@[instance_id@].children[maa_task_id],
                )
                &&& is_task_plan(plan@, old(runs)@[instance_id@], maa_task_id)
            },
{
    let before = old(runs)@[instance_id@];
    lemma_task_span(before, maa_task_id, seq![]);
    let other = instance_id@.push('x');
    assert(other.len() != instance_id@.len());
    lemma_on_task_start(
        true,
        runs,
        epoch,
        instance_id,
        maa_task_id,
        started_at,
        wall_time,
        start_child,
        started,
        other,
    );
}

/// The keys of a map are told in order, each of them once, and no others.
pub proof fn lemma_keys<V: View>(map: &StringMap<V>, told: Vec<String>, key: Seq<char>, i: int, j: int)
    requires
        call_ensures(keys::<V>, (map,), told),
    ensures
        views(told@).contains(key) <==> map@.dom().contains(key),
        0 <= i < j < told@.len() ==> told@[i]@ != told@[j]@ && crate::text::text_le(
            told@[i]@,
            told@[j]@,
        ),
{
    if 0 <= i < j < told@.len() {
        let all = views(told@);
        assert(all[i] == told@[i]@ && all[j] == told@[j]@);
        assert(crate::order::text_order()(all[i], all[j]));
    }
}

} // verus!
