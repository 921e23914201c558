//! The runs that are going on, from their start to the start of their tasks.

use vstd::prelude::*;
use std::collections::HashMap;
use crate::event::{option_data, set_options, Datum, DatumView};
use crate::evidence::{Baseline, TaskEvidenceStart};
use crate::map::{has_key, lemma_listed, StringMap};
use crate::order::{in_order, lemma_text_order, text_order};
use crate::report::{
    start_view, EventConfig, FailureEventConfig, FailureSignal, Meta, Signal, TaskMeta,
};
use crate::text::{join, joined, same_text, starts_with, views};
use crate::time::Timestamp;

verus! {

broadcast use vstd::std_specs::hash::group_hash_axioms;

/// When a task started, and what its evidence is measured against.
#[derive(Debug)]
pub struct TaskRuntime {
    /// The reading of a clock that never goes back, in nanoseconds.
    pub started_at: u128,
    pub started_wall_time: Timestamp,
    pub evidence_start: Option<TaskEvidenceStart>,
    /// No other instance ran when the task started.
    pub evidence_isolated: bool,
    /// Tells whether anything started since.
    pub evidence_epoch: u64,
}

/// The content of the runtime of a task.
#[verifier::ext_equal]
pub struct Runtime {
    pub started_at: u128,
    pub started_wall_time: Timestamp,
    pub evidence_start: Option<Baseline>,
    pub evidence_isolated: bool,
    pub evidence_epoch: u64,
}

impl View for TaskRuntime {
    type V = Runtime;

    open spec fn view(&self) -> Runtime {
        Runtime {
            started_at: self.started_at,
            started_wall_time: self.started_wall_time,
            evidence_start: start_view(self.evidence_start),
            evidence_isolated: self.evidence_isolated,
            evidence_epoch: self.evidence_epoch,
        }
    }
}

/// A run of several tasks. `S` is what the tracer gives for a transaction or a span.
#[derive(Debug)]
pub struct RunState<S> {
    pub run_id: String,
    pub transaction: S,
    /// The spans of the tasks that are running.
    pub children: HashMap<i64, S>,
    /// What was told of the tasks that were posted.
    pub metas: HashMap<i64, TaskMeta>,
    /// The node that each task is at, and when it came there.
    pub last_steps: HashMap<i64, (i64, u128)>,
    /// How many nodes failed.
    pub failed_nodes: HashMap<i64, u32>,
    /// How many nodes were reported.
    pub traced_nodes: HashMap<i64, u32>,
    /// The node of each task that failed first.
    pub failure_signals: HashMap<i64, FailureSignal>,
    /// The node of each task that failed last.
    pub terminal_failure_signals: HashMap<i64, FailureSignal>,
    pub task_runtime: HashMap<i64, TaskRuntime>,
    /// The task that is running; there is at most one.
    pub active_task: Option<i64>,
    pub tags: StringMap<String>,
    pub has_failed: bool,
    /// The configuration when the run started.
    pub event_config: FailureEventConfig,
}

/// The content of a run.
#[verifier::ext_equal]
pub struct Run<S> {
    pub run_id: Seq<char>,
    pub transaction: S,
    pub children: Map<i64, S>,
    pub metas: Map<i64, Meta>,
    pub last_steps: Map<i64, (i64, u128)>,
    pub failed_nodes: Map<i64, u32>,
    pub traced_nodes: Map<i64, u32>,
    pub failure_signals: Map<i64, Signal>,
    pub terminal_failure_signals: Map<i64, Signal>,
    pub task_runtime: Map<i64, Runtime>,
    pub active_task: Option<i64>,
    pub tags: Map<Seq<char>, Seq<char>>,
    pub has_failed: bool,
    pub event_config: EventConfig,
}

pub open spec fn metas_view(metas: Map<i64, TaskMeta>) -> Map<i64, Meta> {
    metas.map_values(|meta: TaskMeta| meta@)
}

pub open spec fn signals_view(signals: Map<i64, FailureSignal>) -> Map<i64, Signal> {
    signals.map_values(|signal: FailureSignal| signal@)
}

pub open spec fn runtimes_view(runtimes: Map<i64, TaskRuntime>) -> Map<i64, Runtime> {
    runtimes.map_values(|runtime: TaskRuntime| runtime@)
}

impl<S> View for RunState<S> {
    type V = Run<S>;

    open spec fn view(&self) -> Run<S> {
        Run {
            run_id: self.run_id@,
            transaction: self.transaction,
            children: self.children@,
            metas: metas_view(self.metas@),
            last_steps: self.last_steps@,
            failed_nodes: self.failed_nodes@,
            traced_nodes: self.traced_nodes@,
            failure_signals: signals_view(self.failure_signals@),
            terminal_failure_signals: signals_view(self.terminal_failure_signals@),
            task_runtime: runtimes_view(self.task_runtime@),
            active_task: self.active_task,
            tags: self.tags@,
            has_failed: self.has_failed,
            event_config: self.event_config@,
        }
    }
}

impl<S> Run<S> {
    /// A run in which nothing has happened yet.
    pub open spec fn started(
        run_id: Seq<char>,
        transaction: S,
        tags: Map<Seq<char>, Seq<char>>,
        event_config: EventConfig,
    ) -> Run<S> {
        Run {
            run_id,
            transaction,
            children: Map::empty(),
            metas: Map::empty(),
            last_steps: Map::empty(),
            failed_nodes: Map::empty(),
            traced_nodes: Map::empty(),
            failure_signals: Map::empty(),
            terminal_failure_signals: Map::empty(),
            task_runtime: Map::empty(),
            active_task: None,
            tags,
            has_failed: false,
            event_config,
        }
    }
}

/// Whether the evidence of a task belongs to its instance alone: no other instance is running.
pub open spec fn is_isolated(current: Seq<char>, running: Seq<Seq<char>>) -> bool {
    forall|i: int| 0 <= i < running.len() ==> #[trigger] running[i] == current
}

/// Whether no other instance than `current_instance` is running.
pub fn evidence_isolated_for_ids(current_instance: &str, running_instances: &Vec<String>) -> (
    isolated: bool)
    ensures
        isolated == is_isolated(current_instance@, views(running_instances@)),
{
    let ghost all = views(running_instances@);
    let mut index: usize = 0;
    while index < running_instances.len()
        invariant
            index <= running_instances@.len(),
            all == views(running_instances@),
            forall|i: int| 0 <= i < index ==> #[trigger] all[i] == current_instance@,
        decreases running_instances@.len() - index,
    {
        assert(all[index as int] == running_instances@[index as int]@);
        if !same_text(running_instances[index].as_str(), current_instance) {
            return false;
        }
        index += 1;
    }
    true
}

/// The controller that a run uses.
#[derive(Debug)]
pub struct ControllerInfo {
    pub name: Option<String>,
    pub kind: Option<String>,
}

/// A value that is there and is not empty.
pub open spec fn filled(text: Option<String>) -> Option<Seq<char>> {
    match text {
        Some(text) => if text@.len() == 0 {
            None
        } else {
            Some(text@)
        },
        None => None,
    }
}

/// What the transaction and the tags of a run tell.
#[derive(Debug)]
pub struct RunDescription {
    pub data: StringMap<Datum>,
    pub tags: StringMap<String>,
}

/// The data of the transaction of a run.
pub open spec fn run_data(
    run_id: Seq<char>,
    task_names: Seq<Seq<char>>,
    controller: Option<ControllerInfo>,
) -> Map<Seq<char>, DatumView> {
    let data = Map::empty().insert("run_id"@, DatumView::Text(run_id)).insert(
        "task_count"@,
        DatumView::Natural(task_names.len() as u64),
    );
    let data = if task_names.len() == 0 {
        data
    } else {
        data.insert("tasks"@, DatumView::Text(joined(task_names, ","@)))
    };
    match controller {
        Some(controller) => {
            let data = match filled(controller.name) {
                Some(name) => data.insert("controller.name"@, DatumView::Text(name)),
                None => data,
            };
            match filled(controller.kind) {
                Some(name) => data.insert("controller.type"@, DatumView::Text(name)),
                None => data,
            }
        },
        None => data,
    }
}

/// The tags of a run.
pub open spec fn run_tags(run_id: Seq<char>, controller: Option<ControllerInfo>) -> Map<
    Seq<char>,
    Seq<char>,
> {
    let tags = Map::empty().insert("run.id"@, run_id);
    match controller {
        Some(controller) => {
            let tags = match filled(controller.name) {
                Some(name) => tags.insert("controller.name"@, name),
                None => tags,
            };
            match filled(controller.kind) {
                Some(name) => tags.insert("controller.type"@, name),
                None => tags,
            }
        },
        None => tags,
    }
}

/// The content of a controller, where there is one.
pub open spec fn controller_view(controller: Option<&ControllerInfo>) -> Option<ControllerInfo> {
    match controller {
        Some(controller) => Some(*controller),
        None => None,
    }
}

fn describe_controller(description: &mut RunDescription, key: &str, value: &Option<String>)
    ensures
        final(description).data@ == (match filled(*value) {
            Some(text) => old(description).data@.insert(key@, DatumView::Text(text)),
            None => old(description).data@,
        }),
        final(description).tags@ == (match filled(*value) {
            Some(text) => old(description).tags@.insert(key@, text),
            None => old(description).tags@,
        }),
{
    if let Some(text) = value {
        if !crate::event::is_empty(text.as_str()) {
            description.data.insert(key.to_owned(), Datum::Text(text.clone()));
            description.tags.insert(key.to_owned(), text.clone());
        }
    }
}

/// Describes a run: its tasks, and the controller that it uses.
///
/// The controller stands in the data, where it can be read, and in the tags, where it can be found.
pub fn describe_run(
    run_id: &str,
    task_names: &Vec<String>,
    controller: Option<&ControllerInfo>,
) -> (description: RunDescription)
    ensures
        description.data@ == run_data(run_id@, views(task_names@), controller_view(controller)),
        description.tags@ == run_tags(run_id@, controller_view(controller)),
{
    let mut description = RunDescription { data: StringMap::new(), tags: StringMap::new() };
    description.data.insert("run_id".to_owned(), Datum::Text(run_id.to_owned()));
    description.data.insert("task_count".to_owned(), Datum::Natural(task_names.len() as u64));
    if task_names.len() > 0 {
        description.data.insert("tasks".to_owned(), Datum::Text(join(task_names, ",")));
    }
    description.tags.insert("run.id".to_owned(), run_id.to_owned());
    if let Some(controller) = controller {
        describe_controller(&mut description, "controller.name", &controller.name);
        describe_controller(&mut description, "controller.type", &controller.kind);
    }
    description
}

/// Notes that a run starts, in the place of one that its instance may have had, unless nothing
/// reports.
///
/// `epoch` is the epoch before the run started. The result is the data of its transaction, and the
/// epoch that begins with it: tasks that are going on see that their evidence is not theirs alone.
pub fn on_run_start<S>(
    active: bool,
    runs: &mut StringMap<RunState<S>>,
    epoch: u64,
    instance_id: &str,
    run_id: &str,
    task_names: &Vec<String>,
    controller: Option<&ControllerInfo>,
    event_config: FailureEventConfig,
    transaction: S,
) -> (started: Option<(StringMap<Datum>, u64)>)
    ensures
        started is Some <==> active,
        !active ==> final(runs)@ == old(runs)@,
        started matches Some((data, next)) ==> {
            &&& next == epoch.wrapping_add(1)
            &&& data@ == run_data(run_id@, views(task_names@), controller_view(controller))
            &&& final(runs)@ == old(runs)@.insert(
                instance_id@,
                Run::started(
                    run_id@,
                    transaction,
                    run_tags(run_id@, controller_view(controller)),
                    event_config@,
                ),
            )
        },
{
    if !active {
        return None;
    }
    let description = describe_run(run_id, task_names, controller);
    let run = RunState {
        run_id: run_id.to_owned(),
        transaction,
        children: HashMap::new(),
        metas: HashMap::new(),
        last_steps: HashMap::new(),
        failed_nodes: HashMap::new(),
        traced_nodes: HashMap::new(),
        failure_signals: HashMap::new(),
        terminal_failure_signals: HashMap::new(),
        task_runtime: HashMap::new(),
        active_task: None,
        tags: description.tags,
        has_failed: false,
        event_config,
    };
    assert(run@ =~= Run::started(
        run_id@,
        transaction,
        run_tags(run_id@, controller_view(controller)),
        event_config@,
    ));
    runs.insert(instance_id.to_owned(), run);
    Some((description.data, epoch.wrapping_add(1)))
}

/// The right to tell of the tasks that are being posted for a run.
#[derive(Debug)]
pub struct PostingGuard {
    instance_id: String,
}

impl PostingGuard {
    /// The instance whose tasks are posted.
    pub closed spec fn instance(self) -> Seq<char> {
        self.instance_id@
    }

    /// Tells of a task that was just posted.
    pub fn register<S>(&self, runs: &mut StringMap<RunState<S>>, maa_task_id: i64, meta: TaskMeta)
        ensures
            final(runs)@ == (if old(runs)@.dom().contains(self.instance()) {
                let run = old(runs)@[self.instance()];
                old(runs)@.insert(
                    self.instance(),
                    Run { metas: run.metas.insert(maa_task_id, meta@), ..run },
                )
            } else {
                old(runs)@
            }),
    {
        let ghost before = runs@;
        match runs.remove(self.instance_id.as_str()) {
            Some(run) => {
                let mut run = run;
                let ghost given = run@;
                run.metas.insert(maa_task_id, meta);
                assert(run@ =~= (Run { metas: given.metas.insert(maa_task_id, meta@), ..given }));
                runs.insert(self.instance_id.clone(), run);
                assert(runs@ =~= before.insert(self.instance(), run@));
            },
            None => {
                assert(runs@ =~= before);
            },
        }
    }
}

/// Begins to post the tasks of a run: `None` when reporting is not active or the instance has no run.
///
/// Tasks start as soon as they are posted, so the runs stay locked until their tasks were told of.
pub fn begin_posting<S>(
    active: bool,
    runs: &StringMap<RunState<S>>,
    instance_id: &str,
) -> (guard: Option<PostingGuard>)
    ensures
        guard is Some <==> active && runs@.dom().contains(instance_id@),
        guard matches Some(guard) ==> guard.instance() == instance_id@,
{
    if active && runs.contains_key(instance_id) {
        Some(PostingGuard { instance_id: instance_id.to_owned() })
    } else {
        None
    }
}

/// A span that is to be started.
#[derive(Debug)]
pub struct SpanPlan {
    pub operation: String,
    pub description: String,
    pub data: StringMap<Datum>,
}

/// The content of a span that is to be started.
#[verifier::ext_equal]
pub struct Span {
    pub operation: Seq<char>,
    pub description: Seq<char>,
    pub data: Map<Seq<char>, DatumView>,
}

impl View for SpanPlan {
    type V = Span;

    open spec fn view(&self) -> Span {
        Span {
            operation: self.operation@,
            description: self.description@,
            data: self.data@,
        }
    }
}

/// What was told of a task; nothing where it was not told of.
pub open spec fn meta_of<S>(run: Run<S>, task_id: i64) -> Meta {
    if run.metas.dom().contains(task_id) {
        run.metas[task_id]
    } else {
        Meta::unknown()
    }
}

/// The span of a task.
pub open spec fn task_span<S>(run: Run<S>, task_id: i64) -> Span {
    let meta = meta_of(run, task_id);
    Span {
        operation: "mxu.task"@,
        description: meta.name,
        data: Map::empty().insert("run_id"@, DatumView::Text(run.run_id)).insert(
            "task"@,
            DatumView::Text(meta.name),
        ).insert("task_id"@, DatumView::Integer(task_id)).union_prefer_right(
            option_data(meta.options),
        ),
    }
}

/// The run after one of its tasks started, with the given span.
pub open spec fn with_task<S>(
    run: Run<S>,
    task_id: i64,
    span: S,
    runtime: Runtime,
) -> Run<S> {
    Run {
        children: run.children.insert(task_id, span),
        task_runtime: run.task_runtime.insert(task_id, runtime),
        active_task: Some(task_id),
        ..run
    }
}

/// `start_child` gave `span` for a child of `parent` as `plan` says.
pub open spec fn child_started<S, F: Fn(&S, &SpanPlan) -> S>(
    start_child: F,
    parent: S,
    plan: Span,
    span: S,
) -> bool {
    exists|given: SpanPlan|
        given@ == plan && #[trigger] call_ensures(start_child, (&parent, &given), span)
}

/// The keys of a map, in order.
pub fn keys<V: View>(map: &StringMap<V>) -> (keys: Vec<String>)
    ensures
        in_order(views(keys@), text_order()),
        views(keys@).no_duplicates(),
        forall|key: Seq<char>| #[trigger]
            views(keys@).contains(key) == map@.dom().contains(key),
{
    let entries = map.entries();
    let mut keys: Vec<String> = Vec::new();
    let mut index: usize = 0;
    while index < entries.len()
        invariant
            index <= entries@.len(),
            keys@.len() == index,
            forall|i: int| 0 <= i < index ==> (#[trigger] keys@[i])@ == entries@[i].0@,
        decreases entries@.len() - index,
    {
        keys.push(entries[index].0.clone());
        index += 1;
    }
    proof {
        lemma_listed(entries@);
        let all = views(keys@);
        assert forall|i: int, j: int| 0 <= i <= j < all.len() implies text_order()(
            #[trigger] all[i],
            #[trigger] all[j],
        ) by {
            assert(keys@[i]@ == entries@[i].0@ && keys@[j]@ == entries@[j].0@);
            lemma_text_order();
            assert(text_order()(all[i], all[j]) || text_order()(all[j], all[i]));
        }
        assert forall|i: int, j: int|
            0 <= i < all.len() && 0 <= j < all.len() && i != j implies all[i] != all[j] by {
            assert(keys@[i]@ == entries@[i].0@ && keys@[j]@ == entries@[j].0@);
            if i < j {
                assert(entries@[i].0@ != entries@[j].0@);
            } else {
                assert(entries@[j].0@ != entries@[i].0@);
            }
        }
        assert forall|key: Seq<char>| #[trigger] all.contains(key) == map@.dom().contains(key) by {
            if all.contains(key) {
                let i = choose|i: int| 0 <= i < all.len() && all[i] == key;
                assert(keys@[i]@ == entries@[i].0@);
                assert(entries@[i].0@ == key);
                assert(has_key(entries@, key));
            }
            if has_key(entries@, key) {
                let i = choose|i: int|
                    0 <= i < entries@.len() && (#[trigger] entries@[i]).0@ == key;
                assert(keys@[i]@ == entries@[i].0@);
                assert(all[i] == key);
            }
        }
    }
    keys
}

/// No other instance has a run.
pub open spec fn runs_alone<V>(runs: Map<Seq<char>, V>, instance_id: Seq<char>) -> bool {
    forall|key: Seq<char>| #[trigger] runs.dom().contains(key) ==> key == instance_id
}

/// Notes that a task starts, unless nothing reports, and tells whether a baseline of its evidence is
/// to be taken.
///
/// The baseline is left out where another instance is running, since the files could be those of the
/// other. `epoch` is the epoch before the task started. The result also has the epoch that begins
/// with the task, even where its instance has no run. `start_child` starts a span.
pub fn on_task_start<S, F: Fn(&S, &SpanPlan) -> S>(
    active: bool,
    runs: &mut StringMap<RunState<S>>,
    epoch: u64,
    instance_id: &str,
    maa_task_id: i64,
    started_at: u128,
    started_wall_time: Timestamp,
    start_child: F,
) -> (started: Option<(bool, u64)>)
    requires
        forall|parent: &S, plan: &SpanPlan| call_requires(start_child, (parent, plan)),
    ensures
        started is Some <==> active,
        started matches Some((capture_evidence, next)) ==> {
            &&& next == epoch.wrapping_add(1)
            &&& capture_evidence == (old(runs)@.dom().contains(instance_id@) && runs_alone(
                old(runs)@,
                instance_id@,
            ))
        },
        active && old(runs)@.dom().contains(instance_id@) ==> exists|span: S|
            {
                &&& #[trigger] child_started(
                    start_child,
                    old(runs)@[instance_id@].transaction,
                    task_span(old(runs)@[instance_id@], maa_task_id),
                    span,
                )
                &&& final(runs)@ == old(runs)@.insert(
                    instance_id@,
                    with_task(
                        old(runs)@[instance_id@],
                        maa_task_id,
                        span,
                        Runtime {
                            started_at,
                            started_wall_time,
                            evidence_start: None,
                            evidence_isolated: runs_alone(old(runs)@, instance_id@),
                            evidence_epoch: epoch.wrapping_add(1),
                        },
                    ),
                )
            },
        !active || !old(runs)@.dom().contains(instance_id@) ==> final(runs)@ == old(runs)@,
{
    if !active {
        return None;
    }
    let ghost before = runs@;
    let next: u64 = epoch.wrapping_add(1);
    let ids = keys(runs);
    let evidence_isolated = evidence_isolated_for_ids(instance_id, &ids);
    proof {
        let all = views(ids@);
        if evidence_isolated {
            assert forall|key: Seq<char>| #[trigger] before.dom().contains(key) implies key
                == instance_id@ by {
                assert(all.contains(key));
                let i = choose|i: int| 0 <= i < all.len() && all[i] == key;
                assert(all[i] == instance_id@);
            }
        } else {
            let i = choose|i: int| 0 <= i < all.len() && #[trigger] all[i] != instance_id@;
            assert(all.contains(all[i]));
            assert(before.dom().contains(all[i]));
        }
    }
    let mut run = match runs.remove(instance_id) {
        Some(run) => run,
        None => {
            assert(runs@ =~= before);
            return Some((false, next));
        },
    };
    let ghost given = run@;
    let meta = match run.metas.get(&maa_task_id) {
        Some(meta) => meta.clone(),
        None => TaskMeta::default(),
    };
    assert(meta@ == meta_of(given, maa_task_id));
    let mut data: StringMap<Datum> = StringMap::new();
    data.insert("run_id".to_owned(), Datum::Text(run.run_id.clone()));
    data.insert("task".to_owned(), Datum::Text(meta.name.clone()));
    data.insert("task_id".to_owned(), Datum::Integer(maa_task_id));
    set_options(&mut data, meta.options);
    let plan = SpanPlan { operation: "mxu.task".to_owned(), description: meta.name, data };
    assert(plan@ =~= task_span(given, maa_task_id));
    let span = start_child(&run.transaction, &plan);
    let ghost child = span;
    assert(child_started(start_child, given.transaction, task_span(given, maa_task_id), child));
    let runtime = TaskRuntime {
        started_at,
        started_wall_time,
        evidence_start: None,
        evidence_isolated,
        evidence_epoch: next,
    };
    let ghost started = runtime@;
    run.children.insert(maa_task_id, span);
    run.task_runtime.insert(maa_task_id, runtime);
    run.active_task = Some(maa_task_id);
    assert(run@ =~= with_task(given, maa_task_id, child, started));
    runs.insert(instance_id.to_owned(), run);
    assert(runs@ =~= before.insert(instance_id@, with_task(given, maa_task_id, child, started)));
    Some((evidence_isolated, next))
}

/// The run after the baseline of the evidence of a task was taken.
pub open spec fn with_baseline<S>(run: Run<S>, task_id: i64, start: Baseline) -> Run<S> {
    if run.task_runtime.dom().contains(task_id) {
        let runtime = run.task_runtime[task_id];
        Run {
            task_runtime: run.task_runtime.insert(
                task_id,
                Runtime { evidence_start: Some(start), ..runtime },
            ),
            ..run
        }
    } else {
        run
    }
}

/// Notes the baseline of the evidence of a task, unless the task or its run ended meanwhile.
pub fn record_evidence_start<S>(
    runs: &mut StringMap<RunState<S>>,
    instance_id: &str,
    maa_task_id: i64,
    evidence_start: TaskEvidenceStart,
)
    ensures
        final(runs)@ == (if old(runs)@.dom().contains(instance_id@) {
            old(runs)@.insert(
                instance_id@,
                with_baseline(old(runs)@[instance_id@], maa_task_id, evidence_start@),
            )
        } else {
            old(runs)@
        }),
{
    let ghost before = runs@;
    let mut run = match runs.remove(instance_id) {
        Some(run) => run,
        None => {
            assert(runs@ =~= before);
            return;
        },
    };
    let ghost given = run@;
    match run.task_runtime.remove(&maa_task_id) {
        Some(runtime) => {
            let ghost old_runtime = runtime@;
            let mut runtime = runtime;
            runtime.evidence_start = Some(evidence_start);
            let ghost new_runtime = runtime@;
            run.task_runtime.insert(maa_task_id, runtime);
            assert(new_runtime =~= (Runtime {
                evidence_start: Some(evidence_start@),
                ..old_runtime
            }));
        },
        None => {},
    }
    assert(run@ =~= with_baseline(given, maa_task_id, evidence_start@));
    runs.insert(instance_id.to_owned(), run);
    assert(runs@ =~= before.insert(
        instance_id@,
        with_baseline(given, maa_task_id, evidence_start@),
    ));
}

/// A task that was told of before it starts gets a span with its name and all its options.
pub proof fn lemma_posted_task_named<S>(run: Run<S>, task_id: i64, meta: Meta, option: Seq<char>)
    ensures
        ({
            let posted = Run { metas: run.metas.insert(task_id, meta), ..run };
            let span = task_span(posted, task_id);
            &&& span.description == meta.name
            &&& span.data.dom().contains("task"@)
            &&& span.data["task"@] == DatumView::Text(meta.name)
            &&& span.data.dom().contains("task_id"@)
            &&& span.data["task_id"@] == DatumView::Integer(task_id)
            &&& meta.options.dom().contains(option) ==> {
                &&& span.data.dom().contains("option."@ + option)
                &&& span.data["option."@ + option] == DatumView::Text(meta.options[option])
            }
        }),
{
    let prefix = "option."@;
    reveal_strlit("option.");
    reveal_strlit("task");
    reveal_strlit("task_id");
    assert("task"@.len() != "task_id"@.len());
    assert("task"@[0] == 't');
    assert("task_id"@[0] == 't');
    assert(prefix[0] == 'o');
    assert forall|key: Seq<char>| key.len() > 0 && key[0] == 't' implies !starts_with(key, prefix) by {
        if starts_with(key, prefix) {
            assert(key.subrange(0, prefix.len() as int)[0] == key[0]);
        }
    }
    assert((prefix + option).subrange(0, prefix.len() as int) =~= prefix);
    assert((prefix + option).skip(prefix.len() as int) =~= option);
}

} // verus!
