//! What the nodes of a running task tell: which of them are reported, and which failed.

use vstd::prelude::*;
use serde_json::Value;
use std::collections::HashMap;
use crate::event::{is_empty, Datum, DatumView};
use crate::json::{
    field_of, flag_of, get, get_flag, get_integer, get_text, integer_of, json, json_of,
    parse_json, parsed_json, text_of, Json,
};
use crate::map::StringMap;
use crate::path::option_view;
use crate::report::{FailureSignal, Signal};
use crate::runs::{signals_view, Run, RunState};
use crate::text::{
    contains, ends_with, has_part, has_prefix, has_suffix, same_text, starts_with, to_chars,
};
use crate::time::{elapsed_ms, millis_between};

verus! {

broadcast use vstd::std_specs::hash::group_hash_axioms;

/// No more nodes of one task than this are reported.
pub const MAX_TRACED_NODES_PER_TASK: u32 = 1000;

/// A message is worth reading: it tells where a task is or that a node failed, or its details may
/// ask for a report.
pub open spec fn is_worth_reading(message: Seq<char>, details: Seq<char>) -> bool {
    ||| message == "Node.PipelineNode.Starting"@
    ||| message == "Node.PipelineNode.Failed"@
    ||| starts_with(message, "Node."@) && contains(details, "\"trace\""@)
}

/// Whether a message is worth reading.
///
/// Messages come often and their details can be long, so most are told apart by their name.
pub fn needs_parse(message: &str, details: &str) -> (needed: bool)
    ensures
        needed == is_worth_reading(message@, details@),
{
    same_text(message, "Node.PipelineNode.Starting") || same_text(
        message,
        "Node.PipelineNode.Failed",
    ) || (has_prefix(&to_chars(message), "Node.") && has_part(&to_chars(details), "\"trace\""))
}

/// A node asks for a report of a message, or does so by default: where it failed.
pub open spec fn is_traced(detail: Json, message: Seq<char>) -> bool {
    flag_of(field_of(field_of(detail.field("focus"@), message), "trace"@)).unwrap_or(
        message == "Node.PipelineNode.Failed"@,
    )
}

/// Whether a node asks for a report of a message.
pub fn resolve_trace(detail: &Value, message: &str) -> (traced: bool)
    ensures
        traced == is_traced(json(*detail), message@),
{
    match get_flag(get(get(get(Some(detail), "focus"), message), "trace")) {
        Some(traced) => traced,
        None => same_text(message, "Node.PipelineNode.Failed"),
    }
}

/// A text that is there and is not empty.
pub open spec fn filled_text(text: Option<Seq<char>>) -> Option<Seq<char>> {
    match text {
        Some(text) => if text.len() == 0 {
            None
        } else {
            Some(text)
        },
        None => None,
    }
}

/// The node whose successors are being searched.
pub open spec fn search_node(detail: Json) -> Option<Seq<char>> {
    filled_text(text_of(detail.field("name"@)))
}

/// The node that was found and run, which only messages of the pipeline tell.
pub open spec fn hit_node(detail: Json, message: Seq<char>) -> Option<Seq<char>> {
    if starts_with(message, "Node.PipelineNode."@) {
        filled_text(text_of(field_of(detail.field("node_details"@), "name"@)))
    } else {
        None
    }
}

fn filled_value(value: Option<&Value>) -> (text: Option<String>)
    ensures
        option_view(text) == filled_text(text_of(json_of(value))),
{
    match get_text(value) {
        Some(text) => if is_empty(text.as_str()) {
            None
        } else {
            Some(text)
        },
        None => None,
    }
}

/// The stage at which a step failed: what was found failed, or nothing was found.
pub open spec fn failed_stage(message: Seq<char>, hit: Option<Seq<char>>) -> Option<Seq<char>> {
    if message == "Node.PipelineNode.Failed"@ {
        Some(
            if hit is Some {
                "action"@
            } else {
                "recognition"@
            },
        )
    } else {
        None
    }
}

/// The task that a node belongs to.
///
/// A task that another one runs has an identity of its own that nobody was told of: it belongs to
/// the task that is active.
pub open spec fn owner_of<S>(run: Run<S>, task_id: i64) -> Option<i64> {
    if run.children.dom().contains(task_id) {
        Some(task_id)
    } else {
        match run.active_task {
            Some(id) => if run.children.dom().contains(id) {
                Some(id)
            } else {
                None
            },
            None => None,
        }
    }
}

/// A message that ends a step of the pipeline.
pub open spec fn ends_step(message: Seq<char>) -> bool {
    message == "Node.PipelineNode.Succeeded"@ || message == "Node.PipelineNode.Failed"@
}

/// How long a task has been at a node, where it is known that it came to that node.
pub open spec fn step_duration<S>(run: Run<S>, task_id: i64, node_id: Option<i64>, now: u128) -> Option<
    u64,
> {
    if run.last_steps.dom().contains(task_id) && node_id == Some(run.last_steps[task_id].0) {
        Some(millis_between(run.last_steps[task_id].1, now))
    } else {
        None
    }
}

/// The value of a counter, which starts at zero.
pub open spec fn count_of(counters: Map<i64, u32>, id: i64) -> u32 {
    if counters.dom().contains(id) {
        counters[id]
    } else {
        0
    }
}

/// A node of a task as its message tells it.
#[verifier::ext_equal]
pub struct NodeView {
    pub message: Seq<char>,
    pub task_id: i64,
    pub node_id: Option<i64>,
    pub search: Option<Seq<char>>,
    pub hit: Option<Seq<char>>,
}

impl NodeView {
    /// The name of the node: of the one that was found, else of the one whose successors were
    /// searched.
    pub open spec fn name(self) -> Option<Seq<char>> {
        if self.hit is Some {
            self.hit
        } else {
            self.search
        }
    }

    pub open spec fn stage(self) -> Option<Seq<char>> {
        failed_stage(self.message, self.hit)
    }

    /// How long the step took, for a message that ends one.
    pub open spec fn duration<S>(self, run: Run<S>, now: u128) -> Option<u64> {
        if ends_step(self.message) {
            step_duration(run, self.task_id, self.node_id, now)
        } else {
            None
        }
    }

    /// What is told of the node if it failed.
    pub open spec fn signal<S>(self, run: Run<S>, now: u128) -> Signal {
        Signal {
            node: self.name()->0,
            stage: self.stage()->0,
            source_task_id: self.task_id,
            node_id: self.node_id,
            duration_ms: self.duration(run, now),
        }
    }

    /// The run after the node was told of, which belongs to the task `owner`.
    pub open spec fn recorded<S>(self, run: Run<S>, owner: i64, now: u128) -> Run<S> {
        let run_after = Run {
            last_steps: if ends_step(self.message) {
                run.last_steps.remove(self.task_id)
            } else {
                run.last_steps
            },
            traced_nodes: run.traced_nodes.insert(
                owner,
                (count_of(run.traced_nodes, owner) + 1) as u32,
            ),
            ..run
        };
        if self.stage() is Some {
            let signal = self.signal(run, now);
            Run {
                failed_nodes: run.failed_nodes.insert(
                    owner,
                    (count_of(run.failed_nodes, owner) + 1) as u32,
                ),
                failure_signals: if run.failure_signals.dom().contains(owner) {
                    run.failure_signals
                } else {
                    run.failure_signals.insert(owner, signal)
                },
                terminal_failure_signals: run.terminal_failure_signals.insert(owner, signal),
                ..run_after
            }
        } else {
            run_after
        }
    }

    /// The span that reports the node.
    pub open spec fn span<S>(self, run: Run<S>, owner: i64, now: u128) -> NodeSpanView {
        let task = if run.metas.dom().contains(owner) {
            run.metas[owner].name
        } else {
            seq![]
        };
        let data = Map::empty().insert("message"@, DatumView::Text(self.message));
        let data = if self.hit is Some && self.search is Some {
            data.insert("search_node"@, DatumView::Text(self.search->0))
        } else {
            data
        };
        let data = match self.stage() {
            Some(stage) => data.insert("stage"@, DatumView::Text(stage)),
            None => data,
        };
        let data = if task.len() > 0 {
            data.insert("task"@, DatumView::Text(task))
        } else {
            data
        };
        let data = data.insert("task_id"@, DatumView::Integer(self.task_id));
        let data = match self.node_id {
            Some(node_id) => data.insert("node_id"@, DatumView::Integer(node_id)),
            None => data,
        };
        let data = match self.duration(run, now) {
            Some(millis) => data.insert("duration_ms"@, DatumView::Natural(millis)),
            None => data,
        };
        NodeSpanView {
            owner_id: owner,
            operation: "mxu.node"@,
            description: self.name()->0,
            failed: ends_with(self.message, ".Failed"@),
            data,
        }
    }

    /// What the message of a node comes to: the run after it, and the span that reports it, unless
    /// the node has no name, belongs to no task or too many were reported.
    pub open spec fn outcome<S>(self, run: Run<S>, now: u128) -> (Run<S>, Option<NodeSpanView>) {
        if self.name() is None {
            (run, None)
        } else {
            match owner_of(run, self.task_id) {
                None => (run, None),
                Some(owner) => (
                    self.recorded(run, owner, now),
                    if count_of(run.traced_nodes, owner) + 1 > MAX_TRACED_NODES_PER_TASK {
                        None
                    } else {
                        Some(self.span(run, owner, now))
                    },
                ),
            }
        }
    }
}

/// A span that reports a node, as a child of the span of a task, and is over as soon as it starts.
#[derive(Debug)]
pub struct NodeSpan {
    pub owner_id: i64,
    pub operation: String,
    pub description: String,
    pub failed: bool,
    pub data: StringMap<Datum>,
}

/// The content of a span that reports a node.
#[verifier::ext_equal]
pub struct NodeSpanView {
    pub owner_id: i64,
    pub operation: Seq<char>,
    pub description: Seq<char>,
    pub failed: bool,
    pub data: Map<Seq<char>, DatumView>,
}

impl View for NodeSpan {
    type V = NodeSpanView;

    open spec fn view(&self) -> NodeSpanView {
        NodeSpanView {
            owner_id: self.owner_id,
            operation: self.operation@,
            description: self.description@,
            failed: self.failed,
            data: self.data@,
        }
    }
}

/// The content of a span, where there is one.
pub open spec fn span_view(span: Option<NodeSpan>) -> Option<NodeSpanView> {
    match span {
        Some(span) => Some(span@),
        None => None,
    }
}

/// Keeps the first failure of a task, by which failures are grouped, and the last.
pub fn retain_failure_signals(
    roots: &mut HashMap<i64, FailureSignal>,
    terminals: &mut HashMap<i64, FailureSignal>,
    owner_id: i64,
    signal: FailureSignal,
)
    ensures
        signals_view(final(roots)@) == (if old(roots)@.dom().contains(owner_id) {
            signals_view(old(roots)@)
        } else {
            signals_view(old(roots)@).insert(owner_id, signal@)
        }),
        signals_view(final(terminals)@) == signals_view(old(terminals)@).insert(owner_id, signal@),
{
    let ghost roots_before = roots@;
    let ghost terminals_before = terminals@;
    if !roots.contains_key(&owner_id) {
        roots.insert(owner_id, signal.clone());
        assert(signals_view(roots@) =~= signals_view(roots_before).insert(owner_id, signal@));
    }
    terminals.insert(owner_id, signal);
    assert(signals_view(terminals@) =~= signals_view(terminals_before).insert(owner_id, signal@));
}

/// The value of a counter, which starts at zero.
fn read_count(counters: &HashMap<i64, u32>, id: i64) -> (count: u32)
    ensures
        count == count_of(counters@, id),
{
    match counters.get(&id) {
        Some(count) => *count,
        None => 0,
    }
}

/// The counters of the task that a node of `task_id` belongs to can still grow.
pub open spec fn can_count<S>(run: Run<S>, task_id: i64) -> bool {
    owner_of(run, task_id) matches Some(owner) ==> count_of(run.traced_nodes, owner) < u32::MAX
        && count_of(run.failed_nodes, owner) < u32::MAX
}

impl<S> RunState<S> {
    /// The task that a node of `task_id` belongs to.
    fn owner(&self, task_id: i64) -> (owner: Option<i64>)
        ensures
            owner == owner_of(self@, task_id),
    {
        if self.children.contains_key(&task_id) {
            return Some(task_id);
        }
        match self.active_task {
            Some(id) => if self.children.contains_key(&id) {
                Some(id)
            } else {
                None
            },
            None => None,
        }
    }

    /// Ends the step that a task is at, and tells how long it took if it is the step at `node_id`.
    fn take_step(&mut self, task_id: i64, node_id: Option<i64>, now: u128) -> (duration: Option<u64>)
        ensures
            duration == step_duration(old(self)@, task_id, node_id, now),
            final(self)@ == (Run {
                last_steps: old(self)@.last_steps.remove(task_id),
                ..old(self)@
            }),
    {
        let ghost before = self@;
        let step = self.last_steps.remove(&task_id);
        assert(self@ =~= (Run { last_steps: before.last_steps.remove(task_id), ..before }));
        match (step, node_id) {
            (Some((id, started)), Some(node_id)) => if id == node_id {
                Some(elapsed_ms(started, now))
            } else {
                None
            },
            _ => None,
        }
    }
}

/// What a message tells of a node.
#[derive(Debug)]
pub struct NodeEvent<'a> {
    pub message: &'a str,
    pub task_id: i64,
    pub node_id: Option<i64>,
    pub search_node: Option<String>,
    pub hit_node: Option<String>,
}

impl<'a> View for NodeEvent<'a> {
    type V = NodeView;

    open spec fn view(&self) -> NodeView {
        NodeView {
            message: self.message@,
            task_id: self.task_id,
            node_id: self.node_id,
            search: option_view(self.search_node),
            hit: option_view(self.hit_node),
        }
    }
}

/// Makes the data of the span that reports a node.
fn node_data(
    event: &NodeEvent<'_>,
    stage: Option<&'static str>,
    task_name: &str,
    duration_ms: Option<u64>,
) -> (data: StringMap<Datum>)
    ensures
        data@ == ({
            let data = Map::empty().insert("message"@, DatumView::Text(event@.message));
            let data = if event@.hit is Some && event@.search is Some {
                data.insert("search_node"@, DatumView::Text(event@.search->0))
            } else {
                data
            };
            let data = match stage {
                Some(stage) => data.insert("stage"@, DatumView::Text(stage@)),
                None => data,
            };
            let data = if task_name@.len() > 0 {
                data.insert("task"@, DatumView::Text(task_name@))
            } else {
                data
            };
            let data = data.insert("task_id"@, DatumView::Integer(event@.task_id));
            let data = match event@.node_id {
                Some(node_id) => data.insert("node_id"@, DatumView::Integer(node_id)),
                None => data,
            };
            match duration_ms {
                Some(millis) => data.insert("duration_ms"@, DatumView::Natural(millis)),
                None => data,
            }
        }),
{
    let mut data: StringMap<Datum> = StringMap::new();
    data.insert("message".to_owned(), Datum::Text(event.message.to_owned()));
    if event.hit_node.is_some() {
        if let Some(search_node) = &event.search_node {
            data.insert("search_node".to_owned(), Datum::Text(search_node.clone()));
        }
    }
    if let Some(stage) = stage {
        data.insert("stage".to_owned(), Datum::Text(stage.to_owned()));
    }
    if !is_empty(task_name) {
        data.insert("task".to_owned(), Datum::Text(task_name.to_owned()));
    }
    data.insert("task_id".to_owned(), Datum::Integer(event.task_id));
    if let Some(node_id) = event.node_id {
        data.insert("node_id".to_owned(), Datum::Integer(node_id));
    }
    if let Some(millis) = duration_ms {
        data.insert("duration_ms".to_owned(), Datum::Natural(millis));
    }
    data
}

/// Notes what a message tells of a node, and gives the span that reports it.
///
/// A failure is counted and kept though no more spans are reported.
pub fn record_node_event<S>(run: &mut RunState<S>, event: &NodeEvent<'_>, now: u128) -> (span: Option<
    NodeSpan,
>)
    requires
        can_count(old(run)@, event@.task_id),
    ensures
        (final(run)@, span_view(span)) == event@.outcome(old(run)@, now),
        span matches Some(made) ==> (made.failed <==> event.message@.len() >= 7 && event.message@.skip(
            event.message@.len() - 7,
        ) == ".Failed"@),
{
    let ghost given = run@;
    let ghost node_view = event@;
    let node = match (&event.hit_node, &event.search_node) {
        (Some(hit), _) => hit.clone(),
        (None, Some(search)) => search.clone(),
        (None, None) => {
            return None;
        },
    };
    let failed = same_text(event.message, "Node.PipelineNode.Failed");
    let stage: Option<&'static str> = if failed {
        Some(
            if event.hit_node.is_some() {
                "action"
            } else {
                "recognition"
            },
        )
    } else {
        None
    };
    let owner: i64 = match run.owner(event.task_id) {
        Some(owner) => owner,
        None => {
            return None;
        },
    };
    let duration_ms: Option<u64> = if failed || same_text(
        event.message,
        "Node.PipelineNode.Succeeded",
    ) {
        run.take_step(event.task_id, event.node_id, now)
    } else {
        None
    };
    assert(duration_ms == node_view.duration(given, now));
    let task_name = match run.metas.get(&owner) {
        Some(meta) => meta.name.clone(),
        None => String::new(),
    };
    if let Some(stage) = stage {
        let count: u32 = read_count(&run.failed_nodes, owner);
        run.failed_nodes.insert(owner, count + 1);
        let signal = FailureSignal {
            node: node.clone(),
            stage: stage.to_owned(),
            source_task_id: event.task_id,
            node_id: event.node_id,
            duration_ms,
        };
        assert(signal@ =~= node_view.signal(given, now));
        retain_failure_signals(
            &mut run.failure_signals,
            &mut run.terminal_failure_signals,
            owner,
            signal,
        );
    }
    let count: u32 = read_count(&run.traced_nodes, owner);
    run.traced_nodes.insert(owner, count + 1);
    assert(run@ =~= node_view.recorded(given, owner, now));
    if count + 1 > MAX_TRACED_NODES_PER_TASK {
        return None;
    }
    let data = node_data(event, stage, task_name.as_str(), duration_ms);
    let span = NodeSpan {
        owner_id: owner,
        operation: "mxu.node".to_owned(),
        description: node,
        failed: has_suffix(&to_chars(event.message), ".Failed"),
        data,
    };
    assert(span@ =~= node_view.span(given, owner, now));
    proof {
        reveal_strlit(".Failed");
        let message = event.message@;
        if message.len() >= 7 {
            assert(message.subrange(message.len() - 7, message.len() as int) =~= message.skip(
                message.len() - 7,
            ));
        }
    }
    Some(span)
}

/// The run after a task came to a node.
pub open spec fn with_step<S>(run: Run<S>, task_id: i64, node_id: i64, now: u128) -> Run<S> {
    Run { last_steps: run.last_steps.insert(task_id, (node_id, now)), ..run }
}

/// Notes that a task came to a node.
pub fn mark_step_start<S>(run: &mut RunState<S>, task_id: i64, node_id: i64, now: u128)
    ensures
        final(run)@ == with_step(old(run)@, task_id, node_id, now),
{
    let ghost before = run@;
    run.last_steps.insert(task_id, (node_id, now));
    assert(run@ =~= with_step(before, task_id, node_id, now));
}

/// What a message that was read tells of a node.
pub open spec fn node_of(message: Seq<char>, detail: Json, task_id: i64) -> NodeView {
    NodeView {
        message,
        task_id,
        node_id: integer_of(detail.field("node_id"@)),
        search: search_node(detail),
        hit: hit_node(detail, message),
    }
}

/// What a message that was read comes to: the run after it, and the span that reports the node.
pub open spec fn message_outcome<S>(run: Run<S>, message: Seq<char>, detail: Json, now: u128) -> (
    Run<S>,
    Option<NodeSpanView>,
) {
    match integer_of(detail.field("task_id"@)) {
        None => (run, None),
        Some(task_id) => {
            let node = node_of(message, detail, task_id);
            let run = if message == "Node.PipelineNode.Starting"@ && node.node_id is Some {
                with_step(run, task_id, node.node_id->0, now)
            } else {
                run
            };
            if is_traced(detail, message) {
                node.outcome(run, now)
            } else {
                (run, None)
            }
        },
    }
}

/// Notes what a message that was read tells, and gives the span that reports the node.
pub fn apply_node_message<S>(run: &mut RunState<S>, message: &str, detail: &Value, now: u128) -> (
    span: Option<NodeSpan>)
    requires
        integer_of(json(*detail).field("task_id"@)) matches Some(task_id) ==> can_count(
            old(run)@,
            task_id,
        ),
    ensures
        (final(run)@, span_view(span)) == message_outcome(
            old(run)@,
            message@,
            json(*detail),
            now,
        ),
        span matches Some(made) ==> (made.failed <==> message@.len() >= 7 && message@.skip(
            message@.len() - 7,
        ) == ".Failed"@),
{
    let task_id: i64 = match get_integer(get(Some(detail), "task_id")) {
        Some(task_id) => task_id,
        None => {
            return None;
        },
    };
    let node_id: Option<i64> = get_integer(get(Some(detail), "node_id"));
    if same_text(message, "Node.PipelineNode.Starting") {
        if let Some(node_id) = node_id {
            mark_step_start(run, task_id, node_id, now);
        }
    }
    if !resolve_trace(detail, message) {
        return None;
    }
    let hit_node = if has_prefix(&to_chars(message), "Node.PipelineNode.") {
        filled_value(get(get(Some(detail), "node_details"), "name"))
    } else {
        None
    };
    let event = NodeEvent {
        message,
        task_id,
        node_id,
        search_node: filled_value(get(Some(detail), "name")),
        hit_node,
    };
    assert(event@ =~= node_of(message@, json(*detail), task_id));
    record_node_event(run, &event, now)
}

/// What the message of a node comes to.
pub open spec fn node_event_outcome<S>(
    active: bool,
    runs: Map<Seq<char>, Run<S>>,
    instance_id: Seq<char>,
    message: Seq<char>,
    details: Seq<char>,
    now: u128,
) -> (Map<Seq<char>, Run<S>>, Option<NodeSpanView>) {
    if !is_worth_reading(message, details) || !active {
        (runs, None)
    } else {
        match parsed_json(details) {
            None => (runs, None),
            Some(detail) => if runs.dom().contains(instance_id) {
                let (run, span) = message_outcome(runs[instance_id], message, detail, now);
                (runs.insert(instance_id, run), span)
            } else {
                (runs, None)
            },
        }
    }
}

/// Every counter of a run can still grow.
pub open spec fn counters_can_grow<S>(run: Run<S>) -> bool {
    forall|id: i64| #![trigger count_of(run.traced_nodes, id)]
        count_of(run.traced_nodes, id) < u32::MAX && count_of(run.failed_nodes, id) < u32::MAX
}

/// Notes what the message of a node tells, and gives the span that reports the node.
///
/// `now` is the reading of a clock that never goes back, in nanoseconds.
pub fn on_node_event<S>(
    active: bool,
    runs: &mut StringMap<RunState<S>>,
    instance_id: &str,
    message: &str,
    details: &str,
    now: u128,
) -> (span: Option<NodeSpan>)
    requires
        old(runs)@.dom().contains(instance_id@) ==> counters_can_grow(old(runs)@[instance_id@]),
    ensures
        (final(runs)@, span_view(span)) == node_event_outcome(
            active,
            old(runs)@,
            instance_id@,
            message@,
            details@,
            now,
        ),
        span matches Some(made) ==> (made.failed <==> message@.len() >= 7 && message@.skip(
            message@.len() - 7,
        ) == ".Failed"@),
{
    let ghost before = runs@;
    if !needs_parse(message, details) || !active {
        return None;
    }
    let detail = match parse_json(details) {
        Some(detail) => detail,
        None => {
            return None;
        },
    };
    match runs.remove(instance_id) {
        Some(run) => {
            let mut run = run;
            proof {
                assert(counters_can_grow(run@));
                if let Some(task_id) = integer_of(json(detail).field("task_id"@)) {
                    if let Some(owner) = owner_of(run@, task_id) {
                        assert(count_of(run@.traced_nodes, owner) < u32::MAX);
                    }
                }
            }
            let span = apply_node_message(&mut run, message, &detail, now);
            let ghost after = run@;
            runs.insert(instance_id.to_owned(), run);
            assert(runs@ =~= before.insert(instance_id@, after));
            span
        },
        None => {
            assert(runs@ =~= before);
            None
        },
    }
}

/// The run after the given nodes were told of, each at its time, and the spans that reported them.
pub open spec fn after_nodes<S>(run: Run<S>, nodes: Seq<(NodeView, u128)>) -> (
    Run<S>,
    Seq<NodeSpanView>,
)
    decreases nodes.len(),
{
    if nodes.len() == 0 {
        (run, seq![])
    } else {
        let (before, spans) = after_nodes(run, nodes.drop_last());
        let (after, span) = nodes.last().0.outcome(before, nodes.last().1);
        match span {
            Some(span) => (after, spans.push(span)),
            None => (after, spans),
        }
    }
}

/// How many of the spans belong to a task.
pub open spec fn spans_for(spans: Seq<NodeSpanView>, owner: i64) -> nat
    decreases spans.len(),
{
    if spans.len() == 0 {
        0
    } else {
        spans_for(spans.drop_last(), owner) + if spans.last().owner_id == owner {
            1nat
        } else {
            0
        }
    }
}

proof fn lemma_spans_counted<S>(run: Run<S>, nodes: Seq<(NodeView, u128)>, owner: i64)
    requires
        nodes.len() < u32::MAX,
        count_of(run.traced_nodes, owner) == 0,
    ensures
        ({
            let (after, spans) = after_nodes(run, nodes);
            &&& spans_for(spans, owner) <= count_of(after.traced_nodes, owner) <= nodes.len()
            &&& spans_for(spans, owner) <= MAX_TRACED_NODES_PER_TASK
        }),
    decreases nodes.len(),
{
    if nodes.len() > 0 {
        lemma_spans_counted(run, nodes.drop_last(), owner);
        let (before, spans) = after_nodes(run, nodes.drop_last());
        let (after, span) = nodes.last().0.outcome(before, nodes.last().1);
        if span is Some {
            assert(spans.push(span->0).drop_last() =~= spans);
        }
    }
}

/// However many of its nodes are told of, no more spans than the limit are reported for a task.
pub proof fn lemma_span_budget<S>(run: Run<S>, nodes: Seq<(NodeView, u128)>, owner: i64)
    requires
        nodes.len() < u32::MAX,
        count_of(run.traced_nodes, owner) == 0,
    ensures
        spans_for(after_nodes(run, nodes).1, owner) <= MAX_TRACED_NODES_PER_TASK,
{
    lemma_spans_counted(run, nodes, owner);
}

/// The first failure of a task is kept, whatever nodes are told of after it.
pub proof fn lemma_first_failure_kept<S>(run: Run<S>, nodes: Seq<(NodeView, u128)>, owner: i64)
    requires
        run.failure_signals.dom().contains(owner),
    ensures
        after_nodes(run, nodes).0.failure_signals.dom().contains(owner),
        after_nodes(run, nodes).0.failure_signals[owner] == run.failure_signals[owner],
    decreases nodes.len(),
{
    if nodes.len() > 0 {
        lemma_first_failure_kept(run, nodes.drop_last(), owner);
    }
}

/// A failure is kept as the last of its task, and as the first where it is, though no more spans are
/// reported.
pub proof fn lemma_failure_kept<S>(run: Run<S>, node: NodeView, now: u128, owner: i64)
    requires
        node.name() is Some,
        node.message == "Node.PipelineNode.Failed"@,
        owner_of(run, node.task_id) == Some(owner),
    ensures
        ({
            let after = node.outcome(run, now).0;
            &&& after.terminal_failure_signals.dom().contains(owner)
            &&& after.terminal_failure_signals[owner] == node.signal(run, now)
            &&& after.failure_signals.dom().contains(owner)
            &&& !run.failure_signals.dom().contains(owner) ==> after.failure_signals[owner]
                == node.signal(run, now)
        }),
{
}

/// What a node tells changes neither what was told of the tasks, nor which of them are running, nor
/// their evidence.
pub proof fn lemma_nodes_leave_tasks<S>(run: Run<S>, node: NodeView, now: u128)
    ensures
        ({
            let after = node.outcome(run, now).0;
            &&& after.children == run.children
            &&& after.metas == run.metas
            &&& after.task_runtime == run.task_runtime
            &&& after.active_task == run.active_task
            &&& after.has_failed == run.has_failed
            &&& after.tags == run.tags
            &&& after.run_id == run.run_id
        }),
{
}

} // verus!
