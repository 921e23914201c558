//! What the messages of nodes come to: the spans that report them, and what is kept of failures.

use vstd::prelude::*;
use crate::event::DatumView;
use crate::json::{integer_of, json, Json};
use crate::map::StringMap;
use crate::nodes::{
    apply_node_message, is_traced, is_worth_reading, mark_step_start, message_outcome, needs_parse,
    node_event_outcome, node_of, on_node_event, record_node_event, resolve_trace,
    retain_failure_signals, NodeEvent, NodeSpan, NodeView,
};
use crate::report::FailureSignal;
use crate::runs::{Run, RunState};
use crate::text::{contains, starts_with};
use crate::time::millis_between;
use serde_json::Value;
use std::collections::HashMap;

verus! {

/// The last characters of a text are the given ones.
pub open spec fn has_end(text: Seq<char>, end: Seq<char>) -> bool {
    text.len() >= end.len() && text.skip(text.len() - end.len()) == end
}

/// A task is running: it has a span.
pub open spec fn is_running<S>(run: Run<S>, task_id: i64) -> bool {
    run.children.dom().contains(task_id)
}

/// The number under a key, which is zero where there is none.
pub open spec fn counted(counters: Map<i64, u32>, id: i64) -> int {
    if counters.dom().contains(id) {
        counters[id] as int
    } else {
        0
    }
}

/// The task that a node is reported for: its own where that is running, else the active one where
/// that is.
pub open spec fn is_owner<S>(run: Run<S>, task_id: i64, owner: i64) -> bool {
    if is_running(run, task_id) {
        owner == task_id
    } else {
        run.active_task == Some(owner) && is_running(run, owner)
    }
}

/// A node is reported exactly when it has a name, belongs to a task and fewer than a thousand nodes
/// of that task were reported. The span carries its name, belongs to that task, and is marked failed
/// exactly when the message ends with `.Failed`.
pub proof fn lemma_node_span<S>(run: Run<S>, node: NodeView, now: u128)
    ensures
        ({
            let span = node.outcome(run, now).1;
            &&& span is Some <==> {
                &&& node.hit is Some || node.search is Some
                &&& exists|owner: i64| #[trigger]
                    is_owner(run, node.task_id, owner) && counted(run.traced_nodes, owner) < 1000
            }
            &&& span matches Some(span) ==> {
                &&& span.failed <==> has_end(node.message, ".Failed"@)
                &&& span.operation == "mxu.node"@
                &&& node.hit matches Some(name) ==> span.description == name
                &&& node.hit is None ==> node.search == Some(span.description)
                &&& is_owner(run, node.task_id, span.owner_id)
            }
        }),
{
    let outcome = node.outcome(run, now);
    if outcome.1 is Some {
        assert(is_owner(run, node.task_id, outcome.1->0.owner_id));
        let end = ".Failed"@;
        let message = node.message;
        if message.len() >= end.len() {
            assert(message.subrange(message.len() - end.len(), message.len() as int)
                =~= message.skip(message.len() - end.len()));
        }
    }
    if exists|owner: i64| #[trigger] is_owner(run, node.task_id, owner) && counted(
        run.traced_nodes,
        owner,
    ) < 1000 {
        let owner = choose|owner: i64| #[trigger]
            is_owner(run, node.task_id, owner) && counted(run.traced_nodes, owner) < 1000;
        assert(crate::nodes::owner_of(run, node.task_id) == Some(owner));
    }
}

proof fn lemma_node_keys()
    ensures
        "message"@ != "search_node"@,
        "message"@ != "stage"@,
        "message"@ != "task"@,
        "message"@ != "task_id"@,
        "message"@ != "node_id"@,
        "message"@ != "duration_ms"@,
        "search_node"@ != "stage"@,
        "search_node"@ != "task"@,
        "search_node"@ != "task_id"@,
        "search_node"@ != "node_id"@,
        "search_node"@ != "duration_ms"@,
        "stage"@ != "task"@,
        "stage"@ != "task_id"@,
        "stage"@ != "node_id"@,
        "stage"@ != "duration_ms"@,
        "task"@ != "task_id"@,
        "task"@ != "node_id"@,
        "task"@ != "duration_ms"@,
        "task_id"@ != "node_id"@,
        "task_id"@ != "duration_ms"@,
        "node_id"@ != "duration_ms"@,
{
    reveal_strlit("message");
    reveal_strlit("search_node");
    reveal_strlit("stage");
    reveal_strlit("task");
    reveal_strlit("task_id");
    reveal_strlit("node_id");
    reveal_strlit("duration_ms");
    assert("message"@.len() == 7 && "search_node"@.len() == 11 && "stage"@.len() == 5
        && "task"@.len() == 4 && "task_id"@.len() == 7 && "node_id"@.len() == 7
        && "duration_ms"@.len() == 11);
    assert("message"@[0] == 'm' && "task_id"@[0] == 't' && "node_id"@[0] == 'n'
        && "search_node"@[0] == 's' && "duration_ms"@[0] == 'd');
}

/// What the span of a node tells, key by key: the message, the node that was searched from where
/// another one was found, the stage at which a step failed, the name and the identity of the task,
/// the identity of the node, and how long the step took.
pub proof fn lemma_node_data<S>(run: Run<S>, node: NodeView, now: u128)
    ensures
        node.outcome(run, now).1 matches Some(span) ==> {
            let data = span.data;
            let owner = span.owner_id;
            let failed = node.message == "Node.PipelineNode.Failed"@;
            let ended = failed || node.message == "Node.PipelineNode.Succeeded"@;
            let timed = ended && run.last_steps.dom().contains(node.task_id) && node.node_id
                == Some(run.last_steps[node.task_id].0);
            &&& data.dom().contains("message"@) && data["message"@] == DatumView::Text(node.message)
            &&& data.dom().contains("search_node"@) <==> node.hit is Some && node.search is Some
            &&& data.dom().contains("search_node"@) ==> data["search_node"@] == DatumView::Text(
                node.search->0,
            )
            &&& data.dom().contains("stage"@) <==> failed
            &&& failed ==> data["stage"@] == DatumView::Text(
                if node.hit is Some {
                    "action"@
                } else {
                    "recognition"@
                },
            )
            &&& data.dom().contains("task"@) <==> run.metas.dom().contains(owner)
                && run.metas[owner].name.len() > 0
            &&& data.dom().contains("task"@) ==> data["task"@] == DatumView::Text(
                run.metas[owner].name,
            )
            &&& data.dom().contains("task_id"@) && data["task_id"@] == DatumView::Integer(
                node.task_id,
            )
            &&& data.dom().contains("node_id"@) <==> node.node_id is Some
            &&& node.node_id matches Some(id) ==> data["node_id"@] == DatumView::Integer(id)
            &&& data.dom().contains("duration_ms"@) <==> timed
            &&& timed ==> data["duration_ms"@] == DatumView::Natural(
                millis_between(run.last_steps[node.task_id].1, now),
            )
            &&& forall|key: Seq<char>| #[trigger]
                data.dom().contains(key) ==> key == "message"@ || key == "search_node"@ || key
                    == "stage"@ || key == "task"@ || key == "task_id"@ || key == "node_id"@ || key
                    == "duration_ms"@
        },
{
    lemma_node_keys();
}

/// What is kept of a failed step: it is counted, it is the last failure of its task, and the first
/// one where there was none. Every other message leaves the failures as they are.
pub proof fn lemma_failure_remembered<S>(run: Run<S>, node: NodeView, now: u128, owner: i64, other: i64)
    requires
        node.hit is Some || node.search is Some,
        is_owner(run, node.task_id, owner),
        counted(run.failed_nodes, owner) < u32::MAX,
        other != owner,
    ensures
        ({
            let after = node.outcome(run, now).0;
            let failed = node.message == "Node.PipelineNode.Failed"@;
            &&& failed ==> {
                &&& counted(after.failed_nodes, owner) == counted(run.failed_nodes, owner) + 1
                &&& after.failure_signals.dom().contains(owner)
                &&& after.terminal_failure_signals.dom().contains(owner)
                &&& run.failure_signals.dom().contains(owner) ==> after.failure_signals[owner]
                    == run.failure_signals[owner]
                &&& !run.failure_signals.dom().contains(owner) ==> after.failure_signals[owner]
                    == after.terminal_failure_signals[owner]
                &&& ({
                    let last = after.terminal_failure_signals[owner];
                    &&& node.hit matches Some(name) ==> last.node == name && last.stage == "action"@
                    &&& node.hit is None ==> Some(last.node) == node.search && last.stage
                        == "recognition"@
                    &&& last.source_task_id == node.task_id
                    &&& last.node_id == node.node_id
                    &&& last.duration_ms == (if run.last_steps.dom().contains(node.task_id)
                        && node.node_id == Some(run.last_steps[node.task_id].0) {
                        Some(millis_between(run.last_steps[node.task_id].1, now))
                    } else {
                        None
                    })
                })
            }
            &&& !failed ==> {
                &&& after.failed_nodes == run.failed_nodes
                &&& after.failure_signals == run.failure_signals
                &&& after.terminal_failure_signals == run.terminal_failure_signals
            }
            &&& counted(after.failed_nodes, other) == counted(run.failed_nodes, other)
            &&& after.failure_signals.dom().contains(other) == run.failure_signals.dom().contains(
                other,
            )
            &&& run.failure_signals.dom().contains(other) ==> after.failure_signals[other]
                == run.failure_signals[other]
            &&& run.terminal_failure_signals.dom().contains(other)
                ==> after.terminal_failure_signals.dom().contains(other)
                && after.terminal_failure_signals[other] == run.terminal_failure_signals[other]
        }),
{
    assert(crate::nodes::owner_of(run, node.task_id) == Some(owner));
}

/// A message that ends a step takes the note of where its task was; the others leave it. Every node of
/// a task counts against its limit.
pub proof fn lemma_node_counted<S>(run: Run<S>, node: NodeView, now: u128, owner: i64)
    requires
        node.hit is Some || node.search is Some,
        is_owner(run, node.task_id, owner),
        counted(run.traced_nodes, owner) < u32::MAX,
    ensures
        ({
            let after = node.outcome(run, now).0;
            let ended = node.message == "Node.PipelineNode.Failed"@ || node.message
                == "Node.PipelineNode.Succeeded"@;
            &&& counted(after.traced_nodes, owner) == counted(run.traced_nodes, owner) + 1
            &&& ended ==> after.last_steps == run.last_steps.remove(node.task_id)
            &&& !ended ==> after.last_steps == run.last_steps
        }),
{
    assert(crate::nodes::owner_of(run, node.task_id) == Some(owner));
}

/// A node without a name, or of a task that nobody knows, changes nothing.
pub proof fn lemma_unknown_node<S>(run: Run<S>, node: NodeView, now: u128)
    requires
        (node.hit is None && node.search is None) || forall|owner: i64|
            !#[trigger] is_owner(run, node.task_id, owner),
    ensures
        node.outcome(run, now).0 == run,
        node.outcome(run, now).1 is None,
{
    if crate::nodes::owner_of(run, node.task_id) is Some {
        assert(is_owner(run, node.task_id, crate::nodes::owner_of(run, node.task_id)->0));
    }
}

/// The member of an object.
pub open spec fn has_member(value: Json, key: Seq<char>, member: Json) -> bool {
    value matches Json::Object(fields) && fields.dom().contains(key) && fields[key] == member
}

/// An object, or whatever else it is, has no such member.
pub open spec fn lacks_member(value: Json, key: Seq<char>) -> bool {
    value matches Json::Object(fields) ==> !fields.dom().contains(key)
}

/// A node may ask under `focus`, for each message, to be reported or not; without that, only a step
/// that failed is.
pub proof fn lemma_traced(detail: Json, message: Seq<char>, focus: Json, choice: Json, traced: bool)
    ensures
        has_member(detail, "focus"@, focus) && has_member(focus, message, choice) && has_member(
            choice,
            "trace"@,
            Json::Bool(traced),
        ) ==> is_traced(detail, message) == traced,
        lacks_member(detail, "focus"@) ==> (is_traced(detail, message) <==> message
            == "Node.PipelineNode.Failed"@),
        has_member(detail, "focus"@, focus) && lacks_member(focus, message) ==> (is_traced(
            detail,
            message,
        ) <==> message == "Node.PipelineNode.Failed"@),
        has_member(detail, "focus"@, focus) && has_member(focus, message, choice) && lacks_member(
            choice,
            "trace"@,
        ) ==> (is_traced(detail, message) <==> message == "Node.PipelineNode.Failed"@),
{
}

/// What a message tells of a node: its identity, the node whose successors were searched, and, for
/// messages of the pipeline only, the node that was found.
pub proof fn lemma_node_read(
    message: Seq<char>,
    detail: Json,
    task_id: i64,
    name: Seq<char>,
    found: Json,
    hit: Seq<char>,
)
    ensures
        ({
            let node = node_of(message, detail, task_id);
            &&& node.message == message
            &&& node.task_id == task_id
            &&& node.node_id == (match detail {
                Json::Object(fields) => if fields.dom().contains("node_id"@) {
                    match fields["node_id"@] {
                        Json::Number { integer, text } => integer,
                        _ => None,
                    }
                } else {
                    None
                },
                _ => None,
            })
            &&& has_member(detail, "name"@, Json::Text(name)) ==> node.search == (if name.len()
                == 0 {
                None
            } else {
                Some(name)
            })
            &&& lacks_member(detail, "name"@) ==> node.search is None
            &&& !starts_with(message, "Node.PipelineNode."@) ==> node.hit is None
            &&& starts_with(message, "Node.PipelineNode."@) && has_member(
                detail,
                "node_details"@,
                found,
            ) && has_member(found, "name"@, Json::Text(hit)) ==> node.hit == (if hit.len() == 0 {
                None
            } else {
                Some(hit)
            })
            &&& lacks_member(detail, "node_details"@) ==> node.hit is None
        }),
{
}

/// Most messages are passed over unread: only the start and the failure of a step are read, and
/// messages of nodes whose details speak of a trace.
pub proof fn lemma_worth_reading(message: Seq<char>, details: Seq<char>)
    ensures
        is_worth_reading("Node.PipelineNode.Starting"@, details),
        is_worth_reading("Node.PipelineNode.Failed"@, details),
        is_worth_reading(message, details) && message != "Node.PipelineNode.Starting"@ && message
            != "Node.PipelineNode.Failed"@ ==> starts_with(message, "Node."@) && contains(
            details,
            "\"trace\""@,
        ),
        starts_with(message, "Node."@) && contains(details, "\"trace\""@) ==> is_worth_reading(
            message,
            details,
        ),
{
}

/// What is read comes to nothing without the identity of a task. The start of a step is noted, with
/// its time, whether it is reported or not. What is not traced leaves nothing else.
pub proof fn lemma_message_read<S>(run: Run<S>, message: Seq<char>, detail: Json, now: u128, task_id: i64)
    ensures
        integer_of(detail.field("task_id"@)) is None ==> message_outcome(run, message, detail, now)
            == (run, None::<crate::nodes::NodeSpanView>),
        integer_of(detail.field("task_id"@)) == Some(task_id) ==> {
            let node = node_of(message, detail, task_id);
            let (after, span) = message_outcome(run, message, detail, now);
            let noted = if message == "Node.PipelineNode.Starting"@ && node.node_id is Some {
                Run {
                    last_steps: run.last_steps.insert(task_id, (node.node_id->0, now)),
                    ..run
                }
            } else {
                run
            };
            &&& !is_traced(detail, message) ==> after == noted && span is None
            &&& is_traced(detail, message) ==> (after, span) == node.outcome(noted, now)
        },
{
}

/// The time that a step took: from the message that it started to the one that it ended, told by the
/// same task of the same node.
pub proof fn lemma_step_timed<S>(
    run: Run<S>,
    begin: Json,
    started: u128,
    node: NodeView,
    now: u128,
    node_id: i64,
)
    requires
        integer_of(begin.field("task_id"@)) == Some(node.task_id),
        integer_of(begin.field("node_id"@)) == Some(node_id),
        !is_traced(begin, "Node.PipelineNode.Starting"@),
        node.node_id == Some(node_id),
        node.message == "Node.PipelineNode.Failed"@ || node.message
            == "Node.PipelineNode.Succeeded"@,
    ensures
        ({
            let begun = message_outcome(run, "Node.PipelineNode.Starting"@, begin, started).0;
            let (after, span) = node.outcome(begun, now);
            span matches Some(span) ==> span.data.dom().contains("duration_ms"@)
                && span.data["duration_ms"@] == DatumView::Natural(millis_between(started, now))
        }),
{
    let begun = message_outcome(run, "Node.PipelineNode.Starting"@, begin, started).0;
    lemma_node_data(begun, node, now);
}

/// A message is for the run of its instance alone: no other run changes, and nothing does where
/// reporting is off, the message is not worth reading or cannot be read, or the instance has no run.
pub proof fn lemma_event_stays_home<S>(
    active: bool,
    runs: Map<Seq<char>, Run<S>>,
    instance_id: Seq<char>,
    message: Seq<char>,
    details: Seq<char>,
    now: u128,
    other: Seq<char>,
)
    requires
        other != instance_id,
    ensures
        ({
            let (after, span) = node_event_outcome(
                active,
                runs,
                instance_id,
                message,
                details,
                now,
            );
            let read = active && is_worth_reading(message, details) && crate::json::parsed_json(
                details,
            ) is Some && runs.dom().contains(instance_id);
            &&& after.dom().contains(other) == runs.dom().contains(other)
            &&& runs.dom().contains(other) ==> after[other] == runs[other]
            &&& !read ==> after == runs && span is None
            &&& read ==> {
                &&& after.dom().contains(instance_id)
                &&& (after[instance_id], span) == message_outcome(
                    runs[instance_id],
                    message,
                    crate::json::parsed_json(details)->0,
                    now,
                )
            }
        }),
{
}

/// A node that is reported gets a span with its name, for the task that it belongs to, which is marked
/// failed exactly when the message ends with `.Failed`.
pub proof fn lemma_record_node_event<S>(
    run: &mut RunState<S>,
    event: &NodeEvent<'_>,
    now: u128,
    span: Option<NodeSpan>,
)
    requires
        call_ensures(record_node_event::<S>, (run, event, now), span),
    ensures
        span is Some <==> {
            &&& event.hit_node is Some || event.search_node is Some
            &&& exists|owner: i64| #[trigger]
                is_owner(old(run)@, event.task_id, owner) && counted(
                    old(run)@.traced_nodes,
                    owner,
                ) < 1000
        },
        span matches Some(made) ==> {
            &&& made.failed <==> has_end(event.message@, ".Failed"@)
            &&& made.operation@ == "mxu.node"@
            &&& event.hit_node matches Some(name) ==> made.description@ == name@
            &&& event.hit_node is None ==> made.description@ == event.search_node->0@
            &&& is_owner(old(run)@, event.task_id, made.owner_id)
        },
        (final(run)@, crate::nodes::span_view(span)) == event@.outcome(old(run)@, now),
        final(run)@.metas == old(run)@.metas,
        final(run)@.children == old(run)@.children,
        final(run)@.task_runtime == old(run)@.task_runtime,
        final(run)@.active_task == old(run)@.active_task,
{
    lemma_node_span(old(run)@, event@, now);
    crate::nodes::lemma_nodes_leave_tasks(old(run)@, event@, now);
}

/// What a message that was read comes to is what its node does.
pub proof fn lemma_apply_node_message<S>(
    run: &mut RunState<S>,
    message: &str,
    detail: &Value,
    now: u128,
    span: Option<NodeSpan>,
)
    requires
        call_ensures(apply_node_message::<S>, (run, message, detail, now), span),
    ensures
        (final(run)@, crate::nodes::span_view(span)) == message_outcome(
            old(run)@,
            message@,
            json(*detail),
            now,
        ),
        span matches Some(made) ==> is_traced(json(*detail), message@) && (made.failed
            <==> has_end(message@, ".Failed"@)),
{
    if let Some(task_id) = integer_of(json(*detail).field("task_id"@)) {
        let node = node_of(message@, json(*detail), task_id);
        let noted = if message@ == "Node.PipelineNode.Starting"@ && node.node_id is Some {
            crate::nodes::with_step(old(run)@, task_id, node.node_id->0, now)
        } else {
            old(run)@
        };
        lemma_node_span(noted, node, now);
    }
}

/// What the message of a node comes to, for the run of its instance and no other.
pub proof fn lemma_on_node_event<S>(
    active: bool,
    runs: &mut StringMap<RunState<S>>,
    instance_id: &str,
    message: &str,
    details: &str,
    now: u128,
    span: Option<NodeSpan>,
    other: Seq<char>,
)
    requires
        call_ensures(
            on_node_event::<S>,
            (active, runs, instance_id, message, details, now),
            span,
        ),
        other != instance_id@,
    ensures
        ({
            let read = active && is_worth_reading(message@, details@) && crate::json::parsed_json(
                details@,
            ) is Some && old(runs)@.dom().contains(instance_id@);
            &&& !read ==> final(runs)@ == old(runs)@ && span is None
            &&& read ==> {
                &&& final(runs)@.dom().contains(instance_id@)
                &&& (final(runs)@[instance_id@], crate::nodes::span_view(span)) == message_outcome(
                    old(runs)@[instance_id@],
                    message@,
                    crate::json::parsed_json(details@)->0,
                    now,
                )
            }
            &&& final(runs)@.dom().contains(other) == old(runs)@.dom().contains(other)
            &&& old(runs)@.dom().contains(other) ==> final(runs)@[other] == old(runs)@[other]
            &&& span matches Some(made) ==> (made.failed <==> has_end(message@, ".Failed"@))
        }),
{
    lemma_event_stays_home(active, old(runs)@, instance_id@, message@, details@, now, other);
    reveal_strlit(".Failed");
    assert(".Failed"@.len() == 7);
}

/// Which messages are read.
pub proof fn lemma_needs_parse(message: &str, details: &str, needed: bool)
    requires
        call_ensures(needs_parse, (message, details), needed),
    ensures
        needed <==> message@ == "Node.PipelineNode.Starting"@ || message@
            == "Node.PipelineNode.Failed"@ || (starts_with(message@, "Node."@) && contains(
            details@,
            "\"trace\""@,
        )),
{
}

/// Whether a node is to be reported.
pub proof fn lemma_resolve_trace(detail: &Value, message: &str, traced: bool)
    requires
        call_ensures(resolve_trace, (detail, message), traced),
    ensures
        traced == is_traced(json(*detail), message@),
        lacks_member(json(*detail), "focus"@) ==> (traced <==> message@
            == "Node.PipelineNode.Failed"@),
{
}

/// The first failure of a task is kept, and the last one is replaced; those of other tasks stay.
pub proof fn lemma_retain_failure_signals(
    roots: &mut HashMap<i64, FailureSignal>,
    terminals: &mut HashMap<i64, FailureSignal>,
    owner: i64,
    signal: FailureSignal,
    other: i64,
)
    requires
        call_ensures(retain_failure_signals, (roots, terminals, owner, signal), ()),
        other != owner,
    ensures
        final(roots)@.dom().contains(owner),
        final(terminals)@.dom().contains(owner),
        final(terminals)@[owner]@ == signal@,
        old(roots)@.dom().contains(owner) ==> final(roots)@[owner]@ == old(roots)@[owner]@,
        !old(roots)@.dom().contains(owner) ==> final(roots)@[owner]@ == signal@,
        final(roots)@.dom().contains(other) == old(roots)@.dom().contains(other),
        old(roots)@.dom().contains(other) ==> final(roots)@[other]@ == old(roots)@[other]@,
        final(terminals)@.dom().contains(other) == old(terminals)@.dom().contains(other),
        old(terminals)@.dom().contains(other) ==> final(terminals)@[other]@
            == old(terminals)@[other]@,
{
    let firsts = crate::runs::signals_view(final(roots)@);
    let lasts = crate::runs::signals_view(final(terminals)@);
    assert(firsts.dom().contains(owner) && lasts.dom().contains(owner));
    assert(lasts[owner] == signal@);
    assert(final(terminals)@[owner]@ == lasts[owner]);
    assert(final(roots)@[owner]@ == firsts[owner]);
    let before = crate::runs::signals_view(old(roots)@);
    let earlier = crate::runs::signals_view(old(terminals)@);
    assert(before.dom() =~= old(roots)@.dom() && earlier.dom() =~= old(terminals)@.dom());
    assert(firsts.dom() =~= final(roots)@.dom() && lasts.dom() =~= final(terminals)@.dom());
    assert(firsts.dom().contains(other) == before.dom().contains(other));
    assert(lasts.dom().contains(other) == earlier.dom().contains(other));
    if before.dom().contains(other) {
        assert(firsts[other] == before[other]);
        assert(firsts[other] == final(roots)@[other]@ && before[other] == old(roots)@[other]@);
    }
    if earlier.dom().contains(other) {
        assert(lasts[other] == earlier[other]);
        assert(lasts[other] == final(terminals)@[other]@ && earlier[other]
            == old(terminals)@[other]@);
    }
}

/// That a task came to a node is noted with the time, in the place of where it was before.
pub proof fn lemma_mark_step_start<S>(
    run: &mut RunState<S>,
    task_id: i64,
    node_id: i64,
    now: u128,
    other: i64,
)
    requires
        call_ensures(mark_step_start::<S>, (run, task_id, node_id, now), ()),
        other != task_id,
    ensures
        final(run)@.last_steps.dom().contains(task_id),
        final(run)@.last_steps[task_id] == (node_id, now),
        old(run)@.last_steps.dom().contains(other) ==> final(run)@.last_steps.dom().contains(other)
            && final(run)@.last_steps[other] == old(run)@.last_steps[other],
        final(run)@.metas == old(run)@.metas,
        final(run)@.children == old(run)@.children,
        final(run)@.failure_signals == old(run)@.failure_signals,
{
}

} // verus!
