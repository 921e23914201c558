//! What is told of the instances and of what was found for them.

use vstd::prelude::*;
use crate::map::StringMap;
use crate::runs::keys;
use crate::text::{concat, from_chars, to_chars, views};

verus! {

/// An instance: what it holds, whether it is being stopped, and how its tasks stand.
#[derive(Debug)]
pub struct InstanceRecord<C, R> {
    pub handles: C,
    pub stop_in_progress: bool,
    /// The reading of a clock that never goes back, in nanoseconds.
    pub stop_started_at: Option<u128>,
    pub task_run_state: R,
}

impl<C, R> View for InstanceRecord<C, R> {
    type V = InstanceRecord<C, R>;

    open spec fn view(&self) -> InstanceRecord<C, R> {
        *self
    }
}

/// What is seen of the parts of an instance, where it has them.
#[derive(Clone, Copy, PartialEq, Eq, Structural, Debug)]
pub struct Observation {
    pub controller_connected: Option<bool>,
    pub resource_loaded: Option<bool>,
    pub tasker_inited: Option<bool>,
    pub tasker_running: Option<bool>,
}

/// What is told of an instance.
#[derive(Debug)]
pub struct InstanceState<R> {
    pub connected: bool,
    pub resource_loaded: bool,
    pub tasker_inited: bool,
    pub is_running: bool,
    pub task_run_state: R,
}

impl<R> View for InstanceState<R> {
    type V = InstanceState<R>;

    open spec fn view(&self) -> InstanceState<R> {
        *self
    }
}

/// The instance after it was looked at: once nothing runs, it is not being stopped any more.
pub open spec fn looked_at<C, R>(instance: InstanceRecord<C, R>, seen: Observation) -> InstanceRecord<
    C,
    R,
> {
    if seen.tasker_running != Some(true) && instance.stop_in_progress {
        InstanceRecord { stop_in_progress: false, stop_started_at: None, ..instance }
    } else {
        instance
    }
}

/// `state` tells what was seen of an instance; a part that is missing has none of the properties.
pub open spec fn is_state_of<C, R: Clone>(
    state: InstanceState<R>,
    instance: InstanceRecord<C, R>,
    seen: Observation,
) -> bool {
    &&& state.connected == (seen.controller_connected == Some(true))
    &&& state.resource_loaded == (seen.resource_loaded == Some(true))
    &&& state.tasker_inited == (seen.tasker_inited == Some(true))
    &&& state.is_running == (seen.tasker_running == Some(true))
    &&& cloned(instance.task_run_state, state.task_run_state)
}

/// An instance that is told not to run is not being stopped any more, and looking at it again finds
/// nothing to change.
pub proof fn lemma_idle_instance_settled<C, R: Clone>(
    instance: InstanceRecord<C, R>,
    seen: Observation,
    state: InstanceState<R>,
)
    requires
        is_state_of(state, instance, seen),
    ensures
        !state.is_running ==> !looked_at(instance, seen).stop_in_progress,
        state.is_running ==> looked_at(instance, seen) == instance,
        looked_at(looked_at(instance, seen), seen) == looked_at(instance, seen),
{
}

fn holds(property: Option<bool>) -> (held: bool)
    ensures
        held == (property == Some(true)),
{
    match property {
        Some(held) => held,
        None => false,
    }
}

/// Looks at an instance.
fn look_at<C, R: Clone>(instance: &mut InstanceRecord<C, R>, seen: Observation) -> (state:
    InstanceState<R>)
    ensures
        *final(instance) == looked_at(*old(instance), seen),
        is_state_of(state, *old(instance), seen),
{
    let is_running = holds(seen.tasker_running);
    if !is_running && instance.stop_in_progress {
        instance.stop_in_progress = false;
        instance.stop_started_at = None;
    }
    InstanceState {
        connected: holds(seen.controller_connected),
        resource_loaded: holds(seen.resource_loaded),
        tasker_inited: holds(seen.tasker_inited),
        is_running,
        task_run_state: instance.task_run_state.clone(),
    }
}

/// `observe` saw something of an instance for which its record and what is told of it are right.
pub open spec fn is_observed<C, R: Clone, F: Fn(&C) -> Observation>(
    observe: F,
    before: InstanceRecord<C, R>,
    after: InstanceRecord<C, R>,
    state: InstanceState<R>,
) -> bool {
    exists|seen: Observation|
        {
            &&& #[trigger] call_ensures(observe, (&before.handles,), seen)
            &&& after == looked_at(before, seen)
            &&& is_state_of(state, before, seen)
        }
}

/// `state` is what is told of the instance `instance_id`, where `before` and `after` are the
/// instances before and after they were looked at.
pub open spec fn is_instance_answer<C, R: Clone, F: Fn(&C) -> Observation>(
    observe: F,
    before: Map<Seq<char>, InstanceRecord<C, R>>,
    after: Map<Seq<char>, InstanceRecord<C, R>>,
    instance_id: Seq<char>,
    state: Result<InstanceState<R>, String>,
) -> bool {
    if before.dom().contains(instance_id) {
        &&& after == before.insert(instance_id, after[instance_id])
        &&& state matches Ok(state) && is_observed(
            observe,
            before[instance_id],
            after[instance_id],
            state,
        )
    } else {
        &&& after == before
        &&& state matches Err(error) && error@ == "Instance not found"@
    }
}

/// `told` is what is told of all instances, where `before` and `after` are the instances before and
/// after they were looked at.
pub open spec fn are_instance_answers<C, R: Clone, F: Fn(&C) -> Observation>(
    observe: F,
    before: Map<Seq<char>, InstanceRecord<C, R>>,
    after: Map<Seq<char>, InstanceRecord<C, R>>,
    told: Map<Seq<char>, InstanceState<R>>,
) -> bool {
    &&& after.dom() == before.dom()
    &&& told.dom() == before.dom()
    &&& forall|id: Seq<char>|
        before.dom().contains(id) ==> #[trigger] is_observed(
            observe,
            before[id],
            after[id],
            told[id],
        )
}

/// `observe` always sees the same of the same parts.
pub open spec fn observes_alike<C, F: Fn(&C) -> Observation>(observe: F) -> bool {
    forall|handles: &C, first: Observation, second: Observation|
        #[trigger] call_ensures(observe, (handles,), first) && #[trigger] call_ensures(
            observe,
            (handles,),
            second,
        ) ==> first == second
}

/// All clones of a value are the same.
pub open spec fn clones_alike<R: Clone>() -> bool {
    forall|value: R, first: R, second: R|
        #[trigger] cloned(value, first) && #[trigger] cloned(value, second) ==> first == second
}

/// What is told of an instance among all others is what is told of it alone, whether it is asked for
/// alone instead of with all others or after them. Asking for it alone after all others changes
/// nothing, and asking for it instead of all others changes it in the same way, and no other one.
pub proof fn lemma_all_states_agree<C, R: Clone, F: Fn(&C) -> Observation>(
    observe: F,
    before: Map<Seq<char>, InstanceRecord<C, R>>,
    after: Map<Seq<char>, InstanceRecord<C, R>>,
    told: Map<Seq<char>, InstanceState<R>>,
    asked: Map<Seq<char>, InstanceRecord<C, R>>,
    left: Map<Seq<char>, InstanceRecord<C, R>>,
    instance_id: Seq<char>,
    state: Result<InstanceState<R>, String>,
)
    requires
        observes_alike::<C, F>(observe),
        clones_alike::<R>(),
        are_instance_answers(observe, before, after, told),
        asked == before || asked == after,
        is_instance_answer(observe, asked, left, instance_id, state),
    ensures
        state is Ok <==> told.dom().contains(instance_id),
        state matches Ok(state) ==> {
            &&& state == told[instance_id]
            &&& left[instance_id] == after[instance_id]
        },
        left == asked.insert(instance_id, left[instance_id]) || left == asked,
        asked == after ==> left == after,
{
    if before.dom().contains(instance_id) {
        assert(is_observed(
            observe,
            before[instance_id],
            after[instance_id],
            told[instance_id],
        ));
        if asked == after {
            assert(left =~= after);
        }
    }
}

/// Tells how an instance is, and notes that it is not being stopped any more once nothing runs.
///
/// `observe` looks at the parts that an instance holds.
pub fn maa_get_instance_state<C, R: Clone, F: Fn(&C) -> Observation>(
    instances: &mut StringMap<InstanceRecord<C, R>>,
    instance_id: &str,
    observe: F,
) -> (state: Result<InstanceState<R>, String>)
    requires
        forall|handles: &C| call_requires(observe, (handles,)),
    ensures
        is_instance_answer(observe, old(instances)@, final(instances)@, instance_id@, state),
{
    let ghost before = instances@;
    match instances.remove(instance_id) {
        Some(instance) => {
            let mut instance = instance;
            let ghost given = instance;
            let seen = observe(&instance.handles);
            let state = look_at(&mut instance, seen);
            let ghost after = instance;
            instances.insert(instance_id.to_owned(), instance);
            assert(instances@ =~= before.insert(instance_id@, looked_at(given, seen)));
            assert(call_ensures(observe, (&before[instance_id@].handles,), seen));
            assert(is_observed(observe, before[instance_id@], after, state));
            Ok(state)
        },
        None => {
            assert(instances@ =~= before);
            Err("Instance not found".to_owned())
        },
    }
}

/// What is told of all instances, and of what was found for them.
#[derive(Debug)]
pub struct AllInstanceStates<R, A, W, G> {
    pub instances: StringMap<InstanceState<R>>,
    pub cached_adb_devices: Vec<A>,
    pub cached_win32_windows: Vec<W>,
    pub cached_wlroots_sockets: Vec<String>,
    pub cached_gamescope_instances: Vec<G>,
}

/// Every item of one list is a clone of the item of the other.
pub open spec fn all_cloned<T: Clone>(items: Seq<T>, copies: Seq<T>) -> bool {
    &&& copies.len() == items.len()
    &&& forall|i: int| 0 <= i < items.len() ==> cloned(#[trigger] items[i], copies[i])
}

/// Tells how all instances are, and notes which are not being stopped any more.
///
/// This is what a window that was opened again begins with. `observe` looks at the parts that an
/// instance holds.
pub fn maa_get_all_states<
    C,
    R: Clone,
    A: Clone,
    W: Clone,
    G: Clone,
    F: Fn(&C) -> Observation,
>(
    instances: &mut StringMap<InstanceRecord<C, R>>,
    cached_adb_devices: &Vec<A>,
    cached_win32_windows: &Vec<W>,
    cached_wlroots_sockets: &Vec<String>,
    cached_gamescope_instances: &Vec<G>,
    observe: F,
) -> (states: AllInstanceStates<R, A, W, G>)
    requires
        forall|handles: &C| call_requires(observe, (handles,)),
    ensures
        are_instance_answers(observe, old(instances)@, final(instances)@, states.instances@),
        all_cloned(cached_adb_devices@, states.cached_adb_devices@),
        all_cloned(cached_win32_windows@, states.cached_win32_windows@),
        views(states.cached_wlroots_sockets@) == views(cached_wlroots_sockets@),
        all_cloned(cached_gamescope_instances@, states.cached_gamescope_instances@),
{
    let ghost before = instances@;
    let ids = keys(instances);
    let ghost all = views(ids@);
    let mut told: StringMap<InstanceState<R>> = StringMap::new();
    let mut index: usize = 0;
    while index < ids.len()
        invariant
            index <= ids@.len(),
            all == views(ids@),
            all.no_duplicates(),
            forall|id: Seq<char>| #[trigger] all.contains(id) == before.dom().contains(id),
            forall|handles: &C| call_requires(observe, (handles,)),
            instances@.dom() == before.dom(),
            forall|id: Seq<char>| #[trigger]
                told@.dom().contains(id) == all.take(index as int).contains(id),
            forall|id: Seq<char>|
                before.dom().contains(id) && !told@.dom().contains(id)
                    ==> #[trigger] instances@[id] == before[id],
            forall|id: Seq<char>|
                told@.dom().contains(id) ==> #[trigger] is_observed(
                    observe,
                    before[id],
                    instances@[id],
                    told@[id],
                ),
        decreases ids@.len() - index,
    {
        let ghost id = all[index as int];
        let ghost left = instances@;
        let ghost told_before = told@;
        proof {
            assert(id == ids@[index as int]@);
            assert(all.contains(id));
            assert(!all.take(index as int).contains(id)) by {
                if all.take(index as int).contains(id) {
                    let i = choose|i: int|
                        0 <= i < all.take(index as int).len() && all.take(index as int)[i] == id;
                    assert(all[i] == all[index as int]);
                }
            }
            assert(instances@[id] == before[id]);
        }
        if let Some(instance) = instances.remove(ids[index].as_str()) {
            let mut instance = instance;
            let seen = observe(&instance.handles);
            let state = look_at(&mut instance, seen);
            proof {
                assert(call_ensures(observe, (&before[id].handles,), seen));
                assert(is_observed(observe, before[id], instance, state));
            }
            let ghost after = instance;
            let ghost shown = state;
            instances.insert(ids[index].clone(), instance);
            told.insert(ids[index].clone(), state);
            proof {
                assert(instances@ =~= left.insert(id, after));
                assert(instances@.dom() =~= before.dom());
                assert(all.take(index + 1) =~= all.take(index as int).push(id));
                assert forall|other: Seq<char>| #[trigger] told@.dom().contains(other)
                    == all.take(index + 1).contains(other) by {
                    assert(told@.dom().contains(other) == (told_before.dom().contains(other)
                        || other == id));
                    crate::selection::lemma_pushed_contains(all.take(index as int), id, other);
                }
                assert forall|other: Seq<char>| told@.dom().contains(other) implies
                    #[trigger] is_observed(
                    observe,
                    before[other],
                    instances@[other],
                    told@[other],
                ) by {
                    if other != id {
                        assert(told_before.dom().contains(other));
                        assert(is_observed(
                            observe,
                            before[other],
                            left[other],
                            told_before[other],
                        ));
                    }
                }
            }
        }
        index += 1;
    }
    proof {
        assert(all.take(index as int) =~= all);
        assert(told@.dom() =~= before.dom());
    }
    let cached_wlroots_sockets_copy = cached_wlroots_sockets.clone();
    assert(views(cached_wlroots_sockets_copy@) =~= views(cached_wlroots_sockets@));
    AllInstanceStates {
        instances: told,
        cached_adb_devices: cached_adb_devices.clone(),
        cached_win32_windows: cached_win32_windows.clone(),
        cached_wlroots_sockets: cached_wlroots_sockets_copy,
        cached_gamescope_instances: cached_gamescope_instances.clone(),
    }
}

/// `copy` is a copy of a list that could be looked at, or says why it could not.
pub open spec fn is_copy_of<T: Clone>(
    copy: Result<Vec<T>, String>,
    cached: Result<&Vec<T>, String>,
) -> bool {
    match cached {
        Ok(items) => copy matches Ok(copies) && all_cloned(items@, copies@),
        Err(error) => copy matches Err(same) && same@ == error@,
    }
}

fn copy_list<T: Clone>(cached: Result<&Vec<T>, String>) -> (copy: Result<Vec<T>, String>)
    ensures
        is_copy_of(copy, cached),
{
    match cached {
        Ok(items) => {
            let copies = items.clone();
            assert(all_cloned(items@, copies@));
            Ok(copies)
        },
        Err(error) => Err(error),
    }
}

/// The devices that were found last.
pub fn maa_get_cached_adb_devices<T: Clone>(cached: Result<&Vec<T>, String>) -> (copy: Result<
    Vec<T>,
    String,
>)
    ensures
        is_copy_of(copy, cached),
{
    copy_list(cached)
}

/// The windows that were found last.
pub fn maa_get_cached_win32_windows<T: Clone>(cached: Result<&Vec<T>, String>) -> (copy: Result<
    Vec<T>,
    String,
>)
    ensures
        is_copy_of(copy, cached),
{
    copy_list(cached)
}

/// The sockets that were found last.
pub fn maa_get_cached_wlroots_sockets(cached: Result<&Vec<String>, String>) -> (copy: Result<
    Vec<String>,
    String,
>)
    ensures
        is_copy_of(copy, cached),
{
    copy_list(cached)
}

/// The compositors that were found last.
pub fn maa_get_cached_gamescope_instances<T: Clone>(cached: Result<&Vec<T>, String>) -> (copy:
    Result<Vec<T>, String>)
    ensures
        is_copy_of(copy, cached),
{
    copy_list(cached)
}

/// The position of the first line feed, or the length where there is none.
pub open spec fn line_feed(text: Seq<char>) -> nat
    decreases text.len(),
{
    if text.len() == 0 || text[0] == '\n' {
        0
    } else {
        1 + line_feed(text.skip(1))
    }
}

/// A line without the carriage return before its line feed.
pub open spec fn without_return(line: Seq<char>) -> Seq<char> {
    if line.len() > 0 && line.last() == '\r' {
        line.drop_last()
    } else {
        line
    }
}

/// The lines of a text. The last may lack its line feed, and is none where it is empty.
pub open spec fn lines_of(text: Seq<char>) -> Seq<Seq<char>>
    decreases text.len(),
{
    let end = line_feed(text) as int;
    if text.len() == 0 {
        seq![]
    } else if end >= text.len() {
        seq![text]
    } else {
        seq![without_return(text.take(end))] + lines_of(text.skip(end + 1))
    }
}

/// The lines of a message, each with the time in front.
pub open spec fn stamped(lines: Seq<Seq<char>>, timestamp: Seq<char>) -> Seq<Seq<char>> {
    lines.map_values(|line: Seq<char>| "["@ + timestamp + "] "@ + line)
}

proof fn lemma_line_feed(text: Seq<char>, end: int)
    requires
        0 <= end <= text.len(),
        forall|i: int| 0 <= i < end ==> #[trigger] text[i] != '\n',
        end < text.len() ==> text[end] == '\n',
    ensures
        line_feed(text) == end,
    decreases text.len(),
{
    if text.len() > 0 && end > 0 {
        assert(text[0] != '\n');
        let rest = text.skip(1);
        assert forall|i: int| 0 <= i < end - 1 implies #[trigger] rest[i] != '\n' by {
            assert(text[i + 1] != '\n');
        }
        lemma_line_feed(rest, end - 1);
    }
}

/// Makes the lines that are printed for a message: each of its lines with the time in front.
pub fn log_to_stdout(message: &str, timestamp: &str) -> (lines: Vec<String>)
    ensures
        views(lines@) == stamped(lines_of(message@), timestamp@),
{
    let chars = to_chars(message);
    let ghost all = stamped(lines_of(message@), timestamp@);
    let mut lines: Vec<String> = Vec::new();
    let mut start: usize = 0;
    proof {
        assert(message@.skip(0) =~= message@);
        assert(views(lines@) + stamped(lines_of(message@.skip(0)), timestamp@) =~= all);
    }
    while start < chars.len()
        invariant
            start <= chars@.len(),
            chars@ == message@,
            views(lines@) + stamped(lines_of(message@.skip(start as int)), timestamp@) == all,
        decreases chars@.len() - start,
    {
        let ghost rest = message@.skip(start as int);
        let ghost before = lines@;
        let mut end: usize = start;
        while end < chars.len() && chars[end] != '\n'
            invariant
                start <= end <= chars@.len(),
                forall|i: int| start <= i < end ==> #[trigger] chars@[i] != '\n',
            decreases chars@.len() - end,
        {
            end += 1;
        }
        proof {
            assert forall|i: int| 0 <= i < end - start implies #[trigger] rest[i] != '\n' by {
                assert(chars@[start + i] != '\n');
            }
            if end < chars@.len() {
                assert(rest[end - start] == chars@[end as int]);
            }
            lemma_line_feed(rest, end - start);
        }
        let terminated = end < chars.len();
        let line_end: usize = if terminated && end > start && chars[end - 1] == '\r' {
            end - 1
        } else {
            end
        };
        let line = from_chars(&chars, start, line_end);
        let next: usize = if terminated {
            end + 1
        } else {
            end
        };
        proof {
            let part = rest.take(end - start);
            assert(part =~= chars@.subrange(start as int, end as int));
            if terminated {
                if end > start {
                    assert(part.last() == chars@[end - 1]);
                }
                assert(line@ =~= without_return(part));
                assert(rest.skip(end - start + 1) =~= message@.skip(next as int));
                assert(lines_of(rest) == seq![line@] + lines_of(message@.skip(next as int)));
            } else {
                assert(part =~= rest);
                assert(line@ =~= rest);
                assert(message@.skip(next as int) =~= seq![]);
                assert(lines_of(rest) =~= seq![line@] + lines_of(message@.skip(next as int)));
            }
        }
        let text = concat("[", timestamp);
        let text = concat(text.as_str(), "] ");
        let text = concat(text.as_str(), line.as_str());
        lines.push(text);
        proof {
            let tail = lines_of(message@.skip(next as int));
            assert(views(lines@) =~= views(before).push(text@));
            assert(stamped(seq![line@] + tail, timestamp@) =~= seq![text@] + stamped(
                tail,
                timestamp@,
            ));
            assert(views(before) + (seq![text@] + stamped(tail, timestamp@)) =~= views(
                before,
            ).push(text@) + stamped(tail, timestamp@));
        }
        start = next;
    }
    proof {
        assert(message@.skip(start as int) =~= seq![]);
        assert(stamped(lines_of(seq![]), timestamp@) =~= seq![]);
        assert(views(lines@) + stamped(lines_of(message@.skip(start as int)), timestamp@)
            =~= views(lines@));
    }
    lines
}

} // verus!
