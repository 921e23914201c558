//! What is told of the instances, and the lines that are printed.

use vstd::prelude::*;
use crate::map::StringMap;
use crate::state::{
    lines_of, log_to_stdout, looked_at, maa_get_all_states, maa_get_cached_adb_devices,
    maa_get_cached_gamescope_instances, maa_get_cached_win32_windows,
    maa_get_cached_wlroots_sockets, maa_get_instance_state, AllInstanceStates, InstanceRecord,
    InstanceState, Observation,
};
use crate::text::views;

verus! {

/// `seen` is what was observed of an instance, `state` tells it, and the record is changed only where
/// nothing runs any more: then it is not being stopped.
pub open spec fn is_told<C, R>(
    seen: Observation,
    before: InstanceRecord<C, R>,
    after: InstanceRecord<C, R>,
    state: InstanceState<R>,
) -> bool {
    &&& state.connected <==> seen.controller_connected == Some(true)
    &&& state.resource_loaded <==> seen.resource_loaded == Some(true)
    &&& state.tasker_inited <==> seen.tasker_inited == Some(true)
    &&& state.is_running <==> seen.tasker_running == Some(true)
    &&& after.handles == before.handles
    &&& after.task_run_state == before.task_run_state
    &&& state.is_running || !before.stop_in_progress ==> after.stop_in_progress
        == before.stop_in_progress && after.stop_started_at == before.stop_started_at
    &&& !state.is_running && before.stop_in_progress ==> !after.stop_in_progress
        && after.stop_started_at is None
}

/// Asking for an instance tells what is observed of it and changes no other one; one that is not there
/// is not found.
pub proof fn lemma_instance_state<C, R: Clone, F: Fn(&C) -> Observation>(
    instances: &mut StringMap<InstanceRecord<C, R>>,
    instance_id: &str,
    observe: F,
    state: Result<InstanceState<R>, String>,
    other: Seq<char>,
)
    requires
        call_ensures(maa_get_instance_state::<C, R, F>, (instances, instance_id, observe), state),
        other != instance_id@,
    ensures
        state is Ok <==> old(instances)@.dom().contains(instance_id@),
        state matches Err(error) ==> error@ == "Instance not found"@,
        state is Err ==> final(instances)@ == old(instances)@,
        state matches Ok(told) ==> {
            &&& final(instances)@.dom().contains(instance_id@)
            &&& cloned(old(instances)@[instance_id@].task_run_state, told.task_run_state)
            &&& exists|seen: Observation|
                {
                    &&& #[trigger] call_ensures(
                        observe,
                        (&old(instances)@[instance_id@].handles,),
                        seen,
                    )
                    &&& is_told(
                        seen,
                        old(instances)@[instance_id@],
                        final(instances)@[instance_id@],
                        told,
                    )
                }
        },
        final(instances)@.dom().contains(other) == old(instances)@.dom().contains(other),
        old(instances)@.dom().contains(other) ==> final(instances)@[other]
            == old(instances)@[other],
{
}

/// Asking for all instances tells of each what asking for it alone does, and of what was found for
/// them.
pub proof fn lemma_all_states<
    C,
    R: Clone,
    A: Clone,
    W: Clone,
    G: Clone,
    F: Fn(&C) -> Observation,
>(
    instances: &mut StringMap<InstanceRecord<C, R>>,
    adb: &Vec<A>,
    win32: &Vec<W>,
    wlroots: &Vec<String>,
    gamescope: &Vec<G>,
    observe: F,
    states: AllInstanceStates<R, A, W, G>,
    instance: Seq<char>,
)
    requires
        call_ensures(
            maa_get_all_states::<C, R, A, W, G, F>,
            (instances, adb, win32, wlroots, gamescope, observe),
            states,
        ),
    ensures
        states.instances@.dom().contains(instance) == old(instances)@.dom().contains(instance),
        final(instances)@.dom().contains(instance) == old(instances)@.dom().contains(instance),
        old(instances)@.dom().contains(instance) ==> {
            &&& cloned(
                old(instances)@[instance].task_run_state,
                states.instances@[instance].task_run_state,
            )
            &&& exists|seen: Observation|
                {
                    &&& #[trigger] call_ensures(observe, (&old(instances)@[instance].handles,), seen)
                    &&& is_told(
                        seen,
                        old(instances)@[instance],
                        final(instances)@[instance],
                        states.instances@[instance],
                    )
                }
        },
        states.cached_adb_devices@.len() == adb@.len(),
        forall|i: int|
            0 <= i < adb@.len() ==> cloned(#[trigger] adb@[i], states.cached_adb_devices@[i]),
        states.cached_win32_windows@.len() == win32@.len(),
        forall|i: int|
            0 <= i < win32@.len() ==> cloned(#[trigger] win32@[i], states.cached_win32_windows@[i]),
        views(states.cached_wlroots_sockets@) == views(wlroots@),
        states.cached_gamescope_instances@.len() == gamescope@.len(),
        forall|i: int|
            0 <= i < gamescope@.len() ==> cloned(
                #[trigger] gamescope@[i],
                states.cached_gamescope_instances@[i],
            ),
{
    if old(instances)@.dom().contains(instance) {
        assert(crate::state::is_observed(
            observe,
            old(instances)@[instance],
            final(instances)@[instance],
            states.instances@[instance],
        ));
    }
}

/// What was found last is handed out as a copy, item by item; where it cannot be looked at, the reason
/// is.
pub proof fn lemma_cached<T: Clone>(
    cached: Result<&Vec<T>, String>,
    copy: Result<Vec<T>, String>,
)
    requires
        call_ensures(maa_get_cached_adb_devices::<T>, (cached,), copy) || call_ensures(
            maa_get_cached_win32_windows::<T>,
            (cached,),
            copy,
        ) || call_ensures(maa_get_cached_gamescope_instances::<T>, (cached,), copy),
    ensures
        copy is Ok <==> cached is Ok,
        cached matches Ok(items) ==> copy->Ok_0@.len() == items@.len() && forall|i: int|
            0 <= i < items@.len() ==> cloned(#[trigger] items@[i], copy->Ok_0@[i]),
        cached matches Err(error) ==> copy->Err_0@ == error@,
{
}

/// The sockets that were found last are handed out in the same way.
pub proof fn lemma_cached_sockets(
    cached: Result<&Vec<String>, String>,
    copy: Result<Vec<String>, String>,
)
    requires
        call_ensures(maa_get_cached_wlroots_sockets, (cached,), copy),
    ensures
        copy is Ok <==> cached is Ok,
        cached matches Ok(items) ==> copy->Ok_0@.len() == items@.len() && forall|i: int|
            0 <= i < items@.len() ==> (#[trigger] items@[i])@ == copy->Ok_0@[i]@,
        cached matches Err(error) ==> copy->Err_0@ == error@,
{
    if cached is Ok {
        let items = cached->Ok_0;
        assert forall|i: int| 0 <= i < items@.len() implies (#[trigger] items@[i])@
            == copy->Ok_0@[i]@ by {
            assert(cloned(items@[i], copy->Ok_0@[i]));
        }
    }
}

proof fn lemma_line_feed(line: Seq<char>, rest: Seq<char>)
    requires
        !line.contains('\n'),
    ensures
        crate::state::line_feed(line + seq!['\n'] + rest) == line.len(),
        crate::state::line_feed(line) == line.len(),
    decreases line.len(),
{
    let all = line + seq!['\n'] + rest;
    if line.len() == 0 {
        assert(all[0] == '\n');
    } else {
        let fewer = line.skip(1);
        assert(all[0] == line[0]);
        assert(line.contains(line[0]));
        assert(all.skip(1) =~= fewer + seq!['\n'] + rest);
        if fewer.contains('\n') {
            let i = choose|i: int| 0 <= i < fewer.len() && fewer[i] == '\n';
            assert(line[i + 1] == '\n');
        }
        lemma_line_feed(fewer, rest);
    }
}

/// The lines of a text are what stands between its line feeds, without a carriage return before one;
/// nothing behind the last line feed is no line.
pub proof fn lemma_lines(line: Seq<char>, rest: Seq<char>)
    requires
        !line.contains('\n'),
    ensures
        lines_of(line + seq!['\n'] + rest) == seq![
            if line.len() > 0 && line.last() == '\r' {
                line.take(line.len() - 1)
            } else {
                line
            },
        ] + lines_of(rest),
        line.len() > 0 ==> lines_of(line) == seq![line],
        lines_of(Seq::<char>::empty()) == Seq::<Seq<char>>::empty(),
{
    let all = line + seq!['\n'] + rest;
    lemma_line_feed(line, rest);
    assert(all.take(line.len() as int) =~= line);
    assert(all.skip(line.len() as int + 1) =~= rest);
    assert(line.take(line.len() - 1) =~= line.drop_last());
}

/// Each line of a message is printed behind the time in brackets, in order.
pub proof fn lemma_log_to_stdout(message: &str, timestamp: &str, lines: Vec<String>)
    requires
        call_ensures(log_to_stdout, (message, timestamp), lines),
    ensures
        lines@.len() == lines_of(message@).len(),
        forall|i: int|
            0 <= i < lines@.len() ==> (#[trigger] lines@[i])@ == "["@ + timestamp@ + "] "@
                + lines_of(message@)[i],
{
    assert(views(lines@).len() == lines@.len());
    assert forall|i: int| 0 <= i < lines@.len() implies (#[trigger] lines@[i])@ == "["@ + timestamp@
        + "] "@ + lines_of(message@)[i] by {
        assert(views(lines@)[i] == lines@[i]@);
    }
}

/// Looking at an instance twice is looking at it once.
pub proof fn lemma_looked_at<C, R>(instance: InstanceRecord<C, R>, seen: Observation)
    ensures
        looked_at(looked_at(instance, seen), seen) == looked_at(instance, seen),
        seen.tasker_running == Some(true) ==> looked_at(instance, seen) == instance,
        seen.tasker_running != Some(true) ==> !looked_at(instance, seen).stop_in_progress,
{
}

} // verus!
