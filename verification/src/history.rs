//! What the read loop promises over everything that it was fed since it
//! started.

use crate::events::{AlarmView, EventView};
use crate::message::{line_message, MessageView};
use crate::reader::{
    disconnect_alarm_step, elapsed, extraction_step, fresh, health_step, heating_step, idle_step,
    is_valid_line, just, lemma_statuses_differ, line_step, message_step, nothing, prepare_step,
    ready_step, reset_noted, restart_alarm_step, shot_step, stamp_step, starts_shot, tick_step,
    valid_step, EffectView, ReaderView, Step, DISCONNECT_TIMEOUT_MS, STABLE_TIME_THRESHOLD_MS,
};
use crate::reader_laws::{
    is_alarm, lemma_append, lemma_health, lemma_just, lemma_line,
    lemma_message, lemma_no_alarm, lemma_prepare, lemma_shot, no_alarm,
    publishes, restart_event,
};
use crate::shot::{text_arg, ShotView};
use crate::status;
use crate::text::join;
use vstd::prelude::*;

verus! {

/// What the read loop is fed.
pub enum Input {
    /// A line.
    Line { raw: Seq<char>, now: int },
    /// A read without a line.
    Tick { now: int },
    /// A reset was requested.
    Reset,
    /// A profile was loaded or dropped.
    Ready { ready: bool },
}

/// What one input does.
pub open spec fn input_step(v: ReaderView, input: Input) -> Step {
    match input {
        Input::Line { raw, now } => line_step(v, raw, now),
        Input::Tick { now } => tick_step(v, now),
        Input::Reset => Step { state: reset_noted(v), effects: nothing() },
        Input::Ready { ready } => ready_step(v, ready),
    }
}

/// The state after the inputs, of a read loop that started at `start`.
pub open spec fn state_after(start: int, inputs: Seq<Input>) -> ReaderView
    decreases inputs.len(),
{
    if inputs.len() == 0 {
        fresh(start)
    } else {
        input_step(state_after(start, inputs.drop_last()), inputs.last()).state
    }
}

/// The effects of the inputs, in order.
pub open spec fn effects_after(start: int, inputs: Seq<Input>) -> Seq<EffectView>
    decreases inputs.len(),
{
    if inputs.len() == 0 {
        nothing()
    } else {
        effects_after(start, inputs.drop_last()) + input_step(
            state_after(start, inputs.drop_last()),
            inputs.last(),
        ).effects
    }
}

// ---------------------------------------------------------------------------
// What happened
// ---------------------------------------------------------------------------

/// When the last valid line came, or the start.
pub open spec fn last_valid(start: int, inputs: Seq<Input>) -> int
    decreases inputs.len(),
{
    if inputs.len() == 0 {
        start
    } else {
        match inputs.last() {
            Input::Line { raw, now } => if is_valid_line(raw) {
                now
            } else {
                last_valid(start, inputs.drop_last())
            },
            _ => last_valid(start, inputs.drop_last()),
        }
    }
}

/// No reset was requested since the last valid line; the start counts as a
/// request.
pub open spec fn undisturbed(inputs: Seq<Input>) -> bool
    decreases inputs.len(),
{
    if inputs.len() == 0 {
        false
    } else {
        match inputs.last() {
            Input::Line { raw, now } => is_valid_line(raw) || undisturbed(inputs.drop_last()),
            Input::Reset => false,
            _ => undisturbed(inputs.drop_last()),
        }
    }
}

/// Whether the disconnect alarm is up after the effects, where `up` says so
/// before: from its event to the next one that clears the alarms.
pub open spec fn disconnect_up(up: bool, effects: Seq<EffectView>) -> bool
    decreases effects.len(),
{
    if effects.len() == 0 {
        up
    } else {
        match effects.last() {
            EffectView::Event(EventView::AlarmRaised { alarm: AlarmView::EspDisconnected }) => true,
            EffectView::Event(EventView::AlarmsCleared) => false,
            _ => disconnect_up(up, effects.drop_last()),
        }
    }
}

/// The same for the restart alarm.
pub open spec fn restart_up(up: bool, effects: Seq<EffectView>) -> bool
    decreases effects.len(),
{
    if effects.len() == 0 {
        up
    } else {
        match effects.last() {
            EffectView::Event(
                EventView::AlarmRaised { alarm: AlarmView::EspRestart { trace } },
            ) => true,
            EffectView::Event(EventView::AlarmsCleared) => false,
            _ => restart_up(up, effects.drop_last()),
        }
    }
}

/// Whether a shot is running after the effects, where `running` says so
/// before: from its start to its end.
pub open spec fn shot_running(running: bool, effects: Seq<EffectView>) -> bool
    decreases effects.len(),
{
    if effects.len() == 0 {
        running
    } else {
        match effects.last() {
            EffectView::Event(EventView::ShotStarted) => true,
            EffectView::Event(EventView::ShotEnded) => false,
            _ => shot_running(running, effects.drop_last()),
        }
    }
}

/// A datapoint as far as it decides on shots.
pub struct Sighting {
    pub status: Seq<char>,
    pub stable: bool,
    pub now: int,
}

/// The datapoints among the inputs.
pub open spec fn sightings(inputs: Seq<Input>) -> Seq<Sighting>
    decreases inputs.len(),
{
    if inputs.len() == 0 {
        Seq::<Sighting>::empty()
    } else {
        let before = sightings(inputs.drop_last());
        match inputs.last() {
            Input::Line { raw, now } => match line_message(raw) {
                Some(MessageView::Shot(data)) => before.push(
                    Sighting { status: text_arg(data.status), stable: data.stable_weight, now },
                ),
                _ => before,
            },
            _ => before,
        }
    }
}

/// The status of the last datapoint; idle where there was none.
pub open spec fn last_status(seen: Seq<Sighting>) -> Seq<char> {
    if seen.len() == 0 {
        status::IDLE@
    } else {
        seen.last().status
    }
}

/// The last datapoint started a shot: the valve was closing before it, and no
/// longer is.
pub open spec fn is_start(seen: Seq<Sighting>) -> bool {
    seen.len() > 0 && last_status(seen.drop_last()) == status::CLOSING_VALVE@
        && seen.last().status != status::CLOSING_VALVE@
}

/// When the first of the retracting datapoints with a stable weight came that
/// stand together at the end; those that started a shot are left out.
pub open spec fn first_stable(seen: Seq<Sighting>) -> Option<int>
    decreases seen.len(),
{
    if seen.len() == 0 || seen.last().status != status::RETRACTING@ || !seen.last().stable
        || is_start(seen) {
        None
    } else {
        match first_stable(seen.drop_last()) {
            Some(t) => Some(t),
            None => Some(seen.last().now),
        }
    }
}

// ---------------------------------------------------------------------------
// Lists of effects
// ---------------------------------------------------------------------------

/// What is told of alarms and shots is told in order.
proof fn lemma_told_in_order(flag: bool, a: Seq<EffectView>, b: Seq<EffectView>)
    ensures
        disconnect_up(flag, a + b) == disconnect_up(disconnect_up(flag, a), b),
        restart_up(flag, a + b) == restart_up(restart_up(flag, a), b),
        shot_running(flag, a + b) == shot_running(shot_running(flag, a), b),
    decreases b.len(),
{
    if b.len() == 0 {
        assert(a + b =~= a);
    } else {
        lemma_told_in_order(flag, a, b.drop_last());
        assert((a + b).drop_last() =~= a + b.drop_last());
        assert((a + b).last() == b.last());
    }
}

/// Effects that tell nothing of alarms.
proof fn lemma_alarms_untouched(up: bool, effects: Seq<EffectView>)
    requires
        no_alarm(effects),
        !publishes(effects, EventView::AlarmsCleared),
    ensures
        disconnect_up(up, effects) == up,
        restart_up(up, effects) == up,
    decreases effects.len(),
{
    if effects.len() > 0 {
        let before = effects.drop_last();
        let last = effects.last();
        assert(!is_alarm(effects[effects.len() - 1]));
        assert(effects.contains(last));
        assert forall|i: int| 0 <= i < before.len() implies !is_alarm(#[trigger] before[i]) by {
            assert(before[i] == effects[i]);
        }
        if publishes(before, EventView::AlarmsCleared) {
            let i = choose|i: int|
                0 <= i < before.len() && before[i] == EffectView::Event(EventView::AlarmsCleared);
            assert(effects[i] == before[i]);
        }
        lemma_alarms_untouched(up, before);
    }
}

/// Effects that tell nothing of shots.
proof fn lemma_shots_untouched(running: bool, effects: Seq<EffectView>)
    requires
        !publishes(effects, EventView::ShotStarted),
        !publishes(effects, EventView::ShotEnded),
    ensures
        shot_running(running, effects) == running,
    decreases effects.len(),
{
    if effects.len() > 0 {
        let before = effects.drop_last();
        assert(effects.contains(effects.last()));
        assert forall|e: EffectView| before.contains(e) implies effects.contains(e) by {
            let i = choose|i: int| 0 <= i < before.len() && before[i] == e;
            assert(effects[i] == e);
        }
        lemma_shots_untouched(running, before);
    }
}

/// One event.
proof fn lemma_one_event(flag: bool, event: EventView)
    ensures
        disconnect_up(flag, just(event)) == (if event is AlarmsCleared {
            false
        } else {
            flag || event == (EventView::AlarmRaised { alarm: AlarmView::EspDisconnected })
        }),
        restart_up(flag, just(event)) == (if event is AlarmsCleared {
            false
        } else {
            flag || (event matches EventView::AlarmRaised { alarm: AlarmView::EspRestart { trace } })
        }),
        shot_running(flag, just(event)) == (if event is ShotStarted {
            true
        } else if event is ShotEnded {
            false
        } else {
            flag
        }),
        disconnect_up(flag, nothing()) == flag,
        restart_up(flag, nothing()) == flag,
        shot_running(flag, nothing()) == flag,
{
    reveal_with_fuel(disconnect_up, 2);
    reveal_with_fuel(restart_up, 2);
    reveal_with_fuel(shot_running, 2);
    assert(just(event).drop_last() =~= nothing());
    assert(just(event).last() == EffectView::Event(event));
}

/// What the healthcheck tells of the alarms is what it does to them.
proof fn lemma_health_told(v: ReaderView, valid: bool, now: int)
    requires
        v.consistent(),
    ensures
        ({
            let s = health_step(v, valid, now);
            &&& disconnect_up(v.disconnect_alarm_set, s.effects) == s.state.disconnect_alarm_set
            &&& restart_up(v.restart_alarm_set, s.effects) == s.state.restart_alarm_set
        }),
{
    let a = valid_step(v, valid, now);
    let b = restart_alarm_step(a.state);
    let c = disconnect_alarm_step(b.state, now);
    let gone = EventView::AlarmRaised { alarm: AlarmView::EspDisconnected };
    let restarted = restart_event(join(v.trace, '\n'));
    lemma_one_event(v.disconnect_alarm_set, EventView::AlarmsCleared);
    lemma_one_event(v.restart_alarm_set, EventView::AlarmsCleared);
    lemma_one_event(a.state.disconnect_alarm_set, restarted);
    lemma_one_event(a.state.restart_alarm_set, restarted);
    lemma_one_event(b.state.disconnect_alarm_set, gone);
    lemma_one_event(b.state.restart_alarm_set, gone);
    lemma_told_in_order(v.disconnect_alarm_set, a.effects, b.effects);
    lemma_told_in_order(v.restart_alarm_set, a.effects, b.effects);
    lemma_told_in_order(v.disconnect_alarm_set, a.effects + b.effects, c.effects);
    lemma_told_in_order(v.restart_alarm_set, a.effects + b.effects, c.effects);
}

/// What a line tells of the alarms is what it does to them.
proof fn lemma_line_alarms_told(v: ReaderView, raw: Seq<char>, now: int)
    requires
        v.wf(),
    ensures
        ({
            let s = line_step(v, raw, now);
            &&& disconnect_up(v.disconnect_alarm_set, s.effects) == s.state.disconnect_alarm_set
            &&& restart_up(v.restart_alarm_set, s.effects) == s.state.restart_alarm_set
        }),
{
    let a = prepare_step(v, raw);
    let b = message_step(a.state, line_message(raw), now);
    let c = health_step(b.state, is_valid_line(raw), now);
    reveal(line_step);
    lemma_prepare(v, raw);
    lemma_message(a.state, line_message(raw), now);
    lemma_health_told(b.state, is_valid_line(raw), now);
    lemma_alarms_untouched(v.disconnect_alarm_set, a.effects);
    lemma_alarms_untouched(v.restart_alarm_set, a.effects);
    lemma_alarms_untouched(v.disconnect_alarm_set, b.effects);
    lemma_alarms_untouched(v.restart_alarm_set, b.effects);
    lemma_told_in_order(v.disconnect_alarm_set, a.effects, b.effects);
    lemma_told_in_order(v.restart_alarm_set, a.effects, b.effects);
    lemma_told_in_order(v.disconnect_alarm_set, a.effects + b.effects, c.effects);
    lemma_told_in_order(v.restart_alarm_set, a.effects + b.effects, c.effects);
}

/// Every end of a shot among the effects ends a running one.
pub open spec fn ends_running_shots(running: bool, effects: Seq<EffectView>) -> bool {
    forall|k: int|
        0 <= k < effects.len() && #[trigger] effects[k] == EffectView::Event(EventView::ShotEnded)
            ==> shot_running(running, effects.take(k))
}

/// Lists of effects in which every end ends a running shot make up one.
proof fn lemma_ends_append(running: bool, a: Seq<EffectView>, b: Seq<EffectView>)
    requires
        ends_running_shots(running, a),
        ends_running_shots(shot_running(running, a), b),
    ensures
        ends_running_shots(running, a + b),
{
    let all = a + b;
    assert forall|k: int|
        0 <= k < all.len() && #[trigger] all[k] == EffectView::Event(
            EventView::ShotEnded,
        ) implies shot_running(running, all.take(k)) by {
        let n = a.len();
        if k < n {
            assert(all[k] == a[k]);
            assert(all.take(k) =~= a.take(k));
        } else {
            assert(all[k] == b[k - n]);
            assert(all.take(k) =~= a + b.take(k - n));
            lemma_told_in_order(running, a, b.take(k - n));
        }
    }
}

/// Effects without an end end no shot.
proof fn lemma_ends_absent(running: bool, effects: Seq<EffectView>)
    requires
        !publishes(effects, EventView::ShotEnded),
    ensures
        ends_running_shots(running, effects),
{
    assert forall|k: int|
        0 <= k < effects.len() && #[trigger] effects[k] == EffectView::Event(
            EventView::ShotEnded,
        ) implies shot_running(running, effects.take(k)) by {
        assert(effects.contains(effects[k]));
    }
}

/// What a datapoint tells of the shot is what it does to it.
proof fn lemma_shot_told(v: ReaderView, data: ShotView, now: int)
    requires
        v.consistent(),
    ensures
        ({
            let s = shot_step(v, data, now);
            &&& shot_running(v.time_flag, s.effects) == s.state.time_flag
            &&& ends_running_shots(v.time_flag, s.effects)
        }),
{
    let status = text_arg(data.status);
    let a = extraction_step(v, status, data.stable_weight, now);
    let b = idle_step(a.state, status);
    let c = heating_step(b.state, status);
    let d = stamp_step(c.state, data, now);
    let dropped = ready_step(a.state, false).effects;
    let flag = a.state.time_flag;
    lemma_just(EventView::WentIdle);
    lemma_just(EventView::ProfileReadyChanged { ready: false });
    lemma_just(EventView::HeatingStarted);
    lemma_just(EventView::HeatingEnded);
    lemma_just(EventView::Status { data: d.state.data_sensors });
    lemma_append(dropped, just(EventView::WentIdle));
    lemma_one_event(v.time_flag, EventView::ShotStarted);
    lemma_one_event(v.time_flag, EventView::ShotEnded);
    assert(ends_running_shots(v.time_flag, a.effects)) by {
        assert(just(EventView::ShotEnded).take(0) =~= nothing());
        lemma_just(EventView::ShotStarted);
        lemma_just(EventView::ShotEnded);
        if !publishes(a.effects, EventView::ShotEnded) {
            lemma_ends_absent(v.time_flag, a.effects);
        }
    }
    lemma_shots_untouched(flag, b.effects);
    lemma_shots_untouched(flag, c.effects);
    lemma_shots_untouched(flag, d.effects);
    lemma_ends_absent(flag, b.effects);
    lemma_ends_absent(flag, c.effects);
    lemma_ends_absent(flag, d.effects);
    let ab = a.effects + b.effects;
    lemma_told_in_order(v.time_flag, a.effects, b.effects);
    lemma_told_in_order(v.time_flag, ab, c.effects);
    lemma_told_in_order(v.time_flag, ab + c.effects, d.effects);
    lemma_ends_append(v.time_flag, a.effects, b.effects);
    lemma_ends_append(v.time_flag, ab, c.effects);
    lemma_ends_append(v.time_flag, ab + c.effects, d.effects);
}

/// What a line tells of the shot is what it does to it.
proof fn lemma_line_shots_told(v: ReaderView, raw: Seq<char>, now: int)
    requires
        v.wf(),
    ensures
        ({
            let s = line_step(v, raw, now);
            &&& shot_running(v.time_flag, s.effects) == s.state.time_flag
            &&& ends_running_shots(v.time_flag, s.effects)
        }),
{
    let a = prepare_step(v, raw);
    let b = message_step(a.state, line_message(raw), now);
    let c = health_step(b.state, is_valid_line(raw), now);
    reveal(line_step);
    lemma_prepare(v, raw);
    lemma_message(a.state, line_message(raw), now);
    lemma_health(b.state, is_valid_line(raw), now);
    if let Some(MessageView::Shot(data)) = line_message(raw) {
        lemma_shot_told(a.state, data, now);
    } else {
        lemma_shots_untouched(v.time_flag, b.effects);
        lemma_ends_absent(v.time_flag, b.effects);
    }
    lemma_shots_untouched(v.time_flag, a.effects);
    lemma_ends_absent(v.time_flag, a.effects);
    lemma_shots_untouched(b.state.time_flag, c.effects);
    lemma_ends_absent(b.state.time_flag, c.effects);
    lemma_told_in_order(v.time_flag, a.effects, b.effects);
    lemma_told_in_order(v.time_flag, a.effects + b.effects, c.effects);
    lemma_ends_append(v.time_flag, a.effects, b.effects);
    lemma_ends_append(v.time_flag, a.effects + b.effects, c.effects);
}

// ---------------------------------------------------------------------------
// Laws
// ---------------------------------------------------------------------------

/// The stable weight that a state watches, as the datapoints tell it.
proof fn lemma_stable_told(v: ReaderView, data: ShotView, now: int, seen: Seq<Sighting>)
    requires
        v.consistent(),
        v.old_status == last_status(seen),
        v.time_flag ==> v.stable_start_ms == first_stable(seen),
    ensures
        ({
            let s = shot_step(v, data, now).state;
            let after = seen.push(
                Sighting { status: text_arg(data.status), stable: data.stable_weight, now },
            );
            &&& s.old_status == last_status(after)
            &&& s.time_flag ==> s.stable_start_ms == first_stable(after)
        }),
{
    let status = text_arg(data.status);
    let after = seen.push(Sighting { status, stable: data.stable_weight, now });
    let a = extraction_step(v, status, data.stable_weight, now).state;
    lemma_statuses_differ();
    assert(after.drop_last() =~= seen);
    assert(is_start(after) == starts_shot(v, status));
    assert(a.time_flag ==> a.stable_start_ms == first_stable(after));
}

/// What the state holds is what happened: when the last valid line came,
/// whether a restart was requested since, which alarms are up, whether a shot
/// is running, the last status, and since when the weight has been stable.
pub proof fn law_state_follows_history(start: int, inputs: Seq<Input>)
    ensures
        ({
            let v = state_after(start, inputs);
            let effects = effects_after(start, inputs);
            &&& v.wf()
            &&& v.last_valid_ms == last_valid(start, inputs)
            &&& v.restart_requested == !undisturbed(inputs)
            &&& v.disconnect_alarm_set == disconnect_up(false, effects)
            &&& v.restart_alarm_set == restart_up(false, effects)
            &&& v.time_flag == shot_running(false, effects)
            &&& v.data_sensors.is_extracting == shot_running(false, effects)
            &&& v.old_status == last_status(sightings(inputs))
            &&& v.time_flag ==> v.stable_start_ms == first_stable(sightings(inputs))
            &&& ends_running_shots(false, effects)
        }),
    decreases inputs.len(),
{
    if inputs.len() > 0 {
        let before = inputs.drop_last();
        let v = state_after(start, before);
        let told = effects_after(start, before);
        let s = input_step(v, inputs.last());
        law_state_follows_history(start, before);
        lemma_told_in_order(false, told, s.effects);
        match inputs.last() {
            Input::Line { raw, now } => {
                lemma_line_history(v, raw, now, sightings(before));
            },
            Input::Tick { now } => {
                lemma_health(v, false, now);
                lemma_health_told(v, false, now);
                lemma_shots_untouched(v.time_flag, s.effects);
                lemma_ends_absent(v.time_flag, s.effects);
            },
            Input::Reset => {
                lemma_one_event(v.time_flag, EventView::WentIdle);
                lemma_one_event(v.disconnect_alarm_set, EventView::WentIdle);
                lemma_one_event(v.restart_alarm_set, EventView::WentIdle);
            },
            Input::Ready { ready } => {
                let event = EventView::ProfileReadyChanged { ready };
                lemma_one_event(v.time_flag, event);
                lemma_one_event(v.disconnect_alarm_set, event);
                lemma_one_event(v.restart_alarm_set, event);
                lemma_just(event);
                lemma_ends_absent(v.time_flag, s.effects);
            },
        }
        lemma_ends_append(false, told, s.effects);
    }
}

/// What a line adds to the history.
proof fn lemma_line_history(v: ReaderView, raw: Seq<char>, now: int, seen: Seq<Sighting>)
    requires
        v.wf(),
        v.old_status == last_status(seen),
        v.time_flag ==> v.stable_start_ms == first_stable(seen),
    ensures
        ({
            let s = line_step(v, raw, now);
            let after = match line_message(raw) {
                Some(MessageView::Shot(data)) => seen.push(
                    Sighting { status: text_arg(data.status), stable: data.stable_weight, now },
                ),
                _ => seen,
            };
            &&& s.state.wf()
            &&& s.state.last_valid_ms == if is_valid_line(raw) {
                now
            } else {
                v.last_valid_ms
            }
            &&& s.state.restart_requested == (v.restart_requested && !is_valid_line(raw))
            &&& disconnect_up(v.disconnect_alarm_set, s.effects) == s.state.disconnect_alarm_set
            &&& restart_up(v.restart_alarm_set, s.effects) == s.state.restart_alarm_set
            &&& shot_running(v.time_flag, s.effects) == s.state.time_flag
            &&& ends_running_shots(v.time_flag, s.effects)
            &&& s.state.old_status == last_status(after)
            &&& s.state.time_flag ==> s.state.stable_start_ms == first_stable(after)
        }),
{
    let a = prepare_step(v, raw);
    let b = message_step(a.state, line_message(raw), now);
    lemma_line_alarms_told(v, raw, now);
    lemma_line_shots_told(v, raw, now);
    lemma_line(v, raw, now);
    lemma_prepare(v, raw);
    lemma_message(a.state, line_message(raw), now);
    lemma_health(b.state, is_valid_line(raw), now);
    if let Some(MessageView::Shot(data)) = line_message(raw) {
        lemma_stable_told(a.state, data, now, seen);
    }
}

/// The alarms over the whole history. A valid line tells that the alarms are
/// over exactly where one is up, raises none and ends the count of banners.
/// Without a valid line the disconnect alarm goes up exactly when the last
/// valid line is too long ago, and the restart alarm exactly where banners
/// were counted; neither where a reset was requested since the last valid
/// line or the alarm is up already. Nothing else tells that the alarms are
/// over.
pub proof fn law_alarms_follow_history(start: int, inputs: Seq<Input>, raw: Seq<char>, now: int)
    ensures
        ({
            let v = state_after(start, inputs);
            let told = effects_after(start, inputs);
            let line = line_step(v, raw, now);
            let tick = tick_step(v, now);
            let gone = EventView::AlarmRaised { alarm: AlarmView::EspDisconnected };
            let silent = now > last_valid(start, inputs) + DISCONNECT_TIMEOUT_MS && undisturbed(
                inputs,
            ) && !disconnect_up(false, told);
            &&& publishes(line.effects, EventView::AlarmsCleared) <==> is_valid_line(raw) && (
            disconnect_up(false, told) || restart_up(false, told))
            &&& is_valid_line(raw) ==> no_alarm(line.effects) && line.state.reset_count == 0
            &&& publishes(line.effects, gone) <==> !is_valid_line(raw) && silent
            &&& (exists|trace: Seq<char>| #[trigger]
                publishes(line.effects, restart_event(trace))) <==> !is_valid_line(raw)
                && line.state.reset_count > 0 && undisturbed(inputs) && !restart_up(false, told)
            &&& publishes(tick.effects, gone) <==> silent
            &&& !publishes(tick.effects, EventView::AlarmsCleared)
            &&& forall|trace: Seq<char>| !#[trigger] publishes(tick.effects, restart_event(trace))
        }),
{
    let v = state_after(start, inputs);
    let a = prepare_step(v, raw);
    let b = message_step(a.state, line_message(raw), now);
    let c = health_step(b.state, is_valid_line(raw), now);
    let line = line_step(v, raw, now);
    let gone = EventView::AlarmRaised { alarm: AlarmView::EspDisconnected };
    law_state_follows_history(start, inputs);
    lemma_line(v, raw, now);
    lemma_prepare(v, raw);
    lemma_message(a.state, line_message(raw), now);
    lemma_health(b.state, is_valid_line(raw), now);
    lemma_health(v, false, now);
    lemma_no_alarm(a.effects, gone);
    lemma_no_alarm(b.effects, gone);
    assert forall|trace: Seq<char>| #[trigger]
        publishes(line.effects, restart_event(trace)) == publishes(
        c.effects,
        restart_event(trace),
    ) by {
        lemma_no_alarm(a.effects, restart_event(trace));
        lemma_no_alarm(b.effects, restart_event(trace));
    }
    let whole = join(b.state.trace, '\n');
    assert(publishes(line.effects, restart_event(whole)) == publishes(
        c.effects,
        restart_event(whole),
    ));
}

/// A shot ends exactly when it is running, the datapoint does not start one,
/// and either the machine is idle or purges, or it stops retracting, or it
/// retracts and the first of the datapoints with a stable weight that stand
/// together before this one is long enough ago. The published datapoint then
/// says that no shot is running.
pub proof fn law_shots_end_exactly(start: int, inputs: Seq<Input>, raw: Seq<char>, now: int)
    requires
        line_message(raw) matches Some(MessageView::Shot(_)),
    ensures
        line_message(raw) matches Some(MessageView::Shot(data)) && ({
            let v = state_after(start, inputs);
            let s = line_step(v, raw, now);
            let seen = sightings(inputs);
            let before = last_status(seen);
            let status = text_arg(data.status);
            let starts = before == status::CLOSING_VALVE@ && status != before;
            &&& publishes(s.effects, EventView::ShotEnded) <==> {
                &&& v.snapshot().data_sensors.is_extracting
                &&& !starts
                &&& {
                    ||| status == status::IDLE@
                    ||| status == status::PURGE@
                    ||| before == status::RETRACTING@ && status != before
                    ||| status == status::RETRACTING@ && (first_stable(seen) matches Some(t0)
                        && now - t0 >= STABLE_TIME_THRESHOLD_MS)
                }
            }
            &&& publishes(s.effects, EventView::ShotEnded) ==> !s.state.data_sensors.is_extracting
                && publishes(s.effects, EventView::Status { data: s.state.data_sensors })
            &&& publishes(s.effects, EventView::ShotStarted) <==> starts
        }),
{
    let v = state_after(start, inputs);
    let a = prepare_step(v, raw);
    let b = message_step(a.state, line_message(raw), now);
    law_state_follows_history(start, inputs);
    lemma_statuses_differ();
    lemma_line(v, raw, now);
    lemma_prepare(v, raw);
    lemma_message(a.state, line_message(raw), now);
    lemma_health(b.state, is_valid_line(raw), now);
    if let Some(MessageView::Shot(data)) = line_message(raw) {
        lemma_shot(a.state, data, now);
        assert(first_stable(sightings(inputs)) matches Some(t0) ==> (elapsed(now, t0)
            >= STABLE_TIME_THRESHOLD_MS <==> now - t0 >= STABLE_TIME_THRESHOLD_MS));
    }
}

/// Where a shot is running after some effects and was not before, it has
/// started in between.
proof fn lemma_started_between(effects: Seq<EffectView>, from: int, to: int)
    requires
        0 <= from <= to <= effects.len(),
        !shot_running(false, effects.take(from)),
        shot_running(false, effects.take(to)),
    ensures
        exists|k: int|
            from <= k < to && #[trigger] effects[k] == EffectView::Event(EventView::ShotStarted),
    decreases to - from,
{
    if from < to {
        assert(effects.take(to).drop_last() =~= effects.take(to - 1));
        assert(effects.take(to).last() == effects[to - 1]);
        if effects[to - 1] != EffectView::Event(EventView::ShotStarted) {
            lemma_started_between(effects, from, to - 1);
        }
    }
}

/// Between two ends of a shot there is a start.
pub proof fn law_ends_are_separated_by_starts(start: int, inputs: Seq<Input>, i: int, j: int)
    requires
        0 <= i < j < effects_after(start, inputs).len(),
        effects_after(start, inputs)[i] == EffectView::Event(EventView::ShotEnded),
        effects_after(start, inputs)[j] == EffectView::Event(EventView::ShotEnded),
    ensures
        exists|k: int|
            i < k < j && #[trigger] effects_after(start, inputs)[k] == EffectView::Event(
                EventView::ShotStarted,
            ),
{
    let effects = effects_after(start, inputs);
    law_state_follows_history(start, inputs);
    assert(effects.take(i + 1).drop_last() =~= effects.take(i));
    assert(effects.take(i + 1).last() == effects[i]);
    assert(!shot_running(false, effects.take(i + 1)));
    assert(shot_running(false, effects.take(j)));
    lemma_started_between(effects, i + 1, j);
}

}
