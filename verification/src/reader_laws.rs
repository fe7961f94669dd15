//! What the read loop promises over several lines.

use crate::command::action_frame;
use crate::events::{AlarmView, EventView};
use crate::message::{
    boot_banner, crash_marker, law_boot_banner_is_unrecognized, line_message, MessageView,
};
use crate::reader::{
    banner_step, disconnect_alarm_step, elapsed, extraction_step, fresh, health_step, heating_step,
    idle_step, is_valid_line, just, lemma_shot_step_consistent, line_step, message_step, nothing, prepare_step, ready_step,
    request_step, reset_noted, restart_alarm_step, shot_step, shot_time, stamp_step, starts_shot,
    tick_step, traced, valid_step, watchdog_step, EffectView, ReaderView, DISCONNECT_TIMEOUT_MS,
};
use crate::shot::text_arg;
use crate::status;
use crate::text::join;
use vstd::prelude::*;

verus! {

/// The event is among the effects.
pub open spec fn publishes(effects: Seq<EffectView>, event: EventView) -> bool {
    effects.contains(EffectView::Event(event))
}

/// An alarm goes up.
pub open spec fn is_alarm(effect: EffectView) -> bool {
    effect matches EffectView::Event(EventView::AlarmRaised { alarm })
}

/// Bytes are sent.
pub open spec fn is_send(effect: EffectView) -> bool {
    effect is Send
}

/// No alarm goes up.
pub open spec fn no_alarm(effects: Seq<EffectView>) -> bool {
    forall|i: int| 0 <= i < effects.len() ==> !is_alarm(#[trigger] effects[i])
}

/// Nothing is sent.
pub open spec fn no_send(effects: Seq<EffectView>) -> bool {
    forall|i: int| 0 <= i < effects.len() ==> !is_send(#[trigger] effects[i])
}

/// Nothing is told of the course of a shot.
pub open spec fn no_datapoint_event(effects: Seq<EffectView>) -> bool {
    &&& !publishes(effects, EventView::ShotStarted)
    &&& !publishes(effects, EventView::ShotEnded)
    &&& !publishes(effects, EventView::WentIdle)
    &&& !publishes(effects, EventView::HeatingStarted)
    &&& !publishes(effects, EventView::HeatingEnded)
}

pub proof fn lemma_append(a: Seq<EffectView>, b: Seq<EffectView>)
    ensures
        forall|e: EventView|
            #![trigger publishes(a + b, e)]
            publishes(a + b, e) <==> publishes(a, e) || publishes(b, e),
        no_alarm(a + b) <==> no_alarm(a) && no_alarm(b),
        no_send(a + b) <==> no_send(a) && no_send(b),
{
    assert forall|e: EventView|
        #![trigger publishes(a + b, e)]
        publishes(a + b, e) <==> publishes(a, e) || publishes(b, e) by {
        let x = EffectView::Event(e);
        if publishes(a, e) {
            let i = choose|i: int| 0 <= i < a.len() && a[i] == x;
            assert((a + b)[i] == x);
        }
        if publishes(b, e) {
            let i = choose|i: int| 0 <= i < b.len() && b[i] == x;
            assert((a + b)[a.len() + i] == x);
        }
        if publishes(a + b, e) {
            let i = choose|i: int| 0 <= i < (a + b).len() && (a + b)[i] == x;
            if i < a.len() {
                assert(a[i] == x);
            } else {
                assert(b[i - a.len()] == x);
            }
        }
    }
    if no_alarm(a + b) {
        assert forall|i: int| 0 <= i < a.len() implies !is_alarm(#[trigger] a[i]) by {
            assert((a + b)[i] == a[i]);
        }
        assert forall|i: int| 0 <= i < b.len() implies !is_alarm(#[trigger] b[i]) by {
            assert((a + b)[a.len() + i] == b[i]);
        }
    }
    if no_send(a + b) {
        assert forall|i: int| 0 <= i < a.len() implies !is_send(#[trigger] a[i]) by {
            assert((a + b)[i] == a[i]);
        }
        assert forall|i: int| 0 <= i < b.len() implies !is_send(#[trigger] b[i]) by {
            assert((a + b)[a.len() + i] == b[i]);
        }
    }
}

pub proof fn lemma_just(event: EventView)
    ensures
        forall|e: EventView| #[trigger] publishes(just(event), e) <==> e == event,
        no_send(just(event)),
        no_alarm(just(event)) <==> !(event is AlarmRaised),
        forall|e: EventView| !#[trigger] publishes(nothing(), e),
        no_send(nothing()),
        no_alarm(nothing()),
{
    assert forall|e: EventView| #[trigger] publishes(just(event), e) <==> e == event by {
        assert(just(event)[0] == EffectView::Event(event));
    }
    if event is AlarmRaised {
        assert(is_alarm(just(event)[0]));
    }
}

/// What the stages before the message do.
#[verifier::rlimit(40)]
pub proof fn lemma_prepare(v: ReaderView, raw: Seq<char>)
    requires
        v.consistent(),
    ensures
        ({
            let s = prepare_step(v, raw);
            &&& s.state.consistent()
            &&& s.state.reset_count == if !boot_banner(raw) {
                v.reset_count
            } else if v.reset_count == 2 {
                0
            } else {
                v.reset_count + 1
            }
            &&& no_alarm(s.effects)
            &&& publishes(s.effects, EventView::FirmwareUpdateRequested) <==> boot_banner(raw)
                && v.reset_count == 2
            &&& boot_banner(raw) ==> publishes(
                s.effects,
                EventView::BootBanner { reset_count: v.reset_count + 1 },
            )
            &&& no_datapoint_event(s.effects)
            &&& !publishes(s.effects, EventView::AlarmsCleared)
            &&& !publishes(s.effects, EventView::EspSilentAfterBoot)
            &&& no_send(s.effects) <==> !(!boot_banner(raw) && v.info_ready && !v.info_requested
                && v.esp_info is None)
            &&& s.state.restart_requested == v.restart_requested
            &&& s.state.restart_alarm_set == v.restart_alarm_set
            &&& s.state.disconnect_alarm_set == v.disconnect_alarm_set
            &&& s.state.last_valid_ms == v.last_valid_ms
            &&& s.state.time_flag == v.time_flag
            &&& s.state.old_status == v.old_status
            &&& s.state.shot_start_ms == v.shot_start_ms
            &&& s.state.stable_start_ms == v.stable_start_ms
            &&& s.state.data_sensors == v.data_sensors
        }),
{
    let a = banner_step(v, raw);
    let b = watchdog_step(a.state);
    let c = request_step(traced(b.state, raw));
    let banner = EventView::BootBanner { reset_count: v.reset_count + 1 };
    let dropped = ready_step(v, false).effects;
    lemma_just(banner);
    lemma_just(EventView::FirmwareUpdateRequested);
    lemma_just(EventView::ProfileReadyChanged { ready: false });
    lemma_append(dropped, just(banner));
    lemma_append(a.effects, b.effects);
    lemma_append(a.effects + b.effects, c.effects);
    let sent = seq![EffectView::Send(action_frame("info"@))];
    assert(is_send(sent[0]));
    assert(no_alarm(c.effects));
    assert(forall|e: EventView| !#[trigger] publishes(c.effects, e));
}

/// What a message does to the state, apart from the shot.
#[verifier::rlimit(40)]
pub proof fn lemma_message(v: ReaderView, message: Option<MessageView>, now: int)
    requires
        v.consistent(),
    ensures
        ({
            let s = message_step(v, message, now);
            &&& s.state.consistent()
            &&& s.state.reset_count == v.reset_count
            &&& s.state.restart_requested == v.restart_requested
            &&& s.state.restart_alarm_set == v.restart_alarm_set
            &&& s.state.disconnect_alarm_set == v.disconnect_alarm_set
            &&& s.state.last_valid_ms == v.last_valid_ms
            &&& s.state.trace == v.trace
            &&& s.state.collecting_trace == v.collecting_trace
            &&& no_alarm(s.effects)
            &&& no_send(s.effects)
            &&& !publishes(s.effects, EventView::FirmwareUpdateRequested)
            &&& !publishes(s.effects, EventView::AlarmsCleared)
            &&& !publishes(s.effects, EventView::EspSilentAfterBoot)
            &&& forall|n: int| !publishes(s.effects, #[trigger] boot_banner_event(n))
            &&& !(message matches Some(MessageView::Info(_))) ==> s.state.info_requested
                == v.info_requested && s.state.esp_info == v.esp_info
            &&& !(message matches Some(MessageView::Shot(_))) ==> s.state.time_flag == v.time_flag
                && s.state.data_sensors == v.data_sensors && s.state.old_status == v.old_status
                && s.state.stable_start_ms == v.stable_start_ms && no_datapoint_event(s.effects)
        }),
{
    match message {
        None => {
            lemma_just(EventView::WentIdle);
        },
        Some(MessageView::Shot(data)) => {
            lemma_shot(v, data, now);
        },
        Some(MessageView::Sensors(data)) => {
            lemma_just(EventView::Sensors { data });
        },
        Some(MessageView::Info(data)) => {
            lemma_just(EventView::Info { data });
        },
        Some(MessageView::Button(data)) => {
            lemma_just(EventView::Button { data });
        },
        Some(MessageView::Notify(data)) => {
            lemma_just(EventView::Notify { data });
        },
        Some(MessageView::HeaterTimeout(data)) => {
            lemma_just(EventView::HeaterTimeout { data });
        },
        Some(MessageView::Log(data)) => {
            lemma_just(EventView::EspLog { data });
        },
    }
}

/// The event of the banner with the given count.
pub open spec fn boot_banner_event(n: int) -> EventView {
    EventView::BootBanner { reset_count: n }
}

/// What a datapoint does.
#[verifier::rlimit(40)]
pub proof fn lemma_shot(v: ReaderView, data: crate::shot::ShotView, now: int)
    requires
        v.consistent(),
    ensures
        ({
            let s = shot_step(v, data, now);
            let status = text_arg(data.status);
            &&& s.state.consistent()
            &&& s.state.reset_count == v.reset_count
            &&& s.state.restart_requested == v.restart_requested
            &&& s.state.restart_alarm_set == v.restart_alarm_set
            &&& s.state.disconnect_alarm_set == v.disconnect_alarm_set
            &&& s.state.last_valid_ms == v.last_valid_ms
            &&& s.state.trace == v.trace
            &&& s.state.collecting_trace == v.collecting_trace
            &&& s.state.info_requested == v.info_requested
            &&& s.state.esp_info == v.esp_info
            &&& s.state.info_ready
            &&& no_alarm(s.effects)
            &&& no_send(s.effects)
            &&& !publishes(s.effects, EventView::FirmwareUpdateRequested)
            &&& !publishes(s.effects, EventView::AlarmsCleared)
            &&& !publishes(s.effects, EventView::EspSilentAfterBoot)
            &&& forall|n: int| !publishes(s.effects, #[trigger] boot_banner_event(n))
            &&& publishes(s.effects, EventView::ShotStarted) <==> starts_shot(v, status)
            &&& publishes(s.effects, EventView::ShotEnded) <==> v.time_flag && !s.state.time_flag
            &&& s.state.time_flag && !v.time_flag ==> starts_shot(v, status)
            &&& starts_shot(v, status) ==> s.state.time_flag && s.state.shot_start_ms == now
            &&& !starts_shot(v, status) ==> s.state.shot_start_ms == v.shot_start_ms
            &&& publishes(s.effects, EventView::Status { data: s.state.data_sensors })
            &&& s.state.time_flag ==> s.state.data_sensors.time == shot_time(s.state, now)
            &&& s.state.old_status == status
            &&& publishes(s.effects, EventView::WentIdle) <==> status == status::IDLE@
                && v.old_status != status::IDLE@
            &&& publishes(s.effects, EventView::WentIdle) ==> !s.state.profile_ready
            &&& publishes(s.effects, EventView::HeatingStarted) <==> status == status::HEATING@
                && v.old_status != status::HEATING@
            &&& publishes(s.effects, EventView::HeatingEnded) <==> status != status::HEATING@
                && v.old_status == status::HEATING@
        }),
{
    let status = text_arg(data.status);
    let a = extraction_step(v, status, data.stable_weight, now);
    let b = idle_step(a.state, status);
    let c = heating_step(b.state, status);
    let d = stamp_step(c.state, data, now);
    lemma_shot_step_consistent(v, data, now);
    lemma_just(EventView::ShotStarted);
    lemma_just(EventView::ShotEnded);
    lemma_just(EventView::WentIdle);
    lemma_just(EventView::ProfileReadyChanged { ready: false });
    lemma_just(EventView::HeatingStarted);
    lemma_just(EventView::HeatingEnded);
    lemma_just(EventView::Status { data: d.state.data_sensors });
    lemma_append(ready_step(a.state, false).effects, just(EventView::WentIdle));
    lemma_append(a.effects, b.effects);
    lemma_append(a.effects + b.effects, c.effects);
    lemma_append(a.effects + b.effects + c.effects, d.effects);
}

/// What the healthcheck does.
#[verifier::rlimit(40)]
pub proof fn lemma_health(v: ReaderView, valid: bool, now: int)
    requires
        v.consistent(),
    ensures
        ({
            let s = health_step(v, valid, now);
            let restart = !valid && v.reset_count > 0 && !v.restart_requested
                && !v.restart_alarm_set;
            let silence = !valid && elapsed(now, v.last_valid_ms) > DISCONNECT_TIMEOUT_MS
                && !v.restart_requested && !v.disconnect_alarm_set;
            &&& s.state.wf()
            &&& s.state.reset_count == if valid {
                0
            } else {
                v.reset_count
            }
            &&& s.state.restart_requested == (v.restart_requested && !valid)
            &&& s.state.restart_alarm_set == (!valid && (v.restart_alarm_set || restart))
            &&& s.state.disconnect_alarm_set == (!valid && (v.disconnect_alarm_set || silence))
            &&& s.state.last_valid_ms == if valid {
                now
            } else {
                v.last_valid_ms
            }
            &&& s.state.time_flag == v.time_flag
            &&& s.state.shot_start_ms == v.shot_start_ms
            &&& s.state.data_sensors == v.data_sensors
            &&& s.state.old_status == v.old_status
            &&& s.state.stable_start_ms == v.stable_start_ms
            &&& s.state.info_ready == v.info_ready
            &&& s.state.info_requested == v.info_requested
            &&& s.state.esp_info == v.esp_info
            &&& s.state.profile_ready == v.profile_ready
            &&& s.state.collecting_trace == v.collecting_trace
            &&& s.state.trace == if restart {
                Seq::<Seq<char>>::empty()
            } else {
                v.trace
            }
            &&& no_alarm(s.effects) <==> !restart && !silence
            &&& publishes(
                s.effects,
                EventView::AlarmRaised { alarm: AlarmView::EspDisconnected },
            ) <==> silence
            &&& forall|trace: Seq<char>| #[trigger]
                publishes(s.effects, restart_event(trace)) <==> restart && trace == join(
                    v.trace,
                    '\n',
                )
            &&& publishes(s.effects, EventView::AlarmsCleared) <==> valid && (v.restart_alarm_set
                || v.disconnect_alarm_set)
            &&& no_send(s.effects)
            &&& !publishes(s.effects, EventView::FirmwareUpdateRequested)
            &&& no_datapoint_event(s.effects)
            &&& !publishes(s.effects, EventView::EspSilentAfterBoot)
            &&& (!restart && !silence && !valid) ==> s.effects == nothing()
        }),
{
    let a = valid_step(v, valid, now);
    let b = restart_alarm_step(a.state);
    let c = disconnect_alarm_step(b.state, now);
    lemma_just(EventView::AlarmsCleared);
    lemma_just(EventView::AlarmRaised { alarm: AlarmView::EspDisconnected });
    lemma_just(restart_event(join(v.trace, '\n')));
    lemma_append(a.effects, b.effects);
    lemma_append(a.effects + b.effects, c.effects);
    assert(nothing() + nothing() + nothing() =~= nothing());
}

/// The event of the restart alarm with the given trace.
pub open spec fn restart_event(trace: Seq<char>) -> EventView {
    EventView::AlarmRaised { alarm: AlarmView::EspRestart { trace } }
}

/// All stages of a line, one after the other.
#[verifier::rlimit(40)]
pub proof fn lemma_line(v: ReaderView, raw: Seq<char>, now: int)
    requires
        v.consistent(),
    ensures
        ({
            let a = prepare_step(v, raw);
            let b = message_step(a.state, line_message(raw), now);
            let c = health_step(b.state, is_valid_line(raw), now);
            let s = line_step(v, raw, now);
            &&& s.state == c.state
            &&& a.state.consistent()
            &&& b.state.consistent()
            &&& forall|e: EventView|
                #![trigger publishes(s.effects, e)]
                publishes(s.effects, e) <==> publishes(a.effects, e) || publishes(b.effects, e)
                    || publishes(c.effects, e)
            &&& no_alarm(s.effects) <==> no_alarm(a.effects) && no_alarm(b.effects) && no_alarm(
                c.effects,
            )
            &&& no_send(s.effects) <==> no_send(a.effects) && no_send(b.effects) && no_send(
                c.effects,
            )
        }),
{
    let a = prepare_step(v, raw);
    let b = message_step(a.state, line_message(raw), now);
    let c = health_step(b.state, is_valid_line(raw), now);
    reveal(line_step);
    lemma_prepare(v, raw);
    lemma_message(a.state, line_message(raw), now);
    lemma_append(a.effects, b.effects);
    lemma_append(a.effects + b.effects, c.effects);
}

// ---------------------------------------------------------------------------
// The reset watchdog
// ---------------------------------------------------------------------------

/// How a line counts: a valid line ends the count, a banner adds one and the
/// third one starts over, any other line leaves it. A firmware update is
/// requested exactly on the third banner.
pub proof fn law_reset_count(v: ReaderView, raw: Seq<char>, now: int)
    requires
        v.wf(),
    ensures
        line_step(v, raw, now).state.reset_count == if is_valid_line(raw) {
            0
        } else if boot_banner(raw) {
            (v.reset_count + 1) % 3
        } else {
            v.reset_count
        },
        publishes(line_step(v, raw, now).effects, EventView::FirmwareUpdateRequested)
            <==> boot_banner(raw) && v.reset_count == 2,
        boot_banner(raw) ==> publishes(
            line_step(v, raw, now).effects,
            EventView::BootBanner { reset_count: v.reset_count + 1 },
        ),
{
    let a = prepare_step(v, raw);
    let b = message_step(a.state, line_message(raw), now);
    lemma_line(v, raw, now);
    lemma_prepare(v, raw);
    lemma_message(a.state, line_message(raw), now);
    lemma_health(b.state, is_valid_line(raw), now);
}

/// Three boot banners in a row request a firmware update at the third, and
/// not before; then the count starts over.
#[verifier::rlimit(40)]
pub proof fn law_three_banners_request_update(
    v: ReaderView,
    first: Seq<char>,
    second: Seq<char>,
    third: Seq<char>,
    t1: int,
    t2: int,
    t3: int,
)
    requires
        v.wf(),
        v.reset_count == 0,
        boot_banner(first),
        boot_banner(second),
        boot_banner(third),
    ensures
        ({
            let a = line_step(v, first, t1);
            let b = line_step(a.state, second, t2);
            let c = line_step(b.state, third, t3);
            &&& !publishes(a.effects, EventView::FirmwareUpdateRequested)
            &&& !publishes(b.effects, EventView::FirmwareUpdateRequested)
            &&& publishes(c.effects, EventView::FirmwareUpdateRequested)
            &&& c.state.reset_count == 0
        }),
{
    let a = line_step(v, first, t1);
    let b = line_step(a.state, second, t2);
    law_lines_keep_the_invariant(v, first, t1);
    law_lines_keep_the_invariant(a.state, second, t2);
    law_reset_count(v, first, t1);
    law_reset_count(a.state, second, t2);
    law_reset_count(b.state, third, t3);
}

/// What holds between lines holds at startup, and every line, every tick and
/// every request keeps it.
pub proof fn law_lines_keep_the_invariant(v: ReaderView, raw: Seq<char>, now: int)
    requires
        v.wf(),
    ensures
        fresh(now).wf(),
        line_step(v, raw, now).state.wf(),
        tick_step(v, now).state.wf(),
        reset_noted(v).wf(),
        ready_step(v, true).state.wf(),
        ready_step(v, false).state.wf(),
{
    let a = prepare_step(v, raw);
    let b = message_step(a.state, line_message(raw), now);
    lemma_line(v, raw, now);
    lemma_health(b.state, is_valid_line(raw), now);
    lemma_health(v, false, now);
}

// ---------------------------------------------------------------------------
// Alarms
// ---------------------------------------------------------------------------

/// A requested restart keeps both alarms down until the first valid line.
pub proof fn law_requested_restart_keeps_alarms_down(v: ReaderView, raw: Seq<char>, now: int)
    requires
        v.wf(),
        v.restart_requested,
    ensures
        no_alarm(line_step(v, raw, now).effects),
        no_alarm(tick_step(v, now).effects),
        tick_step(v, now).state.restart_requested,
        line_step(v, raw, now).state.restart_requested == !is_valid_line(raw),
        fresh(now).restart_requested,
        reset_noted(v).restart_requested,
{
    let a = prepare_step(v, raw);
    let b = message_step(a.state, line_message(raw), now);
    lemma_line(v, raw, now);
    lemma_prepare(v, raw);
    lemma_message(a.state, line_message(raw), now);
    lemma_health(b.state, is_valid_line(raw), now);
    lemma_health(v, false, now);
}

/// A valid line ends the requested restart, the count of banners and both
/// alarms; it raises none, and says so where an alarm was up.
pub proof fn law_valid_lines_clear(v: ReaderView, raw: Seq<char>, now: int)
    requires
        v.wf(),
        is_valid_line(raw),
    ensures
        ({
            let s = line_step(v, raw, now);
            &&& !s.state.restart_requested
            &&& s.state.reset_count == 0
            &&& !s.state.restart_alarm_set
            &&& !s.state.disconnect_alarm_set
            &&& s.state.last_valid_ms == now
            &&& no_alarm(s.effects)
            &&& publishes(s.effects, EventView::AlarmsCleared) <==> v.restart_alarm_set
                || v.disconnect_alarm_set
        }),
{
    let a = prepare_step(v, raw);
    let b = message_step(a.state, line_message(raw), now);
    lemma_line(v, raw, now);
    lemma_prepare(v, raw);
    lemma_message(a.state, line_message(raw), now);
    lemma_health(b.state, true, now);
}

/// Silence beyond the limit raises the disconnect alarm, and the next tick
/// raises nothing, whenever it comes.
pub proof fn law_silence_alarms_once(v: ReaderView, now: int, later: int)
    requires
        v.wf(),
        !v.restart_requested,
        !v.disconnect_alarm_set,
        elapsed(now, v.last_valid_ms) > DISCONNECT_TIMEOUT_MS,
    ensures
        publishes(
            tick_step(v, now).effects,
            EventView::AlarmRaised { alarm: AlarmView::EspDisconnected },
        ),
        tick_step(tick_step(v, now).state, later).effects == nothing(),
{
    lemma_health(v, false, now);
    lemma_health(tick_step(v, now).state, false, later);
}

/// A read without a line raises the disconnect alarm where it is due, and does
/// nothing else.
pub proof fn law_ticks_raise_silence_alone(v: ReaderView, now: int)
    requires
        v.wf(),
    ensures
        tick_step(v, now).effects == if elapsed(now, v.last_valid_ms) > DISCONNECT_TIMEOUT_MS
            && !v.restart_requested && !v.disconnect_alarm_set {
            just(EventView::AlarmRaised { alarm: AlarmView::EspDisconnected })
        } else {
            nothing()
        },
        tick_step(v, now).state == (ReaderView {
            disconnect_alarm_set: tick_step(v, now).state.disconnect_alarm_set,
            ..v
        }),
{
    let gone = just(EventView::AlarmRaised { alarm: AlarmView::EspDisconnected });
    assert(nothing() + nothing() + gone =~= gone);
    assert(nothing() + nothing() + nothing() =~= nothing());
}

/// The healthcheck tells that the alarms are over exactly when a message is
/// valid and one was up, and then raises none. Without a valid message it
/// raises the disconnect alarm exactly after too long a silence, and the
/// restart alarm exactly where banners were counted; neither where a restart
/// was requested or the alarm is up.
pub proof fn law_healthcheck_events(v: ReaderView, valid: bool, now: int)
    requires
        v.consistent(),
    ensures
        ({
            let s = health_step(v, valid, now);
            &&& publishes(s.effects, EventView::AlarmsCleared) <==> valid && (v.restart_alarm_set
                || v.disconnect_alarm_set)
            &&& valid ==> no_alarm(s.effects) && s.state.reset_count == 0
            &&& publishes(
                s.effects,
                EventView::AlarmRaised { alarm: AlarmView::EspDisconnected },
            ) <==> !valid && now > v.last_valid_ms + DISCONNECT_TIMEOUT_MS && !v.restart_requested
                && !v.disconnect_alarm_set
            &&& publishes(s.effects, restart_event(join(v.trace, '\n'))) <==> !valid
                && v.reset_count > 0 && !v.restart_requested && !v.restart_alarm_set
        }),
{
    lemma_health(v, valid, now);
}

/// The disconnect alarm goes up exactly where no valid line came for longer
/// than the limit, no restart was requested, and it is not up already; the
/// restart alarm exactly where banners were counted, no restart was requested,
/// and it is not up already.
pub proof fn law_alarms_go_up_exactly(v: ReaderView, raw: Seq<char>, now: int)
    requires
        v.wf(),
    ensures
        publishes(
            line_step(v, raw, now).effects,
            EventView::AlarmRaised { alarm: AlarmView::EspDisconnected },
        ) <==> !is_valid_line(raw) && elapsed(now, v.last_valid_ms) > DISCONNECT_TIMEOUT_MS
            && !v.restart_requested && !v.disconnect_alarm_set,
        publishes(
            tick_step(v, now).effects,
            EventView::AlarmRaised { alarm: AlarmView::EspDisconnected },
        ) <==> elapsed(now, v.last_valid_ms) > DISCONNECT_TIMEOUT_MS && !v.restart_requested
            && !v.disconnect_alarm_set,
        line_step(v, raw, now).state.restart_alarm_set && !v.restart_alarm_set
            <==> !is_valid_line(raw) && line_step(v, raw, now).state.reset_count > 0
            && !v.restart_requested && !v.restart_alarm_set,
{
    let a = prepare_step(v, raw);
    let b = message_step(a.state, line_message(raw), now);
    let gone = EventView::AlarmRaised { alarm: AlarmView::EspDisconnected };
    lemma_line(v, raw, now);
    lemma_prepare(v, raw);
    lemma_message(a.state, line_message(raw), now);
    lemma_health(b.state, is_valid_line(raw), now);
    lemma_health(v, false, now);
    lemma_no_alarm(a.effects, gone);
    lemma_no_alarm(b.effects, gone);
}

/// An alarm that is up is not raised again.
pub proof fn law_alarms_are_latched(v: ReaderView, raw: Seq<char>, now: int, trace: Seq<char>)
    requires
        v.wf(),
    ensures
        v.disconnect_alarm_set ==> !publishes(
            line_step(v, raw, now).effects,
            EventView::AlarmRaised { alarm: AlarmView::EspDisconnected },
        ),
        v.restart_alarm_set ==> !publishes(line_step(v, raw, now).effects, restart_event(trace)),
{
    let a = prepare_step(v, raw);
    let b = message_step(a.state, line_message(raw), now);
    let gone = EventView::AlarmRaised { alarm: AlarmView::EspDisconnected };
    lemma_line(v, raw, now);
    lemma_prepare(v, raw);
    lemma_message(a.state, line_message(raw), now);
    lemma_health(b.state, is_valid_line(raw), now);
    lemma_no_alarm(a.effects, gone);
    lemma_no_alarm(b.effects, gone);
    lemma_no_alarm(a.effects, restart_event(trace));
    lemma_no_alarm(b.effects, restart_event(trace));
}

pub proof fn lemma_no_alarm(effects: Seq<EffectView>, event: EventView)
    requires
        no_alarm(effects),
        event is AlarmRaised,
    ensures
        !publishes(effects, event),
{
    if publishes(effects, event) {
        let i = choose|i: int| 0 <= i < effects.len() && effects[i] == EffectView::Event(event);
        assert(is_alarm(effects[i]));
    }
}

/// From a crash marker on, every line but a banner is added to the trace.
pub proof fn law_crash_lines_are_collected(v: ReaderView, raw: Seq<char>, now: int)
    requires
        v.wf(),
        !boot_banner(raw),
        v.reset_count == 0,
        v.collecting_trace || crash_marker(raw),
    ensures
        line_step(v, raw, now).state.trace == v.trace.push(raw),
        line_step(v, raw, now).state.collecting_trace,
{
    let a = prepare_step(v, raw);
    let b = message_step(a.state, line_message(raw), now);
    lemma_line(v, raw, now);
    lemma_prepare(v, raw);
    lemma_message(a.state, line_message(raw), now);
    lemma_health(b.state, is_valid_line(raw), now);
}

/// A banner that nobody asked for raises the restart alarm with the whole
/// trace collected so far, unless it is the third one, which asks for a
/// firmware update instead.
pub proof fn law_restart_alarm_carries_the_trace(v: ReaderView, raw: Seq<char>, now: int)
    requires
        v.wf(),
        boot_banner(raw),
        !crash_marker(raw),
        !v.restart_requested,
        !v.restart_alarm_set,
        v.reset_count < 2,
    ensures
        publishes(line_step(v, raw, now).effects, restart_event(join(v.trace, '\n'))),
        line_step(v, raw, now).state.restart_alarm_set,
        line_step(v, raw, now).state.trace == Seq::<Seq<char>>::empty(),
{
    let a = prepare_step(v, raw);
    let b = message_step(a.state, line_message(raw), now);
    law_boot_banner_is_unrecognized(raw);
    lemma_line(v, raw, now);
    lemma_prepare(v, raw);
    lemma_message(a.state, line_message(raw), now);
    lemma_health(b.state, false, now);
    assert(publishes(
        health_step(b.state, false, now).effects,
        restart_event(join(v.trace, '\n')),
    ));
}

/// The read loop itself never tells that a machine is silent after its boot.
pub proof fn law_lines_tell_no_boot_silence(v: ReaderView, raw: Seq<char>, now: int)
    requires
        v.wf(),
    ensures
        !publishes(line_step(v, raw, now).effects, EventView::EspSilentAfterBoot),
        !publishes(tick_step(v, now).effects, EventView::EspSilentAfterBoot),
        !publishes(ready_step(v, true).effects, EventView::EspSilentAfterBoot),
        !publishes(ready_step(v, false).effects, EventView::EspSilentAfterBoot),
{
    let a = prepare_step(v, raw);
    let b = message_step(a.state, line_message(raw), now);
    lemma_line(v, raw, now);
    lemma_prepare(v, raw);
    lemma_message(a.state, line_message(raw), now);
    lemma_health(b.state, is_valid_line(raw), now);
    lemma_health(v, false, now);
    lemma_just(EventView::ProfileReadyChanged { ready: true });
    lemma_just(EventView::ProfileReadyChanged { ready: false });
}

// ---------------------------------------------------------------------------
// Machine information
// ---------------------------------------------------------------------------

/// Machine information is asked for exactly when the machine has talked since
/// the last boot, has not sent it, and was not asked before. What is sent is
/// `action,info`, and nothing else is ever sent.
#[verifier::rlimit(40)]
pub proof fn law_info_is_requested_once(v: ReaderView, raw: Seq<char>, now: int)
    requires
        v.wf(),
    ensures
        !no_send(line_step(v, raw, now).effects) <==> !boot_banner(raw) && v.info_ready
            && !v.info_requested && v.esp_info is None,
        forall|i: int|
            0 <= i < line_step(v, raw, now).effects.len() && is_send(
                #[trigger] line_step(v, raw, now).effects[i],
            ) ==> line_step(v, raw, now).effects[i] == EffectView::Send(action_frame("info"@)),
        !no_send(line_step(v, raw, now).effects) && !(line_message(raw) matches Some(
            MessageView::Info(_),
        )) ==> line_step(v, raw, now).state.info_requested,
        v.info_requested && !boot_banner(raw) && !(line_message(raw) matches Some(
            MessageView::Info(_),
        )) ==> line_step(v, raw, now).state.info_requested,
{
    let a = prepare_step(v, raw);
    let b = message_step(a.state, line_message(raw), now);
    let c = health_step(b.state, is_valid_line(raw), now);
    let s = line_step(v, raw, now);
    reveal(line_step);
    lemma_line(v, raw, now);
    lemma_prepare(v, raw);
    lemma_message(a.state, line_message(raw), now);
    lemma_health(b.state, is_valid_line(raw), now);
    assert forall|i: int| 0 <= i < s.effects.len() && is_send(#[trigger] s.effects[i]) implies
        s.effects[i] == EffectView::Send(action_frame("info"@)) by {
        let n = a.effects.len();
        let m = b.effects.len();
        if i < n {
            assert(s.effects[i] == a.effects[i]);
            lemma_prepare_sends(v, raw, i);
        } else if i < n + m {
            assert(s.effects[i] == b.effects[i - n]);
        } else {
            assert(s.effects[i] == c.effects[i - n - m]);
        }
    }
}

proof fn lemma_prepare_sends(v: ReaderView, raw: Seq<char>, i: int)
    requires
        v.consistent(),
        0 <= i < prepare_step(v, raw).effects.len(),
        is_send(prepare_step(v, raw).effects[i]),
    ensures
        prepare_step(v, raw).effects[i] == EffectView::Send(action_frame("info"@)),
{
    let a = banner_step(v, raw);
    let b = watchdog_step(a.state);
    let c = request_step(traced(b.state, raw));
    let all = prepare_step(v, raw).effects;
    let n = a.effects.len();
    let m = b.effects.len();
    let banner = EventView::BootBanner { reset_count: v.reset_count + 1 };
    lemma_just(banner);
    lemma_just(EventView::FirmwareUpdateRequested);
    lemma_just(EventView::ProfileReadyChanged { ready: false });
    lemma_append(ready_step(v, false).effects, just(banner));
    if i < n {
        assert(all[i] == a.effects[i]);
    } else if i < n + m {
        assert(all[i] == b.effects[i - n]);
    } else {
        assert(all[i] == c.effects[i - n - m]);
    }
}

// ---------------------------------------------------------------------------
// Shots
// ---------------------------------------------------------------------------

/// The start of a shot is told exactly when a datapoint shows that the valve
/// is no longer closing, and the end exactly when a running shot stops
/// running; only datapoints start and end shots.
pub proof fn law_shots_start_and_end(v: ReaderView, raw: Seq<char>, now: int)
    requires
        v.wf(),
    ensures
        ({
            let s = line_step(v, raw, now);
            &&& publishes(s.effects, EventView::ShotStarted) <==> (line_message(raw) matches Some(
                MessageView::Shot(data),
            ) && starts_shot(v, text_arg(data.status)))
            &&& publishes(s.effects, EventView::ShotEnded) <==> v.time_flag && !s.state.time_flag
            &&& s.state.time_flag && !v.time_flag ==> publishes(s.effects, EventView::ShotStarted)
            &&& publishes(s.effects, EventView::ShotStarted) ==> s.state.time_flag
                && s.state.shot_start_ms == now
        }),
{
    let a = prepare_step(v, raw);
    let b = message_step(a.state, line_message(raw), now);
    lemma_line(v, raw, now);
    lemma_prepare(v, raw);
    lemma_message(a.state, line_message(raw), now);
    lemma_health(b.state, is_valid_line(raw), now);
    if let Some(MessageView::Shot(data)) = line_message(raw) {
        lemma_shot(a.state, data, now);
    }
}

/// Every datapoint is published as it is kept: stamped with whether a shot is
/// running, and with the time since it started where one is.
pub proof fn law_datapoints_are_stamped(v: ReaderView, raw: Seq<char>, now: int)
    requires
        v.wf(),
        line_message(raw) matches Some(MessageView::Shot(_)),
    ensures
        ({
            let s = line_step(v, raw, now);
            &&& publishes(s.effects, EventView::Status { data: s.state.data_sensors })
            &&& s.state.data_sensors.is_extracting == s.state.time_flag
            &&& s.state.time_flag ==> s.state.data_sensors.time == shot_time(s.state, now)
            &&& s.state.info_ready
        }),
{
    let a = prepare_step(v, raw);
    let b = message_step(a.state, line_message(raw), now);
    lemma_line(v, raw, now);
    lemma_prepare(v, raw);
    lemma_message(a.state, line_message(raw), now);
    lemma_health(b.state, is_valid_line(raw), now);
    if let Some(MessageView::Shot(data)) = line_message(raw) {
        lemma_shot(a.state, data, now);
    }
}

/// The event is at most once among the effects.
pub open spec fn at_most_once(effects: Seq<EffectView>, event: EventView) -> bool {
    forall|i: int, j: int|
        0 <= i < j < effects.len() ==> #[trigger] effects[i] != EffectView::Event(event)
            || #[trigger] effects[j] != EffectView::Event(event)
}

/// An event that is in one of two lists at most, and there at most once, is at
/// most once in both together.
proof fn lemma_once_append(a: Seq<EffectView>, b: Seq<EffectView>, event: EventView)
    requires
        at_most_once(a, event),
        at_most_once(b, event),
        !publishes(a, event) || !publishes(b, event),
    ensures
        at_most_once(a + b, event),
{
    let x = EffectView::Event(event);
    let all = a + b;
    assert forall|i: int, j: int| 0 <= i < j < all.len() implies #[trigger] all[i] != x
        || #[trigger] all[j] != x by {
        let n = a.len();
        if i < n && j < n {
            assert(all[i] == a[i] && all[j] == a[j]);
        } else if i < n {
            assert(all[i] == a[i] && all[j] == b[j - n]);
            if all[i] == x && all[j] == x {
                assert(a.contains(x) && b.contains(x));
            }
        } else {
            assert(all[i] == b[i - n] && all[j] == b[j - n]);
        }
    }
}

/// An event is at most once among the effects of a datapoint, where it is none
/// of the events that carry data.
proof fn lemma_shot_once(v: ReaderView, data: crate::shot::ShotView, now: int, event: EventView)
    requires
        v.consistent(),
        !(event is Status),
        !(event is ProfileReadyChanged),
    ensures
        at_most_once(shot_step(v, data, now).effects, event),
{
    let status = text_arg(data.status);
    let a = extraction_step(v, status, data.stable_weight, now);
    let b = idle_step(a.state, status);
    let c = heating_step(b.state, status);
    let d = stamp_step(c.state, data, now);
    let dropped = ready_step(a.state, false).effects;
    lemma_just(EventView::ShotStarted);
    lemma_just(EventView::ShotEnded);
    lemma_just(EventView::WentIdle);
    lemma_just(EventView::ProfileReadyChanged { ready: false });
    lemma_just(EventView::HeatingStarted);
    lemma_just(EventView::HeatingEnded);
    lemma_just(EventView::Status { data: d.state.data_sensors });
    lemma_append(dropped, just(EventView::WentIdle));
    lemma_append(a.effects, b.effects);
    lemma_append(a.effects + b.effects, c.effects);
    lemma_once_append(dropped, just(EventView::WentIdle), event);
    lemma_once_append(a.effects, b.effects, event);
    lemma_once_append(a.effects + b.effects, c.effects, event);
    lemma_once_append(a.effects + b.effects + c.effects, d.effects, event);
}

/// The events of a datapoint, by the status before and the status now: a shot
/// starts exactly when the valve is no longer closing, the machine goes idle
/// exactly when the status becomes idle (then no profile is loaded), and
/// heating starts and ends exactly with its status. Each is told at most once,
/// and the last effect is the stamped datapoint.
pub proof fn law_datapoint_events(v: ReaderView, data: crate::shot::ShotView, now: int)
    requires
        v.consistent(),
    ensures
        ({
            let s = shot_step(v, data, now);
            let before = v.old_status;
            let status = text_arg(data.status);
            &&& publishes(s.effects, EventView::ShotStarted) <==> before == status::CLOSING_VALVE@
                && status != before
            &&& publishes(s.effects, EventView::WentIdle) <==> status == status::IDLE@ && status
                != before
            &&& publishes(s.effects, EventView::WentIdle) ==> !s.state.profile_ready
            &&& publishes(s.effects, EventView::HeatingStarted) <==> status == status::HEATING@
                && status != before
            &&& publishes(s.effects, EventView::HeatingEnded) <==> before == status::HEATING@
                && status != before
            &&& at_most_once(s.effects, EventView::ShotStarted)
            &&& at_most_once(s.effects, EventView::ShotEnded)
            &&& at_most_once(s.effects, EventView::WentIdle)
            &&& at_most_once(s.effects, EventView::HeatingStarted)
            &&& at_most_once(s.effects, EventView::HeatingEnded)
            &&& s.effects.len() > 0
            &&& s.effects.last() == EffectView::Event(
                EventView::Status { data: s.state.data_sensors },
            )
            &&& s.state.info_ready
            &&& s.state.old_status == status
        }),
{
    lemma_shot(v, data, now);
    lemma_shot_once(v, data, now, EventView::ShotStarted);
    lemma_shot_once(v, data, now, EventView::ShotEnded);
    lemma_shot_once(v, data, now, EventView::WentIdle);
    lemma_shot_once(v, data, now, EventView::HeatingStarted);
    lemma_shot_once(v, data, now, EventView::HeatingEnded);
}

/// Effects that publish an event of the given kind nowhere publish it at most
/// once.
proof fn lemma_once_where_absent(effects: Seq<EffectView>, event: EventView)
    requires
        !publishes(effects, event),
    ensures
        at_most_once(effects, event),
{
    assert forall|i: int, j: int| 0 <= i < j < effects.len() implies #[trigger] effects[i]
        != EffectView::Event(event) || #[trigger] effects[j] != EffectView::Event(event) by {
        if effects[i] == EffectView::Event(event) {
            assert(effects.contains(effects[i]));
        }
    }
}

/// A line with a datapoint that shows that the machine became idle, and no
/// other, says so, and then no profile is loaded; the beginning and the end of
/// heating are told exactly when the status changes to heating and away from
/// it. Each is told at most once.
#[verifier::rlimit(40)]
pub proof fn law_status_changes_are_told(v: ReaderView, raw: Seq<char>, now: int)
    requires
        v.wf(),
        line_message(raw) matches Some(MessageView::Shot(_)),
    ensures
        line_message(raw) matches Some(MessageView::Shot(data)) && ({
            let s = line_step(v, raw, now);
            let status = text_arg(data.status);
            &&& publishes(s.effects, EventView::WentIdle) <==> status == status::IDLE@
                && v.old_status != status
            &&& publishes(s.effects, EventView::WentIdle) ==> !s.state.profile_ready
            &&& publishes(s.effects, EventView::HeatingStarted) <==> status == status::HEATING@
                && v.old_status != status
            &&& publishes(s.effects, EventView::HeatingEnded) <==> v.old_status == status::HEATING@
                && v.old_status != status
            &&& at_most_once(s.effects, EventView::WentIdle)
            &&& at_most_once(s.effects, EventView::HeatingStarted)
            &&& at_most_once(s.effects, EventView::HeatingEnded)
        }),
{
    let a = prepare_step(v, raw);
    let b = message_step(a.state, line_message(raw), now);
    let c = health_step(b.state, is_valid_line(raw), now);
    lemma_line(v, raw, now);
    lemma_prepare(v, raw);
    lemma_message(a.state, line_message(raw), now);
    lemma_health(b.state, is_valid_line(raw), now);
    if let Some(MessageView::Shot(data)) = line_message(raw) {
        lemma_shot(a.state, data, now);
        law_datapoint_events(a.state, data, now);
        lemma_line_once(v, raw, now, EventView::WentIdle);
        lemma_line_once(v, raw, now, EventView::HeatingStarted);
        lemma_line_once(v, raw, now, EventView::HeatingEnded);
    }
}

/// What only the message of a line publishes, at most once, the line publishes
/// at most once.
proof fn lemma_line_once(v: ReaderView, raw: Seq<char>, now: int, event: EventView)
    requires
        v.consistent(),
        event is WentIdle || event is HeatingStarted || event is HeatingEnded || event
            is ShotStarted || event is ShotEnded,
        at_most_once(
            message_step(prepare_step(v, raw).state, line_message(raw), now).effects,
            event,
        ),
    ensures
        at_most_once(line_step(v, raw, now).effects, event),
{
    let a = prepare_step(v, raw);
    let b = message_step(a.state, line_message(raw), now);
    let c = health_step(b.state, is_valid_line(raw), now);
    reveal(line_step);
    lemma_line(v, raw, now);
    lemma_prepare(v, raw);
    lemma_health(b.state, is_valid_line(raw), now);
    lemma_once_where_absent(a.effects, event);
    lemma_once_where_absent(c.effects, event);
    lemma_append(a.effects, b.effects);
    lemma_once_append(a.effects, b.effects, event);
    lemma_once_append(a.effects + b.effects, c.effects, event);
}

// ---------------------------------------------------------------------------
// Profiles
// ---------------------------------------------------------------------------

/// Marking a profile twice is marking it once: the second call changes and
/// tells nothing.
pub proof fn law_marking_a_profile_is_idempotent(v: ReaderView, ready: bool)
    ensures
        ready_step(ready_step(v, ready).state, ready).state == ready_step(v, ready).state,
        ready_step(ready_step(v, ready).state, ready).effects == nothing(),
{
}

}
