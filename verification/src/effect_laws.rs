//! What each input of the read loop causes, in order, and nothing else.

use crate::command::action_frame;
use crate::events::{AlarmView, EventView};
use crate::message::{
    boot_banner, crash_marker, law_boot_banner_is_unrecognized, line_kind, line_message, LineKind,
    MessageView,
};
use crate::reader::{
    elapsed, extraction_step, health_step, heating_step, idle_step, is_valid_line, just,
    lemma_statuses_differ, line_step, message_step, nothing, prepare_step, ready_step, stamp_step,
    tick_step, EffectView, ReaderView,
};
use crate::reader_laws::{lemma_append, lemma_just, lemma_line, publishes};
use crate::record_laws::status_event;
use crate::shot::{text_arg, ShotView};
use crate::text::join;
use vstd::prelude::*;

verus! {

/// What the parts of a line around its message leave alone.
pub proof fn lemma_line_frame(v: ReaderView, raw: Seq<char>, now: int)
    ensures
        ({
            let a = prepare_step(v, raw).state;
            let b = message_step(a, line_message(raw), now).state;
            let c = line_step(v, raw, now).state;
            &&& a.time_flag == v.time_flag && c.time_flag == b.time_flag
            &&& a.shot_start_ms == v.shot_start_ms && c.shot_start_ms == b.shot_start_ms
            &&& a.time_passed_ms == v.time_passed_ms && c.time_passed_ms == b.time_passed_ms
            &&& a.profile_time_ms == v.profile_time_ms && c.profile_time_ms == b.profile_time_ms
            &&& a.stable_start_ms == v.stable_start_ms && c.stable_start_ms == b.stable_start_ms
            &&& a.data_sensors == v.data_sensors && c.data_sensors == b.data_sensors
            &&& a.sensors == v.sensors && c.sensors == b.sensors
            &&& a.old_status == v.old_status && c.old_status == b.old_status
            &&& c.esp_info == b.esp_info
            &&& c.info_ready == b.info_ready
            &&& c.profile_ready == b.profile_ready
            &&& c.info_requested == b.info_requested
            &&& a.esp_info == if boot_banner(raw) {
                None
            } else {
                v.esp_info
            }
            &&& a.info_ready == (v.info_ready && !boot_banner(raw))
            &&& a.profile_ready == (v.profile_ready && !boot_banner(raw))
        }),
{
    reveal(line_step);
}


// ---------------------------------------------------------------------------
// What is published
// ---------------------------------------------------------------------------

/// The event, where the condition holds.
pub open spec fn told(condition: bool, event: EventView) -> Seq<EffectView> {
    if condition {
        seq![EffectView::Event(event)]
    } else {
        Seq::<EffectView>::empty()
    }
}

/// What a boot banner tells, and the request for machine information.
pub open spec fn told_before(v: ReaderView, raw: Seq<char>) -> Seq<EffectView> {
    let banner = boot_banner(raw);
    let asks = !banner && v.info_ready && !v.info_requested && v.esp_info is None;
    told(banner && v.profile_ready, EventView::ProfileReadyChanged { ready: false }) + told(
        banner,
        EventView::BootBanner { reset_count: v.reset_count + 1 },
    ) + told(banner && v.reset_count == 2, EventView::FirmwareUpdateRequested) + if asks {
        seq![EffectView::Send(action_frame("info"@))]
    } else {
        Seq::<EffectView>::empty()
    }
}

/// What the message of a line tells: the course of the shot and the datapoint
/// as it is kept, or the payload as it came.
pub open spec fn told_message(
    v: ReaderView,
    message: Option<MessageView>,
    after: ReaderView,
) -> Seq<EffectView> {
    match message {
        None => Seq::<EffectView>::empty(),
        Some(MessageView::Shot(data)) => {
            let before = v.old_status;
            let status = match data.status {
                Some(t) => t,
                None => Seq::<char>::empty(),
            };
            let starts = before == "closing valve"@ && status != before;
            let idles = status == "idle"@ && status != before;
            told(starts, EventView::ShotStarted) + told(
                !starts && v.data_sensors.is_extracting && !after.data_sensors.is_extracting,
                EventView::ShotEnded,
            ) + told(
                idles && v.profile_ready,
                EventView::ProfileReadyChanged { ready: false },
            ) + told(idles, EventView::WentIdle) + told(
                status == "heating"@ && status != before,
                EventView::HeatingStarted,
            ) + told(before == "heating"@ && status != before, EventView::HeatingEnded) + told(
                true,
                EventView::Status { data: after.data_sensors },
            )
        },
        Some(MessageView::Sensors(data)) => told(true, EventView::Sensors { data }),
        Some(MessageView::Info(data)) => told(true, EventView::Info { data }),
        Some(MessageView::Button(data)) => told(true, EventView::Button { data }),
        Some(MessageView::Notify(data)) => told(true, EventView::Notify { data }),
        Some(MessageView::HeaterTimeout(data)) => told(true, EventView::HeaterTimeout { data }),
        Some(MessageView::Log(data)) => told(true, EventView::EspLog { data }),
    }
}

/// What a line tells of the alarms.
pub open spec fn told_alarms(v: ReaderView, raw: Seq<char>, now: int) -> Seq<EffectView> {
    let valid = !boot_banner(raw) && line_kind(raw) != LineKind::Unrecognized;
    let count = if boot_banner(raw) {
        (v.reset_count + 1) % 3
    } else {
        v.reset_count
    };
    let trace = if (v.collecting_trace && !boot_banner(raw)) || crash_marker(raw) {
        v.trace.push(raw)
    } else {
        v.trace
    };
    let quiet = valid || v.restart_requested;
    told(valid && (v.restart_alarm_set || v.disconnect_alarm_set), EventView::AlarmsCleared) + told(
        !quiet && count > 0 && !v.restart_alarm_set,
        EventView::AlarmRaised { alarm: AlarmView::EspRestart { trace: join(trace, '\n') } },
    ) + told(
        !quiet && now - v.last_valid_ms > 500 && !v.disconnect_alarm_set,
        EventView::AlarmRaised { alarm: AlarmView::EspDisconnected },
    )
}

/// Everything that a line causes, in order, and nothing else: what a banner
/// tells, the request for machine information, what the message tells, and
/// what becomes of the alarms.
#[verifier::spinoff_prover]
#[verifier::rlimit(60)]
pub proof fn law_effects_of_a_line(v: ReaderView, raw: Seq<char>, now: int)
    requires
        v.wf(),
    ensures
        line_step(v, raw, now).effects == told_before(v, raw) + told_message(
            v,
            line_message(raw),
            line_step(v, raw, now).state,
        ) + told_alarms(v, raw, now),
{
    let a = prepare_step(v, raw);
    let b = message_step(a.state, line_message(raw), now);
    let c = health_step(b.state, is_valid_line(raw), now);
    let s = line_step(v, raw, now);
    reveal(line_step);
    if boot_banner(raw) {
        law_boot_banner_is_unrecognized(raw);
    }
    lemma_line_frame(v, raw, now);
    assert(a.effects =~= told_before(v, raw));
    lemma_told_message(v, raw, now);
    crate::reader_laws::lemma_prepare(v, raw);
    crate::reader_laws::lemma_message(a.state, line_message(raw), now);
    assert(elapsed(now, v.last_valid_ms) > 500 <==> now - v.last_valid_ms > 500);
    lemma_told_alarms(v, raw, now);
}

/// Everything that a read without a line causes: the disconnect alarm, where no
/// valid line came for more than half a second, nobody asked for a restart and
/// the alarm is not up. Nothing but that alarm changes.
pub proof fn law_effects_of_a_tick(v: ReaderView, now: int)
    requires
        v.wf(),
    ensures
        tick_step(v, now).effects == told(
            now - v.last_valid_ms > 500 && !v.restart_requested && !v.disconnect_alarm_set,
            EventView::AlarmRaised { alarm: AlarmView::EspDisconnected },
        ),
        tick_step(v, now).state == (ReaderView {
            disconnect_alarm_set: v.disconnect_alarm_set || (now - v.last_valid_ms > 500
                && !v.restart_requested),
            ..v
        }),
{
    let s = tick_step(v, now);
    let raised = now - v.last_valid_ms > 500 && !v.restart_requested && !v.disconnect_alarm_set;
    assert(s.effects =~= told(
        raised,
        EventView::AlarmRaised { alarm: AlarmView::EspDisconnected },
    ));
    assert(s.state =~= (ReaderView {
        disconnect_alarm_set: v.disconnect_alarm_set || (now - v.last_valid_ms > 500
            && !v.restart_requested),
        ..v
    }));
}

/// Everything that marking a profile causes: the event, where that changes
/// something. Nothing but the mark changes.
pub proof fn law_effects_of_marking_a_profile(v: ReaderView, ready: bool)
    ensures
        ready_step(v, ready).effects == told(
            v.profile_ready != ready,
            EventView::ProfileReadyChanged { ready },
        ),
        ready_step(v, ready).state == (ReaderView { profile_ready: ready, ..v }),
{
}

/// The crash trace after a line: from a line with a crash marker on, up to a
/// boot banner, every line is added. The restart alarm takes the whole trace.
#[verifier::rlimit(40)]
pub proof fn law_trace_of_a_line(v: ReaderView, raw: Seq<char>, now: int)
    requires
        v.wf(),
    ensures
        ({
            let s = line_step(v, raw, now);
            let collects = (v.collecting_trace && !boot_banner(raw)) || crash_marker(raw);
            let trace = if collects {
                v.trace.push(raw)
            } else {
                v.trace
            };
            let raises = s.state.restart_alarm_set && !v.restart_alarm_set;
            &&& s.state.collecting_trace == collects
            &&& s.state.trace == if raises {
                Seq::<Seq<char>>::empty()
            } else {
                trace
            }
            &&& raises ==> publishes(
                s.effects,
                EventView::AlarmRaised {
                    alarm: AlarmView::EspRestart { trace: join(trace, '\n') },
                },
            )
        }),
{
    let a = prepare_step(v, raw).state;
    let b = message_step(a, line_message(raw), now).state;
    let s = line_step(v, raw, now);
    if boot_banner(raw) {
        law_boot_banner_is_unrecognized(raw);
    }
    crate::reader_laws::lemma_line(v, raw, now);
    crate::reader_laws::lemma_prepare(v, raw);
    crate::reader_laws::lemma_message(a, line_message(raw), now);
    crate::reader_laws::lemma_health(b, is_valid_line(raw), now);
    let trace = if (v.collecting_trace && !boot_banner(raw)) || crash_marker(raw) {
        v.trace.push(raw)
    } else {
        v.trace
    };
    assert(b.trace == trace);
    let event = crate::reader_laws::restart_event(join(trace, '\n'));
    assert(publishes(health_step(b, is_valid_line(raw), now).effects, event) || !(
    s.state.restart_alarm_set && !v.restart_alarm_set));
    assert(publishes(s.effects, event) || !(s.state.restart_alarm_set && !v.restart_alarm_set));
}

/// Machine information counts as asked for from the request on, until it comes
/// or the machine boots.
pub proof fn law_requests_of_a_line(v: ReaderView, raw: Seq<char>, now: int)
    requires
        v.wf(),
    ensures
        line_step(v, raw, now).state.info_requested <==> {
            &&& !boot_banner(raw)
            &&& !(line_message(raw) matches Some(MessageView::Info(_)))
            &&& v.info_requested || (v.info_ready && v.esp_info is None)
        },
{
    let a = prepare_step(v, raw).state;
    let b = message_step(a, line_message(raw), now).state;
    if boot_banner(raw) {
        law_boot_banner_is_unrecognized(raw);
    }
    lemma_line(v, raw, now);
    assert(a.info_requested == (!boot_banner(raw) && (v.info_requested || (v.info_ready
        && v.esp_info is None))));
    crate::reader_laws::lemma_message(a, line_message(raw), now);
    crate::reader_laws::lemma_health(b, is_valid_line(raw), now);
    if let Some(MessageView::Info(data)) = line_message(raw) {
        assert(!b.info_requested);
    }
}

/// What the message of a line tells.
#[verifier::spinoff_prover]
#[verifier::rlimit(60)]
proof fn lemma_told_message(v: ReaderView, raw: Seq<char>, now: int)
    requires
        v.wf(),
    ensures
        message_step(prepare_step(v, raw).state, line_message(raw), now).effects == told_message(
            v,
            line_message(raw),
            line_step(v, raw, now).state,
        ),
{
    let a = prepare_step(v, raw).state;
    let after = line_step(v, raw, now).state;
    lemma_line_frame(v, raw, now);
    if boot_banner(raw) {
        law_boot_banner_is_unrecognized(raw);
    }
    let goal = told_message(v, line_message(raw), after);
    if let Some(MessageView::Shot(data)) = line_message(raw) {
        let status = text_arg(data.status);
        let p = extraction_step(a, status, data.stable_weight, now);
        let q = idle_step(p.state, status);
        let r = heating_step(q.state, status);
        let t = stamp_step(r.state, data, now);
        lemma_statuses_differ();
        crate::reader::lemma_shot_step_consistent(a, data, now);
        assert(p.effects + q.effects + r.effects + t.effects =~= goal);
    } else {
        assert(message_step(a, line_message(raw), now).effects =~= goal);
    }
}

/// What a line tells of the alarms.
#[verifier::spinoff_prover]
#[verifier::rlimit(60)]
proof fn lemma_told_alarms(v: ReaderView, raw: Seq<char>, now: int)
    requires
        v.wf(),
    ensures
        health_step(
            message_step(prepare_step(v, raw).state, line_message(raw), now).state,
            is_valid_line(raw),
            now,
        ).effects == told_alarms(v, raw, now),
{
    let a = prepare_step(v, raw).state;
    let b = message_step(a, line_message(raw), now).state;
    if boot_banner(raw) {
        law_boot_banner_is_unrecognized(raw);
    }
    crate::reader_laws::lemma_prepare(v, raw);
    crate::reader_laws::lemma_message(a, line_message(raw), now);
    assert(b.trace == if (v.collecting_trace && !boot_banner(raw)) || crash_marker(raw) {
        v.trace.push(raw)
    } else {
        v.trace
    });
    assert(health_step(b, is_valid_line(raw), now).effects =~= told_alarms(v, raw, now));
}

/// No datapoint is among the effects.
pub open spec fn no_status(effects: Seq<EffectView>) -> bool {
    forall|d: ShotView| !publishes(effects, #[trigger] status_event(d))
}

/// One event that is no datapoint.
proof fn lemma_told_other(condition: bool, event: EventView)
    requires
        !(event is Status),
    ensures
        no_status(told(condition, event)),
{
    lemma_just(event);
    assert(told(condition, event) =~= if condition {
        just(event)
    } else {
        nothing()
    });
    assert forall|d: ShotView| !publishes(
        told(condition, event),
        #[trigger] status_event(d),
    ) by {
        assert(!publishes(just(event), status_event(d)));
        assert(!publishes(nothing(), status_event(d)));
    }
}

/// Lists without datapoints make up one.
proof fn lemma_no_status(a: Seq<EffectView>, b: Seq<EffectView>)
    requires
        no_status(a),
        no_status(b),
    ensures
        no_status(a + b),
{
    lemma_append(a, b);
    assert forall|d: ShotView| !publishes(a + b, #[trigger] status_event(d)) by {
        assert(!publishes(a, status_event(d)));
        assert(!publishes(b, status_event(d)));
    }
}

/// What a banner tells and the request for machine information are no
/// datapoints.
pub proof fn lemma_before_no_status(v: ReaderView, raw: Seq<char>)
    ensures
        no_status(told_before(v, raw)),
{
    let banner = boot_banner(raw);
    let x = told(banner && v.profile_ready, EventView::ProfileReadyChanged { ready: false });
    let y = told(banner, EventView::BootBanner { reset_count: v.reset_count + 1 });
    let z = told(banner && v.reset_count == 2, EventView::FirmwareUpdateRequested);
    let w = told_before(v, raw).skip((x + y + z).len() as int);
    lemma_told_other(
        banner && v.profile_ready,
        EventView::ProfileReadyChanged { ready: false },
    );
    lemma_told_other(banner, EventView::BootBanner { reset_count: v.reset_count + 1 });
    lemma_told_other(banner && v.reset_count == 2, EventView::FirmwareUpdateRequested);
    lemma_no_status(x, y);
    lemma_no_status(x + y, z);
    assert(told_before(v, raw) =~= x + y + z + w);
    assert(no_status(w)) by {
        assert forall|d: ShotView| !publishes(w, #[trigger] status_event(d)) by {
            if publishes(w, status_event(d)) {
                let i = choose|i: int|
                    0 <= i < w.len() && w[i] == EffectView::Event(status_event(d));
                assert(w[i] == EffectView::Send(action_frame("info"@)));
            }
        }
    }
    lemma_no_status(x + y + z, w);
}

/// What is told of the alarms are no datapoints.
pub proof fn lemma_alarms_no_status(v: ReaderView, raw: Seq<char>, now: int)
    ensures
        no_status(told_alarms(v, raw, now)),
{
    let all = told_alarms(v, raw, now);
    assert forall|d: ShotView| !publishes(all, #[trigger] status_event(d)) by {
        if publishes(all, status_event(d)) {
            let i = choose|i: int|
                0 <= i < all.len() && all[i] == EffectView::Event(status_event(d));
            assert(false);
        }
    }
}

/// What a datapoint tells of the course of the shot, before it is published.
pub open spec fn told_course(v: ReaderView, status: Seq<char>, still: bool) -> Seq<EffectView> {
    let before = v.old_status;
    let starts = before == "closing valve"@ && status != before;
    let idles = status == "idle"@ && status != before;
    told(starts, EventView::ShotStarted) + told(
        !starts && v.data_sensors.is_extracting && !still,
        EventView::ShotEnded,
    ) + told(idles && v.profile_ready, EventView::ProfileReadyChanged { ready: false }) + told(
        idles,
        EventView::WentIdle,
    ) + told(status == "heating"@ && status != before, EventView::HeatingStarted) + told(
        before == "heating"@ && status != before,
        EventView::HeatingEnded,
    )
}

/// What a datapoint tells of the course of the shot are no datapoints.
pub proof fn lemma_course_no_status(v: ReaderView, status: Seq<char>, still: bool)
    ensures
        no_status(told_course(v, status, still)),
{
    let all = told_course(v, status, still);
    assert forall|d: ShotView| !publishes(all, #[trigger] status_event(d)) by {
        if publishes(all, status_event(d)) {
            let i = choose|i: int|
                0 <= i < all.len() && all[i] == EffectView::Event(status_event(d));
            assert(false);
        }
    }
}

}
