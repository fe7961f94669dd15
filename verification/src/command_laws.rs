//! What the daemon does for each command, each read and the alive check.

use crate::command::{json_text, md5_digest, EspAction};
use crate::encoding::hex_text;
use crate::events::EventView;
use crate::reader::{line_step, tick_step, EffectView, ReaderView};
use crate::runtime::{
    alive_step, command_step, daemon_after, effect_outputs, loop_step, profile_step, read_step,
    startup_outputs, DaemonCommand, DaemonView, LoopEvent, OutputView,
};
use crate::transport::OutcomeView;
use vstd::prelude::*;
use vstd::utf8::{decode_utf8, encode_utf8, valid_utf8};

verus! {

/// The name of each action on the wire.
pub open spec fn action_word(action: EspAction) -> Seq<char> {
    match action {
        EspAction::Start => "start"@,
        EspAction::Stop => "stop"@,
        EspAction::Tare => "tare"@,
        EspAction::ScaleMasterCalibration => "scale_master_calibration"@,
        EspAction::Preheat => "preheat"@,
        EspAction::Continue => "continue"@,
        EspAction::Home => "home"@,
        EspAction::Purge => "purge"@,
        EspAction::Info => "info"@,
    }
}

/// Something is written to the port.
pub open spec fn is_write(output: OutputView) -> bool {
    output is Write || output is WriteProfile
}

/// Every action reaches the machine: unless the port is not used, or the
/// action is a start without a profile, its frame is the last thing that is
/// done, and the only thing that is written.
pub proof fn law_actions_reach_the_machine(v: DaemonView, action: EspAction)
    requires
        !v.paused,
        !(action == EspAction::Start && !v.state.profile_ready),
    ensures
        ({
            let s = command_step(v, DaemonCommand::Action(action));
            let n = s.outputs.len() as int;
            &&& n > 0
            &&& s.outputs[n - 1] == OutputView::Write(
                encode_utf8("action,"@ + action_word(action)).push(0x03),
            )
            &&& forall|i: int| 0 <= i < n - 1 ==> !is_write(#[trigger] s.outputs[i])
        }),
{
    reveal_with_fuel(effect_outputs, 2);
}

/// An action changes nothing but that homing and purging stand in for a
/// profile, which is told where none was loaded; a start without a profile
/// asks for one and does nothing else.
pub proof fn law_actions_change_the_profile_alone(v: DaemonView, action: EspAction)
    ensures
        ({
            let s = command_step(v, DaemonCommand::Action(action));
            let stands_in = action == EspAction::Home || action == EspAction::Purge;
            let told = stands_in && !v.state.profile_ready;
            let refused = action == EspAction::Start && !v.state.profile_ready;
            &&& s.daemon == (DaemonView {
                state: ReaderView { profile_ready: v.state.profile_ready || stands_in, ..v.state },
                ..v
            })
            &&& refused ==> s.outputs == seq![OutputView::Publish(EventView::ProfileRequired)]
            &&& !refused ==> s.outputs.len() == (if told {
                1int
            } else {
                0
            }) + if v.paused {
                0int
            } else {
                1
            }
            &&& told ==> s.outputs[0] == OutputView::Publish(
                EventView::ProfileReadyChanged { ready: true },
            )
        }),
{
    reveal_with_fuel(effect_outputs, 2);
    let s = command_step(v, DaemonCommand::Action(action));
    let stands_in = action == EspAction::Home || action == EspAction::Purge;
    assert(s.daemon.state =~= (ReaderView {
        profile_ready: v.state.profile_ready || stands_in,
        ..v.state
    }));
}

/// A profile is written as its hash and its JSON text, unless the port is not
/// used; the hash is the MD5 digest of the text in hexadecimal digits. Nothing
/// else is done, and the profile does not count as loaded before it was
/// written.
pub proof fn law_profiles_are_written_with_their_hash(v: DaemonView, json: serde_json::Value)
    ensures
        ({
            let s = command_step(v, DaemonCommand::SendProfile(json));
            let text = json_text(json);
            let hash = hex_text(md5_digest(encode_utf8(text)));
            &&& s.daemon == v
            &&& v.paused ==> s.outputs.len() == 0
            &&& !v.paused ==> s.outputs == seq![
                OutputView::WriteProfile {
                    frame: encode_utf8("hash,"@ + hash).push(0x03) + encode_utf8(
                        "json\n"@ + text,
                    ).push(0x03),
                    hash,
                },
            ]
        }),
{
}

/// Once a profile was written it counts as loaded, and its hash is told; the
/// change is told before, where none was loaded. Nothing else changes.
pub proof fn law_written_profiles_are_loaded(v: DaemonView, hash: Seq<char>)
    ensures
        ({
            let s = profile_step(v, hash);
            let sent = OutputView::Publish(EventView::ProfileSent { hash });
            &&& s.daemon == (DaemonView {
                state: ReaderView { profile_ready: true, ..v.state },
                ..v
            })
            &&& v.state.profile_ready ==> s.outputs == seq![sent]
            &&& !v.state.profile_ready ==> s.outputs == seq![
                OutputView::Publish(EventView::ProfileReadyChanged { ready: true }),
                sent,
            ]
        }),
{
    reveal_with_fuel(effect_outputs, 2);
    let s = profile_step(v, hash);
    assert(s.daemon.state =~= (ReaderView { profile_ready: true, ..v.state }));
    let sent = OutputView::Publish(EventView::ProfileSent { hash });
    if v.state.profile_ready {
        assert(s.outputs =~= seq![sent]);
    } else {
        assert(s.outputs =~= seq![
            OutputView::Publish(EventView::ProfileReadyChanged { ready: true }),
            sent,
        ]);
    }
}

/// Raw bytes are written as they are, unless the port is not used.
pub proof fn law_raw_bytes_are_written(v: DaemonView, bytes: Vec<u8>)
    ensures
        ({
            let s = command_step(v, DaemonCommand::WriteRaw(bytes));
            &&& s.daemon == v
            &&& v.paused ==> s.outputs.len() == 0
            &&& !v.paused ==> s.outputs == seq![OutputView::Write(bytes@)]
        }),
{
}

/// What a requested reset leaves of the state: alarms stay down until the
/// machine talks again, and neither machine nor profile count as ready.
pub open spec fn after_reset(v: ReaderView) -> ReaderView {
    ReaderView { restart_requested: true, info_ready: false, profile_ready: false, ..v }
}

/// A reset, and the handover of the port. A reset resets into the requested
/// mode and is no reason for an alarm. Handing the port over for flashing
/// resets into the bootloader first, where that is asked for, tells that the
/// port is released and stops using it; taking it back tells that and uses it
/// again. Pausing and resuming do the same in silence.
pub proof fn law_ports_and_resets(v: DaemonView, bootloader: bool)
    ensures
        ({
            let s = command_step(v, DaemonCommand::Reset { bootloader });
            &&& s.daemon == (DaemonView { state: after_reset(v.state), ..v })
            &&& s.outputs == seq![OutputView::Reset { bootloader }]
        }),
        ({
            let s = command_step(v, DaemonCommand::ReleasePort { bootloader });
            let released = OutputView::Publish(EventView::PortReleased { bootloader });
            &&& bootloader ==> s.daemon == (DaemonView {
                state: after_reset(v.state),
                paused: true,
                ..v
            }) && s.outputs == seq![OutputView::Reset { bootloader: true }, released]
            &&& !bootloader ==> s.daemon == (DaemonView { paused: true, ..v }) && s.outputs == seq![
                released,
            ]
        }),
        ({
            let s = command_step(v, DaemonCommand::AcquirePort);
            &&& s.daemon == (DaemonView { paused: false, ..v })
            &&& s.outputs == seq![OutputView::Publish(EventView::PortResumed)]
        }),
        command_step(v, DaemonCommand::Pause).daemon == (DaemonView { paused: true, ..v }),
        command_step(v, DaemonCommand::Pause).outputs.len() == 0,
        command_step(v, DaemonCommand::Resume).daemon == (DaemonView { paused: false, ..v }),
        command_step(v, DaemonCommand::Resume).outputs.len() == 0,
{
    assert(crate::reader::reset_noted(v.state) =~= after_reset(v.state));
}

/// The event stops the use of the port.
pub open spec fn stops_port(event: LoopEvent) -> bool {
    event matches LoopEvent::Command(command) && (command is Pause || command is ReleasePort)
}

/// The event makes the port used again.
pub open spec fn uses_port(event: LoopEvent) -> bool {
    event matches LoopEvent::Command(command) && (command is Resume || command is AcquirePort)
}

/// The port is not used exactly where it was stopped and not taken back since,
/// as long as commands can come.
pub proof fn law_the_port_is_unused_exactly_while_stopped(events: Seq<LoopEvent>)
    requires
        forall|i: int| 0 <= i < events.len() ==> !(#[trigger] events[i] is CommandsClosed),
    ensures
        !daemon_after(events).finished,
        daemon_after(events).paused <==> exists|i: int|
            0 <= i < events.len() && stops_port(#[trigger] events[i]) && forall|j: int|
                i < j < events.len() ==> !uses_port(#[trigger] events[j]),
    decreases events.len(),
{
    if events.len() > 0 {
        let before = events.drop_last();
        let n = before.len() as int;
        let v = daemon_after(before);
        assert forall|i: int| 0 <= i < n implies !(#[trigger] before[i] is CommandsClosed) by {
            assert(before[i] == events[i]);
        }
        law_the_port_is_unused_exactly_while_stopped(before);
        let after = daemon_after(events);
        assert(events[n] == events.last());
        lemma_port_step(v, events[n]);
        if after.paused && !stops_port(events[n]) {
            let i = choose|i: int|
                0 <= i < n && stops_port(#[trigger] before[i]) && forall|j: int|
                    i < j < n ==> !uses_port(#[trigger] before[j]);
            assert(stops_port(events[i]));
            assert forall|j: int| i < j < events.len() implies !uses_port(#[trigger] events[j]) by {
                if j < n {
                    assert(!uses_port(before[j]));
                }
            }
        }
        if exists|i: int|
            0 <= i < events.len() && stops_port(#[trigger] events[i]) && forall|j: int|
                i < j < events.len() ==> !uses_port(#[trigger] events[j]) {
            let i = choose|i: int|
                0 <= i < events.len() && stops_port(#[trigger] events[i]) && forall|j: int|
                    i < j < events.len() ==> !uses_port(#[trigger] events[j]);
            if i < n {
                assert(!uses_port(events[n]));
                assert(stops_port(before[i]));
                assert forall|j: int| i < j < n implies !uses_port(#[trigger] before[j]) by {
                    assert(!uses_port(events[j]));
                }
            }
        }
    }
}

/// What one event does to the use of the port.
proof fn lemma_port_step(v: DaemonView, event: LoopEvent)
    requires
        !v.finished,
        !(event is CommandsClosed),
    ensures
        loop_step(v, event).daemon.paused == (stops_port(event) || (v.paused && !uses_port(event))),
        !loop_step(v, event).daemon.finished,
        !(stops_port(event) && uses_port(event)),
{
}

/// What the read loop causes is done, each thing once and in order, as long as
/// the port is used: bytes are written and events are published.
pub proof fn law_effects_are_performed(effects: Seq<EffectView>)
    ensures
        effect_outputs(effects, false).len() == effects.len(),
        forall|i: int|
            0 <= i < effects.len() ==> #[trigger] effect_outputs(effects, false)[i] == (
            match effects[i] {
                EffectView::Send(bytes) => OutputView::Write(bytes),
                EffectView::Event(event) => OutputView::Publish(event),
            }),
    decreases effects.len(),
{
    if effects.len() > 0 {
        let before = effects.drop_last();
        law_effects_are_performed(before);
        assert forall|i: int| 0 <= i < effects.len() implies #[trigger] effect_outputs(
            effects,
            false,
        )[i] == (match effects[i] {
            EffectView::Send(bytes) => OutputView::Write(bytes),
            EffectView::Event(event) => OutputView::Publish(event),
        }) by {
            if i < before.len() {
                assert(effect_outputs(effects, false)[i] == effect_outputs(before, false)[i]);
                assert(before[i] == effects[i]);
            }
        }
    }
}

/// A line that is text is fed to the read loop, a read that timed out or failed
/// is a tick, and what they cause is done. Nothing else of the daemon changes.
pub proof fn law_reads_feed_the_read_loop(v: DaemonView, outcome: OutcomeView, now: int)
    ensures
        ({
            let s = read_step(v, outcome, now);
            &&& s.daemon == (DaemonView { state: s.daemon.state, ..v })
            &&& outcome matches OutcomeView::Line(bytes) ==> valid_utf8(bytes) ==> {
                let step = line_step(v.state, decode_utf8(bytes), now);
                s.daemon.state == step.state && s.outputs == effect_outputs(step.effects, v.paused)
            }
            &&& !(outcome is Line) ==> {
                let step = tick_step(v.state, now);
                s.daemon.state == step.state && s.outputs == effect_outputs(step.effects, v.paused)
            }
        }),
{
}

/// The alive check tells that the machine is silent exactly where it has not
/// run before and the machine has not talked; nothing else changes.
pub proof fn law_the_alive_check(v: DaemonView)
    ensures
        alive_step(v).daemon == (DaemonView { alive_checked: true, ..v }),
        v.alive_checked || v.state.info_ready ==> alive_step(v).outputs.len() == 0,
        !v.alive_checked && !v.state.info_ready ==> alive_step(v).outputs == seq![
            OutputView::Publish(EventView::EspSilentAfterBoot),
        ],
{
}

/// Each event of the loop is served as what it is, until no command can come.
pub proof fn law_the_loop_serves_each_event(v: DaemonView, event: LoopEvent)
    requires
        !v.finished,
    ensures
        event matches LoopEvent::Command(command) ==> loop_step(v, event) == command_step(
            v,
            command,
        ),
        event matches LoopEvent::Read { outcome, now_ms } ==> loop_step(v, event) == read_step(
            v,
            outcome@,
            now_ms as int,
        ),
        event is AliveCheck ==> loop_step(v, event) == alive_step(v),
        event matches LoopEvent::ProfileWritten { hash } ==> loop_step(v, event) == profile_step(
            v,
            hash@,
        ),
        event is CommandsClosed ==> loop_step(v, event).outputs.len() == 0 && loop_step(
            v,
            event,
        ).daemon == (DaemonView { finished: true, ..v }),
        startup_outputs() == seq![
            OutputView::Write(seq![0x33u8, 0x32u8, 0x0au8]),
            OutputView::Write(seq![0x03u8]),
            OutputView::Write(encode_utf8("action,"@ + "info"@).push(0x03)),
        ],
{
    assert(startup_outputs() =~= seq![
        OutputView::Write(seq![0x33u8, 0x32u8, 0x0au8]),
        OutputView::Write(seq![0x03u8]),
        OutputView::Write(encode_utf8("action,"@ + "info"@).push(0x03)),
    ]);
}

}
