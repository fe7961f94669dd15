//! The read loop.

use met_core::events::{Alarm, MachineEvent};
use met_core::message::{is_boot_banner, parse_line, LineKind};
use met_core::reader::{Effect, ReaderState};
use met_core::shot::{MachineState, ShotData};

const BOOT: &str = "rst:0x1 (POWERON_RESET),boot:0x13 (SPI_FAST_FLASH_BOOT)";

fn data_line(status: &str, stable: bool) -> String {
    format!(
        "Data,1.0,0.5,10.0,{},92.0,{},profileX",
        if stable { "S" } else { "U" },
        status
    )
}

fn events(effects: &[Effect]) -> Vec<&MachineEvent> {
    effects
        .iter()
        .filter_map(|e| match e {
            Effect::Event(ev) => Some(ev),
            Effect::Send(_) => None,
        })
        .collect()
}

fn has_event(effects: &[Effect], pred: impl Fn(&MachineEvent) -> bool) -> bool {
    events(effects).into_iter().any(pred)
}

fn sends(effects: &[Effect]) -> usize {
    effects
        .iter()
        .filter(|e| matches!(e, Effect::Send(_)))
        .count()
}

fn status_of(effects: &[Effect]) -> ShotData {
    events(effects)
        .into_iter()
        .find_map(|e| match e {
            MachineEvent::Status { data } => Some(data.clone()),
            _ => None,
        })
        .unwrap()
}

#[test]
fn three_boot_banners_request_firmware_update() {
    let mut state = ReaderState::new(0);
    let e1 = state.handle_line(BOOT, 10);
    assert!(has_event(&e1, |e| matches!(
        e,
        MachineEvent::BootBanner { reset_count: 1 }
    )));
    let e2 = state.handle_line(BOOT, 20);
    assert!(!has_event(&e2, |e| matches!(
        e,
        MachineEvent::FirmwareUpdateRequested
    )));
    let e3 = state.handle_line(BOOT, 30);
    assert!(has_event(&e3, |e| matches!(
        e,
        MachineEvent::FirmwareUpdateRequested
    )));
    assert_eq!(state.snapshot().reset_count, 0);
}

#[test]
fn valid_message_clears_reset_count_and_restart_request() {
    let mut state = ReaderState::new(0);
    state.handle_line(BOOT, 10);
    assert_eq!(state.snapshot().reset_count, 1);
    state.handle_line(&data_line("idle", false), 20);
    assert_eq!(state.snapshot().reset_count, 0);
}

#[test]
fn restart_alarm_carries_crash_trace() {
    let mut state = ReaderState::new(0);
    state.handle_line(&data_line("idle", false), 5);
    state.handle_line("Guru Meditation Error: Core 1 panic'ed", 10);
    state.handle_line("Backtrace: 0x40081234:0x3ffb1234", 11);
    let effects = state.handle_line(BOOT, 12);
    let raised = events(&effects)
        .into_iter()
        .find_map(|e| match e {
            MachineEvent::AlarmRaised {
                alarm: Alarm::EspRestart { trace },
            } => Some(trace),
            _ => None,
        })
        .expect("restart alarm expected");
    assert!(raised.contains("Guru Meditation"));
    assert!(raised.contains("Backtrace"));
}

#[test]
fn startup_restart_request_suppresses_alarms() {
    let mut state = ReaderState::new(0);
    let effects = state.handle_line(BOOT, 10);
    assert!(!has_event(&effects, |e| matches!(
        e,
        MachineEvent::AlarmRaised { .. }
    )));
}

#[test]
fn silence_raises_disconnect_alarm_once() {
    let mut state = ReaderState::new(0);
    state.handle_line(&data_line("idle", false), 5);
    let effects = state.tick(600);
    assert!(has_event(&effects, |e| matches!(
        e,
        MachineEvent::AlarmRaised {
            alarm: Alarm::EspDisconnected
        }
    )));
    assert!(state.tick(700).is_empty(), "alarm must not repeat");
    let effects = state.handle_line(&data_line("idle", false), 800);
    assert!(has_event(&effects, |e| matches!(
        e,
        MachineEvent::AlarmsCleared
    )));
}

#[test]
fn info_is_requested_once_after_first_data() {
    let mut state = ReaderState::new(0);
    let first = state.handle_line(&data_line("idle", false), 5);
    assert!(!first.iter().any(|e| matches!(e, Effect::Send(_))));
    let second = state.handle_line(&data_line("idle", false), 10);
    let sends: Vec<_> = second
        .iter()
        .filter(|e| matches!(e, Effect::Send(_)))
        .collect();
    assert_eq!(sends, vec![&Effect::Send(b"action,info\x03".to_vec())]);
    let third = state.handle_line(&data_line("idle", false), 15);
    assert!(!third.iter().any(|e| matches!(e, Effect::Send(_))));
}

#[test]
fn shot_lifecycle_start_to_stable_end() {
    let mut state = ReaderState::new(0);
    state.handle_line(&data_line("idle", false), 0);
    state.handle_line(&data_line("heating", false), 100);
    state.handle_line(&data_line("closing valve", false), 200);
    let started = state.handle_line(&data_line("brewing", false), 300);
    assert!(has_event(&started, |e| matches!(
        e,
        MachineEvent::ShotStarted
    )));

    let during = state.handle_line(&data_line("brewing", false), 1300);
    let stamped = events(&during)
        .into_iter()
        .find_map(|e| match e {
            MachineEvent::Status { data } => Some(data.clone()),
            _ => None,
        })
        .unwrap();
    assert!(stamped.is_extracting);
    assert_eq!(stamped.time, 1000);

    state.handle_line(&data_line("retracting", true), 2000);
    let ended = state.handle_line(&data_line("retracting", true), 4100);
    assert!(has_event(&ended, |e| matches!(e, MachineEvent::ShotEnded)));

    let idle = state.handle_line(&data_line("idle", false), 4200);
    assert!(has_event(&idle, |e| matches!(e, MachineEvent::WentIdle)));
    assert!(!state.profile_ready());
}

#[test]
fn shot_ends_when_leaving_retract() {
    let mut state = ReaderState::new(0);
    state.handle_line(&data_line("closing valve", false), 0);
    state.handle_line(&data_line("brewing", false), 100);
    state.handle_line(&data_line("retracting", false), 200);
    let ended = state.handle_line(&data_line("home", false), 300);
    assert!(has_event(&ended, |e| matches!(e, MachineEvent::ShotEnded)));
}

#[test]
fn heating_transitions_emit_events_and_reset_timers() {
    let mut state = ReaderState::new(0);
    state.handle_line(&data_line("idle", false), 0);
    let heat = state.handle_line(&data_line("heating", false), 100);
    assert!(has_event(&heat, |e| matches!(
        e,
        MachineEvent::HeatingStarted
    )));
    let cooled = state.handle_line(&data_line("idle", false), 200);
    assert!(has_event(&cooled, |e| matches!(
        e,
        MachineEvent::HeatingEnded
    )));
}

#[test]
fn between_two_ends_a_shot_starts() {
    let mut state = ReaderState::new(0);
    let mut told = Vec::new();
    let course = [
        ("closing valve", false),
        ("retracting", true),
        ("retracting", true),
        ("retracting", true),
        ("retracting", true),
        ("idle", false),
        ("closing valve", false),
        ("brewing", false),
        ("purge", false),
        ("idle", false),
    ];
    for (i, (status, stable)) in course.iter().enumerate() {
        let effects = state.handle_line(&data_line(status, *stable), 1000 * i as u64);
        for event in events(&effects) {
            match event {
                MachineEvent::ShotStarted => told.push(("started", i)),
                MachineEvent::ShotEnded => told.push(("ended", i)),
                _ => {}
            }
        }
        assert!(matches!(
            effects.iter().rev().find(|e| matches!(e, Effect::Event(_))),
            Some(Effect::Event(MachineEvent::Status { .. }))
        ));
    }
    // The datapoint that starts the shot does not count as stable.
    assert_eq!(
        told,
        vec![("started", 1), ("ended", 4), ("started", 7), ("ended", 8)]
    );
}

#[test]
fn a_tick_raises_the_disconnect_alarm_alone() {
    let mut state = ReaderState::new(0);
    state.handle_line(&data_line("idle", false), 5);
    state.handle_line(BOOT, 10);
    let effects = state.tick(600);
    assert_eq!(
        events(&effects),
        vec![&MachineEvent::AlarmRaised {
            alarm: Alarm::EspDisconnected
        }]
    );
    assert_eq!(effects.len(), 1);
}

#[test]
fn a_fresh_machine_is_idle() {
    let state = ReaderState::new(7);
    let snapshot = state.snapshot();
    assert_eq!(snapshot.data_sensors.status.as_deref(), Some("idle"));
    assert_eq!(snapshot.data_sensors.profile.as_deref(), Some("idle"));
    assert_eq!(snapshot.data_sensors.time, -1);
    assert_eq!(snapshot.data_sensors.profile_time, -1);
    assert_eq!(snapshot.data_sensors.state, MachineState::Idle);
    assert!(snapshot.sensors.is_none());
    assert!(snapshot.esp_info.is_none());
    assert!(!snapshot.info_ready);
    assert!(!snapshot.profile_ready);
    assert_eq!(snapshot.reset_count, 0);
}

#[test]
fn the_restart_alarm_is_not_repeated() {
    let mut state = ReaderState::new(0);
    state.handle_line(&data_line("idle", false), 3);
    let first = state.handle_line(BOOT, 4);
    assert!(has_event(&first, |e| matches!(
        e,
        MachineEvent::AlarmRaised {
            alarm: Alarm::EspRestart { .. }
        }
    )));
    let second = state.handle_line(BOOT, 5);
    assert!(!has_event(&second, |e| matches!(
        e,
        MachineEvent::AlarmRaised { .. }
    )));
}

#[test]
fn a_requested_restart_ends_with_the_first_valid_line() {
    let mut state = ReaderState::new(0);
    assert!(state.tick(10_000).is_empty());
    assert!(!has_event(&state.handle_line("garbage", 10_100), |e| matches!(
        e,
        MachineEvent::AlarmRaised { .. }
    )));
    state.handle_line("Log,info,hello", 10_200);
    assert!(state.tick(10_700).is_empty());
    assert_eq!(state.tick(10_701).len(), 1);
    state.note_reset_requested();
    assert!(!state.info_ready());
    assert!(!state.profile_ready());
    assert!(state.tick(20_000).is_empty());
}

#[test]
fn silence_is_measured_from_the_last_valid_line() {
    let mut state = ReaderState::new(0);
    state.handle_line("CW", 100);
    assert!(state.tick(600).is_empty());
    // An unrecognized line does not count as a sign of life.
    let effects = state.handle_line("noise", 601);
    assert_eq!(
        effects,
        vec![Effect::Event(MachineEvent::AlarmRaised {
            alarm: Alarm::EspDisconnected
        })]
    );
}

#[test]
fn a_malformed_payload_of_a_known_family_is_a_sign_of_life() {
    let mut state = ReaderState::new(0);
    assert!(state.handle_line("Sensors,1,2,3", 400).is_empty());
    assert!(state.tick(900).is_empty());
    assert_eq!(state.tick(901).len(), 1);
}

#[test]
fn a_crash_trace_is_joined_in_order_and_taken_once() {
    let mut state = ReaderState::new(0);
    state.handle_line(&data_line("idle", false), 5);
    state.handle_line("Register dump:", 10);
    state.handle_line("PC: 0x400d", 11);
    let effects = state.handle_line(BOOT, 12);
    assert!(has_event(&effects, |e| *e
        == MachineEvent::AlarmRaised {
            alarm: Alarm::EspRestart {
                trace: "Register dump:\nPC: 0x400d".to_string()
            }
        }));
    // After the reboot the trace starts over.
    state.handle_line(&data_line("idle", false), 20);
    let effects = state.handle_line(BOOT, 21);
    assert!(has_event(&effects, |e| *e
        == MachineEvent::AlarmRaised {
            alarm: Alarm::EspRestart {
                trace: String::new()
            }
        }));
}

#[test]
fn a_banner_forgets_what_the_machine_said() {
    let mut state = ReaderState::new(0);
    state.handle_line("ESPInfo,1.2.3,4,230.0", 1);
    assert!(state.info_ready());
    assert!(state.snapshot().esp_info.is_some());
    assert_eq!(
        state.set_profile_ready(true),
        vec![Effect::Event(MachineEvent::ProfileReadyChanged {
            ready: true
        })]
    );
    let effects = state.handle_line(BOOT, 2);
    assert_eq!(
        effects[0],
        Effect::Event(MachineEvent::ProfileReadyChanged { ready: false })
    );
    assert_eq!(
        effects[1],
        Effect::Event(MachineEvent::BootBanner { reset_count: 1 })
    );
    assert!(!state.info_ready());
    assert!(!state.profile_ready());
    assert!(state.snapshot().esp_info.is_none());
}

#[test]
fn information_is_asked_for_again_after_a_reboot() {
    let mut state = ReaderState::new(0);
    state.handle_line(&data_line("idle", false), 1);
    assert_eq!(sends(&state.handle_line(&data_line("idle", false), 2)), 1);
    state.handle_line("ESPInfo,1.2.3,4,230.0", 3);
    assert_eq!(sends(&state.handle_line(&data_line("idle", false), 4)), 0);
    state.handle_line(BOOT, 5);
    assert_eq!(sends(&state.handle_line(&data_line("idle", false), 6)), 0);
    assert_eq!(sends(&state.handle_line(&data_line("idle", false), 7)), 1);
}

#[test]
fn marking_a_profile_twice_tells_once() {
    let mut state = ReaderState::new(0);
    assert!(state.set_profile_ready(false).is_empty());
    assert_eq!(state.set_profile_ready(true).len(), 1);
    assert!(state.set_profile_ready(true).is_empty());
    assert!(state.profile_ready());
    assert!(state.snapshot().profile_ready);
}

#[test]
fn an_unstable_weight_restarts_the_stable_window() {
    let mut state = ReaderState::new(0);
    state.handle_line(&data_line("closing valve", false), 0);
    state.handle_line(&data_line("brewing", false), 100);
    state.handle_line(&data_line("retracting", true), 1000);
    state.handle_line(&data_line("retracting", false), 2000);
    let still = state.handle_line(&data_line("retracting", true), 3500);
    assert!(!has_event(&still, |e| matches!(e, MachineEvent::ShotEnded)));
    let still = state.handle_line(&data_line("retracting", true), 5499);
    assert!(!has_event(&still, |e| matches!(e, MachineEvent::ShotEnded)));
    let ended = state.handle_line(&data_line("retracting", true), 5500);
    assert!(has_event(&ended, |e| matches!(e, MachineEvent::ShotEnded)));
    assert!(!status_of(&ended).is_extracting);
}

#[test]
fn a_purge_ends_a_shot() {
    let mut state = ReaderState::new(0);
    state.handle_line(&data_line("closing valve", false), 0);
    state.handle_line(&data_line("brewing", false), 50);
    let ended = state.handle_line(&data_line("purge", false), 60);
    assert!(has_event(&ended, |e| matches!(e, MachineEvent::ShotEnded)));
}

#[test]
fn shot_time_stays_after_the_end_and_restarts_with_heating() {
    let mut state = ReaderState::new(0);
    state.handle_line(&data_line("closing valve", false), 0);
    state.handle_line(&data_line("brewing", false), 1000);
    state.handle_line(&data_line("brewing", false), 4000);
    let idle = state.handle_line(&data_line("idle", false), 5000);
    assert_eq!(status_of(&idle).time, 3000);
    assert_eq!(status_of(&idle).profile_time, 3000);
    let heating = state.handle_line(&data_line("heating", false), 6000);
    assert_eq!(status_of(&heating).time, 0);
    assert_eq!(status_of(&heating).profile_time, 0);
}

#[test]
fn a_clock_that_runs_backwards_counts_as_no_time() {
    let mut state = ReaderState::new(1000);
    state.handle_line(&data_line("closing valve", false), 1000);
    state.handle_line(&data_line("brewing", false), 2000);
    let effects = state.handle_line(&data_line("brewing", false), 1500);
    assert_eq!(status_of(&effects).time, 0);
    assert!(state.tick(0).is_empty());
}

#[test]
fn shot_time_is_capped() {
    let mut state = ReaderState::new(0);
    state.handle_line(&data_line("closing valve", false), 0);
    state.handle_line(&data_line("brewing", false), 0);
    let effects = state.handle_line(&data_line("brewing", false), u64::MAX);
    assert_eq!(status_of(&effects).time, i64::MAX);
}

#[test]
fn becoming_idle_drops_the_profile() {
    let mut state = ReaderState::new(0);
    state.handle_line("ESPInfo,1.2.3,4,230.0", 0);
    state.set_profile_ready(true);
    state.handle_line(&data_line("purge", false), 1);
    let effects = state.handle_line(&data_line("idle", false), 2);
    assert_eq!(
        effects[0],
        Effect::Event(MachineEvent::ProfileReadyChanged { ready: false })
    );
    assert_eq!(effects[1], Effect::Event(MachineEvent::WentIdle));
    assert!(!state.profile_ready());
    // Staying idle tells nothing more.
    let effects = state.handle_line(&data_line("idle", false), 3);
    assert!(!has_event(&effects, |e| matches!(e, MachineEvent::WentIdle)));
}

#[test]
fn other_messages_become_events() {
    let mut state = ReaderState::new(0);
    assert!(has_event(&state.handle_line("Event,push,12", 1), |e| {
        matches!(e, MachineEvent::Button { data } if data.time_since_last_event == 12)
    }));
    assert!(has_event(&state.handle_line("Notify,info,a;b", 1), |e| {
        matches!(e, MachineEvent::Notify { data } if data.message == "a\nb")
    }));
    assert!(has_event(
        &state.handle_line("HeaterTimeoutInfo,1,2,3,4", 1),
        |e| matches!(e, MachineEvent::HeaterTimeout { .. })
    ));
    assert!(has_event(&state.handle_line("Log,error,boom", 1), |e| {
        matches!(e, MachineEvent::EspLog { data } if data.send_to_sentry)
    }));
}

#[test]
fn the_boot_banner_is_no_message() {
    assert!(is_boot_banner(BOOT));
    assert_eq!(parse_line(BOOT).kind, LineKind::Unrecognized);
    assert!(!is_boot_banner(" rst:0x1 boot:0x13 (SPI_FAST_FLASH_BOOT)"));
    assert!(!is_boot_banner("rst:0x1 boot:0x13(SPI_FAST_FLASH_BOOT)"));
    assert!(!is_boot_banner("rst:0x1 (SPI_FAST_FLASH_BOOT)"));
    assert!(is_boot_banner("rst:0xboot:0x (SPI_FAST_FLASH_BOOT)\r\n"));
}
