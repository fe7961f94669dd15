//! The daemon between the port and its clients.

use met_core::command::EspAction;
use met_core::emulator::{EmulationData, EmulatorTransport};
use met_core::events::{Alarm, MachineEvent};
use met_core::json::Json;
use met_core::runtime::{Daemon, DaemonCommand, DaemonOptions, LoopEvent, Output};
use met_core::transport::ReadOutcome;

fn line(text: &str) -> ReadOutcome {
    ReadOutcome::Line(text.as_bytes().to_vec())
}

fn published(outputs: &[Output]) -> Vec<&MachineEvent> {
    outputs
        .iter()
        .filter_map(|o| match o {
            Output::Publish(event) => Some(event),
            _ => None,
        })
        .collect()
}

fn written(outputs: &[Output]) -> Vec<Vec<u8>> {
    outputs
        .iter()
        .filter_map(|o| match o {
            Output::Write(bytes) => Some(bytes.clone()),
            Output::WriteProfile { frame, .. } => Some(frame.clone()),
            _ => None,
        })
        .collect()
}

fn resets(outputs: &[Output]) -> Vec<bool> {
    outputs
        .iter()
        .filter_map(|o| match o {
            Output::Reset { bootloader } => Some(*bootloader),
            _ => None,
        })
        .collect()
}

fn profile() -> serde_json::Value {
    serde_json::from_str("{\"name\":\"parity\"}").unwrap()
}

#[test]
fn startup_wakes_the_chip() {
    assert_eq!(
        Daemon::startup_writes(),
        vec![
            b"32\n".to_vec(),
            b"\x03".to_vec(),
            b"action,info\x03".to_vec()
        ]
    );
    assert_eq!(DaemonOptions::default().alive_check_delay_secs, 60);
}

#[test]
fn start_without_profile_is_refused() {
    let mut daemon = Daemon::new();
    let outputs = daemon.on_command(DaemonCommand::Action(EspAction::Start));
    assert_eq!(published(&outputs), vec![&MachineEvent::ProfileRequired]);
    assert!(written(&outputs).is_empty());
    let outputs = daemon.on_command(DaemonCommand::Action(EspAction::Purge));
    assert_eq!(
        published(&outputs),
        vec![&MachineEvent::ProfileReadyChanged { ready: true }]
    );
    assert_eq!(written(&outputs), vec![b"action,purge\x03".to_vec()]);
    let outputs = daemon.on_command(DaemonCommand::Action(EspAction::Start));
    assert!(published(&outputs).is_empty());
    assert_eq!(written(&outputs), vec![b"action,start\x03".to_vec()]);
    // Homing tells nothing new now.
    let outputs = daemon.on_command(DaemonCommand::Action(EspAction::Home));
    assert!(published(&outputs).is_empty());
    assert_eq!(written(&outputs), vec![b"action,home\x03".to_vec()]);
}

#[test]
fn a_written_profile_is_loaded() {
    let mut daemon = Daemon::new();
    let outputs = daemon.on_command(DaemonCommand::SendProfile(profile()));
    assert!(published(&outputs).is_empty());
    assert!(!daemon.snapshot().profile_ready);
    let hash = match &outputs[..] {
        [Output::WriteProfile { frame, hash }] => {
            assert_eq!(
                frame,
                &b"hash,4d48a8609e2778855d2de253d7fb3e5d\x03json\n{\"name\":\"parity\"}\x03"
                    .to_vec()
            );
            hash.clone()
        }
        other => panic!("unexpected outputs {:?}", other),
    };
    assert_eq!(hash, "4d48a8609e2778855d2de253d7fb3e5d");
    let outputs = daemon.profile_written(hash.clone());
    assert_eq!(
        published(&outputs),
        vec![
            &MachineEvent::ProfileReadyChanged { ready: true },
            &MachineEvent::ProfileSent { hash: hash.clone() }
        ]
    );
    assert!(daemon.snapshot().profile_ready);
    let outputs = daemon.profile_written(hash.clone());
    assert_eq!(
        published(&outputs),
        vec![&MachineEvent::ProfileSent { hash }]
    );
}

#[test]
fn a_paused_daemon_writes_nothing() {
    let mut daemon = Daemon::new();
    assert!(daemon.on_command(DaemonCommand::Pause).is_empty());
    assert!(daemon.is_paused());
    for command in [
        DaemonCommand::Action(EspAction::Tare),
        DaemonCommand::Action(EspAction::Home),
        DaemonCommand::Action(EspAction::Start),
        DaemonCommand::SendProfile(profile()),
        DaemonCommand::WriteRaw(vec![1, 2]),
    ] {
        assert!(written(&daemon.on_command(command)).is_empty());
    }
    daemon.on_read(line("Data,1,2,3,U,4,idle,idle"), 1);
    let outputs = daemon.on_read(line("Data,1,2,3,U,4,idle,idle"), 2);
    assert!(written(&outputs).is_empty());
    assert!(!published(&outputs).is_empty());
    assert!(daemon.on_command(DaemonCommand::Resume).is_empty());
    assert!(!daemon.is_paused());
    assert_eq!(
        written(&daemon.on_command(DaemonCommand::WriteRaw(vec![1, 2]))),
        vec![vec![1, 2]]
    );
}

#[test]
fn the_port_is_handed_over_and_back() {
    let mut daemon = Daemon::new();
    let outputs = daemon.on_command(DaemonCommand::ReleasePort { bootloader: true });
    assert_eq!(resets(&outputs), vec![true]);
    assert_eq!(
        published(&outputs),
        vec![&MachineEvent::PortReleased { bootloader: true }]
    );
    assert!(daemon.is_paused());
    let outputs = daemon.on_command(DaemonCommand::AcquirePort);
    assert_eq!(published(&outputs), vec![&MachineEvent::PortResumed]);
    assert!(!daemon.is_paused());
    let outputs = daemon.on_command(DaemonCommand::ReleasePort { bootloader: false });
    assert!(resets(&outputs).is_empty());
    assert_eq!(
        published(&outputs),
        vec![&MachineEvent::PortReleased { bootloader: false }]
    );
}

#[test]
fn a_reset_forgets_the_profile() {
    let mut daemon = Daemon::new();
    daemon.on_command(DaemonCommand::Action(EspAction::Home));
    let outputs = daemon.on_command(DaemonCommand::Reset { bootloader: false });
    assert_eq!(resets(&outputs), vec![false]);
    assert!(published(&outputs).is_empty());
    let outputs = daemon.on_command(DaemonCommand::Action(EspAction::Start));
    assert_eq!(published(&outputs), vec![&MachineEvent::ProfileRequired]);
}

#[test]
fn lines_become_events_and_writes() {
    let mut daemon = Daemon::new();
    let outputs = daemon.on_read(line("Data,1,2,3,U,4,idle,idle\r\n"), 1);
    assert!(matches!(
        published(&outputs)[..],
        [MachineEvent::Status { .. }]
    ));
    let outputs = daemon.on_read(line("Data,1,2,3,U,4,idle,idle\r\n"), 2);
    assert_eq!(written(&outputs), vec![b"action,info\x03".to_vec()]);
    assert!(matches!(outputs[0], Output::Write(_)));
    assert!(daemon.snapshot().info_ready);
}

#[test]
fn undecodable_lines_are_dropped() {
    let mut daemon = Daemon::new();
    let before = daemon.snapshot();
    let outputs = daemon.on_read(ReadOutcome::Line(b"Data,\xff\xfe\r\n".to_vec()), 9000);
    assert!(outputs.is_empty());
    assert_eq!(daemon.snapshot(), before);
    // Text beyond ASCII is no obstacle.
    let outputs = daemon.on_read(line("Notify,info,caf\u{e9}"), 9001);
    assert!(matches!(
        published(&outputs)[..],
        [MachineEvent::Notify { data }] if data.message == "caf\u{e9}"
    ));
}

#[test]
fn timeouts_and_errors_run_the_healthcheck() {
    let alarm = MachineEvent::AlarmRaised {
        alarm: Alarm::EspDisconnected,
    };
    let mut daemon = Daemon::new();
    daemon.on_read(line("CW"), 0);
    assert!(daemon.on_read(ReadOutcome::Timeout, 500).is_empty());
    assert_eq!(
        published(&daemon.on_read(ReadOutcome::Timeout, 501)),
        vec![&alarm]
    );
    let mut daemon = Daemon::new();
    daemon.on_read(line("CW"), 0);
    assert_eq!(
        published(&daemon.on_read(ReadOutcome::Error("gone".to_string()), 501)),
        vec![&alarm]
    );
}

#[test]
fn the_alive_check_tells_a_silent_machine() {
    let mut daemon = Daemon::new();
    assert!(daemon.alive_check_due());
    assert_eq!(
        published(&daemon.on_alive_check()),
        vec![&MachineEvent::EspSilentAfterBoot]
    );
    assert!(!daemon.alive_check_due());
    assert!(daemon.on_alive_check().is_empty());
    let mut daemon = Daemon::new();
    daemon.on_read(line("Data,1,2,3,U,4,idle,idle"), 1);
    assert!(daemon.on_alive_check().is_empty());
}

#[test]
fn the_loop_serves_events_until_no_command_can_come() {
    let mut daemon = Daemon::new();
    let outputs = daemon.on_event(LoopEvent::AliveCheck);
    assert_eq!(published(&outputs), vec![&MachineEvent::EspSilentAfterBoot]);
    assert!(daemon.on_event(LoopEvent::AliveCheck).is_empty());
    let outputs = daemon.on_event(LoopEvent::Read {
        outcome: line("Data,1,2,3,U,4,idle,idle"),
        now_ms: 1,
    });
    assert_eq!(published(&outputs).len(), 1);
    let outputs = daemon.on_event(LoopEvent::Command(DaemonCommand::SendProfile(profile())));
    assert_eq!(written(&outputs).len(), 1);
    let outputs = daemon.on_event(LoopEvent::ProfileWritten {
        hash: "abc".to_string(),
    });
    assert_eq!(published(&outputs).len(), 2);
    let outputs = daemon.on_event(LoopEvent::Command(DaemonCommand::Action(EspAction::Start)));
    assert_eq!(written(&outputs), vec![b"action,start\x03".to_vec()]);
    assert!(!daemon.is_finished());
    assert!(daemon.on_event(LoopEvent::CommandsClosed).is_empty());
    assert!(daemon.is_finished());
    assert!(daemon
        .on_event(LoopEvent::Command(DaemonCommand::Action(EspAction::Stop)))
        .is_empty());
}

#[test]
fn an_emulated_machine_is_served() {
    let data = EmulationData::load(&Json::Null, &Json::Null, &Json::Null);
    let mut emulator = EmulatorTransport::new(data, 8000);
    let mut daemon = Daemon::new();
    for bytes in Daemon::startup_writes() {
        emulator.write(&bytes);
    }
    let mut now = 0;
    for _ in 0..20 {
        now += 1;
        let outputs = daemon.on_read(line(&emulator.next_line()), now);
        assert!(!published(&outputs)
            .iter()
            .any(|e| matches!(e, MachineEvent::AlarmRaised { .. })));
        for bytes in written(&outputs) {
            emulator.write(&bytes);
        }
    }
    let snapshot = daemon.snapshot();
    assert_eq!(snapshot.data_sensors.status.as_deref(), Some("idle"));
    assert!(!snapshot.data_sensors.is_extracting);
    assert!(snapshot.info_ready);
    assert!(snapshot.esp_info.is_none());
    assert!(snapshot.sensors.is_some());
}
