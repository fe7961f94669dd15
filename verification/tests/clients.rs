//! The wire contract with clients, and the debug console.

use met_core::command::EspAction;
use met_core::config::{
    alive_check_seconds, backend, configured_or, default_backend, default_device, emulation_speed,
    read_console, Backend, ConsoleInput, DEFAULT_EMULATION_DIR,
};
use met_core::encoding::hex_encode;
use met_core::events::MachineEvent;
use met_core::protocol::{hex_decode, ClientCommand, ServerFrame, PROTOCOL_VERSION};
use met_core::reader::ReaderState;
use met_core::runtime::DaemonCommand;
use met_core::server::{
    event_frame, frame_line, hello, is_blank, on_client_command, on_session_input, socket_path,
    translate, ClientStep, SessionInput,
};

#[test]
fn hex_decodes_python_hexlify_output() {
    assert_eq!(
        hex_decode("616374696f6e2c696e666f03").unwrap(),
        b"action,info\x03".to_vec()
    );
    assert_eq!(hex_decode("0A0b").unwrap(), vec![0x0A, 0x0B]);
    assert!(hex_decode("abc").is_none());
    assert!(hex_decode("zz").is_none());
}

#[test]
fn hex_edges() {
    assert_eq!(hex_decode(""), Some(vec![]));
    assert_eq!(hex_decode("fFFf"), Some(vec![255, 255]));
    for bad in ["0", "0g", "g0", " 0", "+1", "\u{e9}", "0\u{e9}0", "00 1"] {
        assert_eq!(hex_decode(bad), None, "{:?}", bad);
    }
}

#[test]
fn hex_is_read_back() {
    let all: Vec<u8> = (0..=255).collect();
    assert_eq!(hex_encode(&all[..3]), "000102");
    assert_eq!(hex_encode(&all[254..]), "feff");
    assert_eq!(hex_decode(&hex_encode(&all)), Some(all));
}

#[test]
fn client_commands_map_to_daemon_commands() {
    let action = |name: &str| {
        translate(ClientCommand::Action {
            name: name.to_string(),
        })
    };
    assert!(matches!(
        action("purge"),
        Some(DaemonCommand::Action(EspAction::Purge))
    ));
    assert!(action("not_an_action").is_none());
    assert!(matches!(
        translate(ClientCommand::WriteRaw {
            hex: "616374".to_string()
        }),
        Some(DaemonCommand::WriteRaw(bytes)) if bytes == b"act".to_vec()
    ));
    assert!(translate(ClientCommand::WriteRaw {
        hex: "zz".to_string()
    })
    .is_none());
    let profile: serde_json::Value = serde_json::from_str("{\"a\":1}").unwrap();
    assert!(matches!(
        translate(ClientCommand::SendProfile { profile: profile.clone() }),
        Some(DaemonCommand::SendProfile(sent)) if sent == profile
    ));
    assert!(matches!(
        translate(ClientCommand::Reset { bootloader: true }),
        Some(DaemonCommand::Reset { bootloader: true })
    ));
    assert!(matches!(
        translate(ClientCommand::ReleasePort { bootloader: false }),
        Some(DaemonCommand::ReleasePort { bootloader: false })
    ));
    assert!(matches!(
        translate(ClientCommand::AcquirePort),
        Some(DaemonCommand::AcquirePort)
    ));
    assert!(translate(ClientCommand::GetSnapshot).is_none());
}

#[test]
fn client_lines_lead_to_replies_and_commands() {
    let snapshot = ReaderState::new(0).snapshot();
    assert!(matches!(
        on_client_command(None, &snapshot),
        ClientStep::Ignore
    ));
    assert!(matches!(
        on_client_command(Some(ClientCommand::GetSnapshot), &snapshot),
        ClientStep::Reply(ServerFrame::Snapshot { snapshot: s }) if s == snapshot
    ));
    assert!(matches!(
        on_client_command(Some(ClientCommand::AcquirePort), &snapshot),
        ClientStep::Forward(DaemonCommand::AcquirePort)
    ));
    assert!(matches!(
        on_client_command(
            Some(ClientCommand::Action {
                name: "nope".to_string()
            }),
            &snapshot
        ),
        ClientStep::Ignore
    ));
}

#[test]
fn a_session_greets_tells_answers_and_forwards() {
    let snapshot = ReaderState::new(0).snapshot();
    let sent = |text: &str, command: Option<ClientCommand>| SessionInput::Line {
        text: text.to_string(),
        command,
        snapshot: ReaderState::new(0).snapshot(),
    };
    let action = |name: &str| {
        Some(ClientCommand::Action {
            name: name.to_string(),
        })
    };
    let inputs = vec![
        SessionInput::Connected {
            snapshot: snapshot.clone(),
        },
        sent("this is not json", None),
        SessionInput::Event(MachineEvent::ShotStarted),
        sent("{..}", action("not_an_action")),
        sent("  ", Some(ClientCommand::AcquirePort)),
        sent("{..}", action("purge")),
        sent(
            "{..}",
            Some(ClientCommand::WriteRaw {
                hex: "zz".to_string(),
            }),
        ),
        SessionInput::EventsLost,
        sent("{..}", Some(ClientCommand::GetSnapshot)),
        sent("{..}", Some(ClientCommand::AcquirePort)),
        SessionInput::Event(MachineEvent::ShotEnded),
    ];
    let mut frames = Vec::new();
    let mut commands = Vec::new();
    for input in inputs {
        match on_session_input(input) {
            ClientStep::Ignore => {}
            ClientStep::Reply(frame) => frames.push(frame),
            ClientStep::Forward(command) => commands.push(command),
            ClientStep::Close => panic!("closed"),
        }
    }
    assert!(matches!(&frames[0], ServerFrame::Hello { v: 1, snapshot: s } if *s == snapshot));
    assert!(matches!(
        &frames[1],
        ServerFrame::Event {
            event: MachineEvent::ShotStarted
        }
    ));
    assert!(matches!(&frames[2], ServerFrame::Snapshot { snapshot: s } if *s == snapshot));
    assert!(matches!(
        &frames[3],
        ServerFrame::Event {
            event: MachineEvent::ShotEnded
        }
    ));
    assert_eq!(frames.len(), 4);
    assert!(matches!(
        commands.as_slice(),
        [
            DaemonCommand::Action(EspAction::Purge),
            DaemonCommand::AcquirePort
        ]
    ));
    assert!(matches!(
        on_session_input(SessionInput::Closed),
        ClientStep::Close
    ));
}

#[test]
fn frames_are_lines() {
    let snapshot = ReaderState::new(0).snapshot();
    assert!(matches!(
        hello(snapshot.clone()),
        ServerFrame::Hello { v: 1, snapshot: s } if s == snapshot
    ));
    assert_eq!(PROTOCOL_VERSION, 1);
    assert!(matches!(
        event_frame(MachineEvent::ShotStarted),
        ServerFrame::Event {
            event: MachineEvent::ShotStarted
        }
    ));
    assert_eq!(frame_line(b"{}".to_vec()), b"{}\n".to_vec());
    assert!(is_blank(" \t\u{2003}\r"));
    assert!(is_blank(""));
    assert!(!is_blank(" {} "));
}

#[test]
fn the_socket_has_a_default() {
    assert_eq!(socket_path(None), "/run/met-daemon/ipc.sock");
    assert_eq!(socket_path(Some("/tmp/x".to_string())), "/tmp/x");
}

#[test]
fn backends_have_names() {
    assert_eq!(backend("EMULATOR"), Backend::Emulator);
    assert_eq!(backend("emulation"), Backend::Emulator);
    assert_eq!(backend("Usb"), Backend::Usb);
    assert_eq!(backend("FIKA"), Backend::Fika);
    assert_eq!(backend("anything"), Backend::Fika);
    assert_eq!(backend(""), Backend::Fika);
    // The dotless i has a plain I as its uppercase form.
    assert_eq!(backend("emulat\u{131}on"), Backend::Emulator);
    assert_eq!(default_backend(true), "FIKA");
    assert_eq!(default_backend(false), "EMULATOR");
    assert_eq!(default_device(Backend::Usb), "/dev/ttyUSB0");
    assert_eq!(default_device(Backend::Fika), "/dev/ttymxc0");
    assert_eq!(configured_or(None, DEFAULT_EMULATION_DIR), "esp_serial/connection");
    assert_eq!(configured_or(Some("x".to_string()), "y"), "x");
}

#[test]
fn configured_numbers_have_defaults() {
    assert_eq!(emulation_speed("250"), 250);
    assert_eq!(emulation_speed("+7"), 7);
    assert_eq!(emulation_speed("0"), 0);
    assert_eq!(emulation_speed("4294967295"), u32::MAX);
    for bad in ["4294967296", "", "+", "-1", "1.5", " 1", "1_0", "x", "++1"] {
        assert_eq!(emulation_speed(bad), 100, "{:?}", bad);
    }
    assert_eq!(alive_check_seconds("18446744073709551615"), u64::MAX);
    assert_eq!(alive_check_seconds("18446744073709551616"), 60);
    assert_eq!(alive_check_seconds("5"), 5);
    assert_eq!(alive_check_seconds("soon"), 60);
}

#[test]
fn console_words_are_commands() {
    assert!(matches!(read_console(" \t"), ConsoleInput::Blank));
    assert!(matches!(read_console("dance"), ConsoleInput::Unknown));
    assert!(matches!(read_console("Start"), ConsoleInput::Unknown));
    assert!(matches!(
        read_console(" reset\n"),
        ConsoleInput::Command(DaemonCommand::Reset { bootloader: false })
    ));
    assert!(matches!(
        read_console("bootloader"),
        ConsoleInput::Command(DaemonCommand::Reset { bootloader: true })
    ));
    assert!(matches!(
        read_console("pause"),
        ConsoleInput::Command(DaemonCommand::Pause)
    ));
    assert!(matches!(
        read_console("resume"),
        ConsoleInput::Command(DaemonCommand::Resume)
    ));
    for action in [EspAction::Start, EspAction::Info, EspAction::Preheat] {
        assert!(matches!(
            read_console(action.wire_name()),
            ConsoleInput::Command(DaemonCommand::Action(a)) if a == action
        ));
    }
}
