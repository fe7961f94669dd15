//! Fixture playback.

use met_core::command::{encode_action, EspAction};
use met_core::decimal::Decimal;
use met_core::emulator::{shot_to_lines, EmulationData, EmulatorTransport};
use met_core::json::Json;
use met_core::message::{parse_line, EspMessage};
use met_core::pynum::PyFloat;

fn num(literal: &str) -> Json {
    Json::Float(Decimal::Finite {
        negative: false,
        literal: literal.to_string(),
    })
}

fn text(s: &str) -> Json {
    Json::Text(s.to_string())
}

fn object(members: Vec<(&str, Json)>) -> Json {
    Json::Object(
        members
            .into_iter()
            .map(|(k, v)| (k.to_string(), v))
            .collect(),
    )
}

fn sample(time: Json, status: &str) -> Json {
    object(vec![
        ("time", time),
        ("status", text(status)),
        (
            "shot",
            object(vec![
                ("pressure", num("9.5")),
                ("flow", Json::Integer(2)),
                (
                    "setpoints",
                    object(vec![("active", text("pressure")), ("pressure", num("9"))]),
                ),
            ]),
        ),
        (
            "sensors",
            object(vec![
                ("tube", num("88.25")),
                ("bandheater_power", num("14.5")),
                ("bandheater_current", num("0.5")),
                ("water_status", Json::Bool(true)),
            ]),
        ),
    ])
}

fn fixture(name: &str, statuses: &[&str]) -> Json {
    object(vec![
        ("profile_name", text(name)),
        (
            "data",
            Json::List(statuses.iter().map(|s| sample(num("1.5"), s)).collect()),
        ),
    ])
}

fn emulator() -> EmulatorTransport {
    let data = EmulationData::load(
        &fixture("Onyx Lychee", &["brewing", "retracting"]),
        &fixture("Home", &["home", "home"]),
        &fixture("Purge", &["purge", "purge"]),
    );
    EmulatorTransport::new(data, 100)
}

fn profile(line: &str) -> Option<String> {
    match parse_line(line).message {
        Some(EspMessage::Shot(data)) => data.profile,
        _ => None,
    }
}

#[test]
fn the_idle_loop_plays_data_and_sensors() {
    let mut e = emulator();
    for _ in 0..3 {
        let data = e.next_line();
        assert_eq!(
            data,
            "Data,0.0,0.0,0.0,U,23.2,idle,idle,none,0.0,none,0.0,false,0.0\r\n"
        );
        let sensors = e.next_line();
        assert_eq!(
            sensors,
            "Sensors,85.11,86.27,68.73,69.02,67.75,65.44,67.74,29.96,32.78,74.0,0.0,0.0,0.0,0.62,15.3,306.0,14.0,14.0,14.0,14.0,false,0.0,0.0\r\n"
        );
        match parse_line(&data).message {
            Some(EspMessage::Shot(shot)) => assert_eq!(
                format!("Data,{}\r\n", shot.to_args().join(",")),
                data
            ),
            other => panic!("no datapoint: {:?}", other),
        }
        match parse_line(&sensors).message {
            Some(EspMessage::Sensors(readings)) => assert_eq!(
                format!("Sensors,{}\r\n", readings.to_args().join(",")),
                sensors
            ),
            other => panic!("no sensors: {:?}", other),
        }
    }
}

#[test]
fn machine_information_never_plays() {
    let mut e = emulator();
    for _ in 0..50 {
        assert!(!e.next_line().starts_with("ESPInfo"));
    }
}

#[test]
fn actions_switch_the_source_and_playback_returns_to_idle() {
    for (action, name) in [
        (EspAction::Start, "Onyx Lychee"),
        (EspAction::Home, "Home"),
        (EspAction::Purge, "Purge"),
    ] {
        let mut e = emulator();
        e.next_line();
        e.write(&encode_action(action.wire_name()));
        // Four lines, of which the last one does not play.
        assert_eq!(profile(&e.next_line()).as_deref(), Some(name));
        assert!(e.next_line().starts_with("Sensors,"));
        assert_eq!(profile(&e.next_line()).as_deref(), Some(name));
        assert_eq!(profile(&e.next_line()).as_deref(), Some("idle"));
    }
}

#[test]
fn stop_returns_to_idle() {
    let mut e = emulator();
    e.write(&encode_action("start"));
    assert_eq!(profile(&e.next_line()).as_deref(), Some("Onyx Lychee"));
    e.write(&encode_action("stop"));
    assert_eq!(profile(&e.next_line()).as_deref(), Some("idle"));
}

#[test]
fn other_bytes_switch_nothing() {
    let mut e = emulator();
    e.next_line();
    e.write(b"32\n");
    e.write(&encode_action("info"));
    e.write(&encode_action("tare"));
    e.write(b"\xff\xfeaction,sta");
    assert!(e.next_line().starts_with("Sensors,"));
    // What was read is gone.
    e.write(b"rt\x03");
    assert_eq!(profile(&e.next_line()).as_deref(), Some("idle"));
}

#[test]
fn commands_are_found_across_writes_and_among_other_bytes() {
    let mut e = emulator();
    e.write(b"\xc3\x28noise action,pur");
    e.write(b"ge\x03");
    assert_eq!(profile(&e.next_line()).as_deref(), Some("Purge"));
    // A start wins over a purge, whatever comes first.
    e.write(b"action,purge\x03action,start\x03");
    assert_eq!(profile(&e.next_line()).as_deref(), Some("Onyx Lychee"));
}

#[test]
fn a_reset_returns_to_idle() {
    let mut e = emulator();
    e.write(&encode_action("start"));
    e.next_line();
    e.reset();
    assert_eq!(profile(&e.next_line()).as_deref(), Some("idle"));
    assert!(e.next_line().starts_with("Sensors,"));
}

#[test]
fn a_source_without_lines_to_play_stays_idle() {
    let data = EmulationData::load(&Json::Null, &object(vec![]), &fixture("Purge", &["purge"]));
    let mut e = EmulatorTransport::new(data, 100);
    e.write(&encode_action("start"));
    assert_eq!(profile(&e.next_line()).as_deref(), Some("idle"));
    e.write(&encode_action("purge"));
    assert_eq!(profile(&e.next_line()).as_deref(), Some("Purge"));
    assert_eq!(profile(&e.next_line()).as_deref(), Some("idle"));
}

#[test]
fn samples_become_lines() {
    let lines = shot_to_lines(&object(vec![
        ("profile_name", text("P")),
        (
            "data",
            Json::List(vec![
                sample(num("0"), "skipped"),
                sample(Json::Integer(-5), "skipped"),
                sample(Json::Null, "skipped"),
                sample(Json::Integer(7), "brewing"),
            ]),
        ),
    ]));
    assert_eq!(
        lines,
        vec![
            "Data,9.5,2.0,0.0,U,88.25,brewing,P,pressure,9.0,none,0.0,false,0.0".to_string(),
            "Sensors,0.0,0.0,0.0,0.0,0.0,0.0,88.25,0.0,0.0,0.0,0.0,0.0,0.0,0.5,14.5,0.0,0.0,0.0,0.0,0.0,true,0.0,0.0".to_string(),
        ]
    );
}

#[test]
fn missing_members_have_defaults() {
    let lines = shot_to_lines(&object(vec![(
        "data",
        Json::List(vec![object(vec![
            ("time", num("0.25")),
            (
                "shot",
                object(vec![
                    ("temperature", num("90")),
                    ("setpoints", object(vec![("active", text("flow"))])),
                ]),
            ),
        ])]),
    )]));
    assert_eq!(
        lines[0],
        "Data,0.0,0.0,0.0,U,90.0,,,flow,-1.0,none,0.0,false,0.0"
    );
    assert_eq!(lines.len(), 2);
    let lines = shot_to_lines(&object(vec![(
        "data",
        Json::List(vec![object(vec![("time", num("1"))])]),
    )]));
    assert_eq!(
        lines[0],
        "Data,0.0,0.0,0.0,U,0.0,,,none,-1.0,none,0.0,false,0.0"
    );
    assert!(shot_to_lines(&Json::Null).is_empty());
    assert!(shot_to_lines(&object(vec![("data", text("none"))])).is_empty());
}

#[test]
fn played_datapoints_parse() {
    let mut e = emulator();
    e.write(&encode_action("start"));
    match parse_line(&e.next_line()).message {
        Some(EspMessage::Shot(data)) => {
            assert_eq!(data.status.as_deref(), Some("brewing"));
            assert_eq!(data.main_controller_kind.as_deref(), Some("pressure"));
            assert_eq!(data.pressure.to_py_string(), "9.5");
            assert_eq!(
                data.temperature,
                PyFloat::Num(Decimal::Finite {
                    negative: false,
                    literal: "88.25".to_string()
                })
            );
        }
        other => panic!("no datapoint: {:?}", other),
    }
}

#[test]
fn a_start_wins_and_what_was_written_is_read_once() {
    let mut e = emulator();
    e.write(b"action,home\x03\xff\xfeaction,start\x03");
    assert_eq!(profile(&e.next_line()).as_deref(), Some("Onyx Lychee"));
    for _ in 0..2 {
        e.next_line();
    }
    assert_eq!(profile(&e.next_line()).as_deref(), Some("idle"));
}

#[test]
fn timing_follows_the_speed() {
    let timing = |speed: u32| {
        let data = EmulationData::load(&Json::Null, &Json::Null, &Json::Null);
        let mut e = EmulatorTransport::new(data, speed);
        let delay = e.take_startup_delay();
        assert_eq!(e.take_startup_delay(), None);
        (delay, e.sleep_ns())
    };
    assert_eq!(timing(100), (Some(2_000_000_000), 75_000_000));
    assert_eq!(timing(8000), (Some(25_000_000), 937_500));
    assert_eq!(timing(0), (Some(200_000_000_000), 7_500_000_000));
    assert_eq!(timing(1), timing(0));
    assert_eq!(timing(8192), (Some(24_414_062), 915_527));
    assert_eq!(timing(7), (Some(28_571_428_571), 1_071_428_571));
    assert_eq!(timing(u32::MAX), (Some(47), 2));
    assert_eq!(timing(1_024_000).0, Some(195_313));
    let divided = |nanos: u64, speed: u32| {
        let factor = f64::from(speed.max(1)) / 100.0;
        std::time::Duration::from_nanos(nanos)
            .div_f64(factor)
            .as_nanos() as u64
    };
    let mut speeds: Vec<u32> = (0..400).collect();
    speeds.extend((1..400).map(|i| i * 1024));
    speeds.extend((0..32).map(|i| 1u32 << i));
    speeds.extend((0..32).map(|i| u32::MAX >> i));
    speeds.extend((1..2000u32).map(|i| i.wrapping_mul(2_654_435_761)));
    for speed in speeds {
        assert_eq!(
            timing(speed),
            (
                Some(divided(2_000_000_000, speed)),
                divided(75_000_000, speed)
            ),
            "{}",
            speed
        );
    }
}
