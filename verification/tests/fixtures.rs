//! Loading the emulation fixtures from their texts.

use met_core::command::encode_action;
use met_core::emulator::{shot_to_lines, EmulationData, EmulatorTransport};
use met_core::fixture::{fixture_json, read_fixture, EmulationError, FixtureFile};

const SHOT: &str = r#"{
    "profile_name": "Onyx Lychee",
    "data": [
        {"time": 0, "status": "brewing"},
        {
            "time": 120,
            "status": "brewing",
            "ignored": [1, 2, {"deep": null}],
            "shot": {
                "pressure": 9.5,
                "flow": 2,
                "weight": 1e1,
                "gravimetric_flow": "fast",
                "setpoints": {"active": "pressure", "pressure": 9.0, "flow": 1}
            },
            "sensors": {
                "tube": 88.25,
                "bandheater_power": 14.5,
                "bandheater_current": 0.5,
                "water_status": true
            }
        },
        {"time": 240.5, "status": "retracting", "shot": {"temperature": 91}}
    ]
}"#;

fn file(path: &str, text: &str) -> FixtureFile {
    FixtureFile {
        path: path.to_string(),
        content: Ok(text.to_string()),
    }
}

fn missing(path: &str) -> FixtureFile {
    FixtureFile {
        path: path.to_string(),
        content: Err("no such file".to_string()),
    }
}

fn lines(text: &str) -> Vec<String> {
    let value = read_fixture(file("f", text)).unwrap();
    shot_to_lines(&fixture_json(&value))
}

#[test]
fn fixture_texts_become_lines() {
    assert_eq!(
        lines(SHOT),
        vec![
            "Data,9.5,2.0,10.0,U,88.25,brewing,Onyx Lychee,pressure,9.0,none,0.0,false,0.0",
            "Sensors,0.0,0.0,0.0,0.0,0.0,0.0,88.25,0.0,0.0,0.0,0.0,0.0,0.0,0.5,14.5,0.0,0.0,0.0,0.0,0.0,true,0.0,0.0",
            "Data,0.0,0.0,0.0,U,91.0,retracting,Onyx Lychee,none,-1.0,none,0.0,false,0.0",
            "Sensors,0.0,0.0,0.0,0.0,0.0,0.0,0.0,0.0,0.0,0.0,0.0,0.0,0.0,0.0,0.0,0.0,0.0,0.0,0.0,0.0,false,0.0,0.0",
        ]
    );
    assert!(lines("null").is_empty());
    assert!(lines("[1]").is_empty());
    assert!(lines("{\"data\": 3}").is_empty());
}

#[test]
fn members_of_other_types_count_as_missing() {
    let played = lines(
        r#"{"profile_name": 3, "data": [{
            "time": 0.1,
            "status": false,
            "shot": {"pressure": "9", "setpoints": {"active": "active", "x": 1}},
            "sensors": {"water_status": "true", "tube": null}
        }]}"#,
    );
    assert_eq!(
        played[0],
        "Data,0.0,0.0,0.0,U,0.0,,,active,-1.0,none,0.0,false,0.0"
    );
    assert!(played[1].ends_with(",false,0.0,0.0"));
}

#[test]
fn numbers_are_read_by_their_text() {
    let played = lines(
        r#"{"data": [{"time": 1e-7, "shot": {
            "pressure": -0.0, "flow": 1.50, "weight": 0.1, "temperature": 12345678
        }}]}"#,
    );
    assert!(played[0].starts_with("Data,-0.0,1.5,0.1,U,12345678.0,"));
}

#[test]
fn numbers_are_rounded_to_floats() {
    let played = lines(
        r#"{"data": [{"time": 1, "shot": {
            "pressure": 9007199254740993, "flow": 18446744073709551615, "weight": 0.25
        }}]}"#,
    );
    assert!(played[0].starts_with("Data,9007199254740992.0,18446744073709552000.0,0.25,"));
    for text in [
        "0.1000000000000000055",
        "123456789.123456789123",
        "-9007199254740995",
        "562949953421312.25",
        "3.3e-5",
    ] {
        let value: serde_json::Value = serde_json::from_str(text).unwrap();
        let float = value.as_f64().unwrap();
        let shown = if float.fract() == 0.0 {
            format!("{}.0", float)
        } else {
            format!("{}", float)
        };
        let played = lines(&format!(
            r#"{{"data": [{{"time": 1, "shot": {{"pressure": {}}}}}]}}"#,
            text
        ));
        assert!(
            played[0].starts_with(&format!("Data,{},", shown)),
            "{}",
            played[0]
        );
    }
}

#[test]
fn loaded_fixtures_play() {
    let data = EmulationData::load_texts(
        file("shot", SHOT),
        file("home", "{}"),
        file("purge", "{}"),
    )
    .unwrap();
    let mut e = EmulatorTransport::new(data, 100);
    e.write(&encode_action("start"));
    assert!(e.next_line().starts_with("Data,9.5,"));
}

#[test]
fn the_first_failing_fixture_is_reported() {
    let load = |shot: FixtureFile, home: FixtureFile, purge: FixtureFile| {
        EmulationData::load_texts(shot, home, purge)
            .err()
            .map(|e| match e {
                EmulationError::Io { path, reason } => ("io", path, reason),
                EmulationError::Json { path, reason } => ("json", path, reason),
            })
    };
    assert!(load(file("s", "{}"), file("h", "[]"), file("p", "1")).is_none());
    assert_eq!(
        load(missing("s"), file("h", "{"), missing("p")),
        Some(("io", "s".to_string(), "no such file".to_string()))
    );
    let (kind, path, reason) = load(file("s", "{}"), file("h", "{"), missing("p")).unwrap();
    assert_eq!((kind, path.as_str()), ("json", "h"));
    let expected = serde_json::from_str::<serde_json::Value>("{")
        .unwrap_err()
        .to_string();
    assert_eq!(reason, expected);
    assert_eq!(
        load(file("s", "{}"), file("h", "{}"), missing("p")),
        Some(("io", "p".to_string(), "no such file".to_string()))
    );
}

#[test]
fn fixture_errors_are_told_in_words() {
    assert_eq!(
        read_fixture(missing("dir/emulated.shot.json"))
            .unwrap_err()
            .message(),
        "cannot read fixture dir/emulated.shot.json: no such file"
    );
    let error = read_fixture(file("f.json", "nope")).unwrap_err();
    assert!(error
        .message()
        .starts_with("fixture f.json is not valid JSON: "));
}
