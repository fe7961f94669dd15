//! Message payloads and line dispatch.

use met_core::button::{ButtonEvent, ButtonEventData};
use met_core::decimal::Decimal;
use met_core::esp_info::EspInfo;
use met_core::heater::HeaterTimeoutInfo;
use met_core::json::Json;
use met_core::log::EspLog;
use met_core::message::{has_crash_marker, parse_line, EspMessage, LineKind, BARE_BUTTON_TOKENS};
use met_core::notify::MachineNotify;
use met_core::pynum::PyFloat;
use met_core::sensor::SensorData;
use met_core::shot::{MachineState, ShotData};

fn num(literal: &str) -> Decimal {
    Decimal::Finite {
        negative: false,
        literal: literal.to_string(),
    }
}

fn shot(line: &str) -> ShotData {
    match parse_line(line).message {
        Some(EspMessage::Shot(data)) => data,
        other => panic!("no datapoint in {}: {:?}", line, other),
    }
}

fn sensors(line: &str) -> SensorData {
    match parse_line(line).message {
        Some(EspMessage::Sensors(data)) => data,
        other => panic!("no sensors in {}: {:?}", line, other),
    }
}

fn log(line: &str) -> EspLog {
    match parse_line(line).message {
        Some(EspMessage::Log(data)) => data,
        other => panic!("no log in {}: {:?}", line, other),
    }
}

fn items(log: &EspLog) -> Vec<(String, String)> {
    match &log.items_filtered {
        Some(items) => items.entries().clone(),
        None => panic!("no items"),
    }
}

fn member<'a>(json: &'a Json, key: &str) -> &'a Json {
    match json.get(key) {
        Some(v) => v,
        None => panic!("no member {}", key),
    }
}

fn wire(args: &[String]) -> Vec<&str> {
    args.iter().map(String::as_str).collect()
}

#[test]
fn families_have_names() {
    let names: Vec<&str> = [
        LineKind::Button,
        LineKind::Data,
        LineKind::Sensors,
        LineKind::EspInfo,
        LineKind::Notify,
        LineKind::HeaterTimeout,
        LineKind::Log,
        LineKind::Unrecognized,
    ]
    .iter()
    .map(|k| k.name())
    .collect();
    assert_eq!(
        names,
        vec![
            "button",
            "data",
            "sensors",
            "esp_info",
            "notify",
            "heater_timeout",
            "log",
            "unrecognized"
        ]
    );
}

#[test]
fn near_protocol_lines_keep_their_family() {
    let families = [
        ("Data", LineKind::Data),
        ("Sensors", LineKind::Sensors),
        ("Event", LineKind::Button),
        ("ESPInfo", LineKind::EspInfo),
        ("Notify", LineKind::Notify),
        ("HeaterTimeoutInfo", LineKind::HeaterTimeout),
        ("Log", LineKind::Log),
    ];
    for (prefix, kind) in families {
        for payload in ["", "garbage", ",,,", "\r\n", "\u{1b}[1;31m x", "a,\n,b"] {
            let line = format!("{},{}", prefix, payload);
            assert_eq!(parse_line(&line).kind, kind, "{:?}", line);
        }
        assert_eq!(parse_line(prefix).kind, kind);
        assert_eq!(parse_line(&format!("\r\n{}", prefix)).kind, kind);
    }
}

#[test]
fn other_lines_are_unrecognized() {
    for line in ["", "\r\n", "data,1", " Data,1", "DataX,1", "CWX", ",Data", "CW,1"] {
        let parsed = parse_line(line);
        assert_eq!(parsed.kind, LineKind::Unrecognized, "{:?}", line);
        assert!(parsed.message.is_none());
    }
}

#[test]
fn bare_tokens_are_button_events() {
    let expected = [
        ButtonEvent::EncoderCounterclockwise,
        ButtonEvent::EncoderClockwise,
        ButtonEvent::EncoderPush,
    ];
    for (token, event) in BARE_BUTTON_TOKENS.iter().zip(expected) {
        assert_eq!(
            parse_line(&format!("{}\r\n", token)).message,
            Some(EspMessage::Button(ButtonEventData {
                event,
                time_since_last_event: 0
            }))
        );
    }
    for token in BARE_BUTTON_TOKENS {
        assert_eq!(parse_line(token).kind, LineKind::Button);
        assert!(parse_line(token).message.is_some());
    }
}

#[test]
fn button_events_carry_the_time_since_the_last_one() {
    let parse = |line: &str| match parse_line(line).message {
        Some(EspMessage::Button(data)) => data,
        other => panic!("no button: {:?}", other),
    };
    assert_eq!(parse("Event,CW,250").time_since_last_event, 250);
    assert_eq!(parse("Event,CW,9999+++").time_since_last_event, 10000);
    assert_eq!(parse("Event,CW,soon").time_since_last_event, 0);
    assert_eq!(parse("Event,encoder_push").event, ButtonEvent::EncoderPush);
    assert!(parse_line("Event,nonsense").message.is_none());
    assert!(parse_line("Event").message.is_none());
    let sio = parse("Event,CW,250").to_sio();
    assert_eq!(member(&sio, "type").as_str(), Some("ENCODER_CLOCKWISE"));
    assert_eq!(
        member(&sio, "time_since_last_event"),
        &Json::Integer(250)
    );
}

#[test]
fn button_event_names_are_read_back_in_any_case() {
    for event in [
        ButtonEvent::EncoderClockwise,
        ButtonEvent::EncoderCounterclockwise,
        ButtonEvent::EncoderPush,
        ButtonEvent::Tare,
    ] {
        assert_eq!(ButtonEvent::from_wire(event.name()), Some(event));
        assert_eq!(
            ButtonEvent::from_wire(&event.name().to_lowercase()),
            Some(event)
        );
    }
    // The sharp s has an uppercase form of two letters.
    assert_eq!(ButtonEvent::from_wire("encoder_pu\u{df}h"), None);
}

#[test]
fn datapoints_are_read() {
    let data = shot("Data,9.5,2.5,36.0,S,92.5,closing%20valve,My%20Profile\r\n");
    assert_eq!(data.pressure, PyFloat::Num(num("9.5")));
    assert_eq!(data.flow, PyFloat::Num(num("2.5")));
    assert_eq!(data.weight, PyFloat::Num(num("36")));
    assert!(data.stable_weight);
    assert_eq!(data.temperature, PyFloat::Num(num("92.5")));
    assert_eq!(data.status.as_deref(), Some("closing valve"));
    assert_eq!(data.profile.as_deref(), Some("My Profile"));
    assert_eq!(data.time, -1);
    assert_eq!(data.profile_time, -1);
    assert_eq!(data.state, MachineState::Brewing);
    assert!(!data.is_extracting);
    assert_eq!(data.gravimetric_flow, PyFloat::Num(num("0")));
    assert_eq!(data.main_controller_kind, None);
    assert_eq!(data.main_setpoint, num("0"));
}

#[test]
fn well_formed_datapoints_always_parse() {
    for (pressure, temperature, stable) in
        [("-99.5", "20", true), ("0.001", "-12.25", false), ("1e2", "199.9", true)]
    {
        let data = shot(&format!(
            "Data,{},1,2,{},{},brewing,profile",
            pressure,
            if stable { "S" } else { "U" },
            temperature
        ));
        assert_eq!(data.stable_weight, stable);
        assert_eq!(data.pressure.to_py_string().parse::<f64>(), pressure.parse());
        assert_eq!(
            data.temperature.to_py_string().parse::<f64>(),
            temperature.parse()
        );
    }
}

#[test]
fn short_datapoints_are_malformed() {
    for line in ["Data", "Data,1", "Data,1,2,3", "Data,1,2,3,S"] {
        assert!(parse_line(line).message.is_none(), "{}", line);
    }
    let data = shot("Data,x,2,nan,s,4");
    assert_eq!(data.pressure, PyFloat::NanString);
    assert_eq!(data.weight, PyFloat::NanString);
    assert!(!data.stable_weight);
    assert_eq!(data.status, None);
    assert_eq!(data.profile, None);
    assert_eq!(data.state, MachineState::Idle);
}

#[test]
fn profiles_tell_the_machine_state() {
    let state = |profile: &str| shot(&format!("Data,1,2,3,U,4,s,{}", profile)).state;
    assert_eq!(state("idle"), MachineState::Idle);
    assert_eq!(state("Purge"), MachineState::Purge);
    assert_eq!(state("Home"), MachineState::Home);
    assert_eq!(state("home"), MachineState::Brewing);
    assert_eq!(state(""), MachineState::Brewing);
    assert_eq!(MachineState::Purge.name(), "purge");
    assert_eq!(MachineState::Home.name(), "home");
    assert_eq!(MachineState::Brewing.name(), "brewing");
    assert_eq!(MachineState::Idle.name(), "idle");
}

#[test]
fn the_controller_block_is_read_as_far_as_it_goes() {
    let full = shot("Data,1,2,3,U,4,s,p,Pressure,9.0,Flow,2.5,true,1.25");
    assert_eq!(full.main_controller_kind.as_deref(), Some("Pressure"));
    assert_eq!(full.main_setpoint, num("9"));
    assert_eq!(full.aux_controller_kind.as_deref(), Some("Flow"));
    assert_eq!(full.aux_setpoint, num("2.5"));
    assert!(full.is_aux_controller_active);
    assert_eq!(full.gravimetric_flow, PyFloat::Num(num("1.25")));

    let short = shot("Data,1,2,3,U,4,s,p,Pressure,9.0,Flow,2.5,true");
    assert_eq!(short.main_controller_kind, None);
    assert_eq!(short.aux_setpoint, num("0"));

    let no_main = shot("Data,1,2,3,U,4,s,p,Pressure,bad,Flow,2.5,true,1.25");
    assert_eq!(no_main.main_controller_kind.as_deref(), Some("Pressure"));
    assert_eq!(no_main.main_setpoint, num("0"));
    assert_eq!(no_main.aux_controller_kind, None);
    assert!(!no_main.is_aux_controller_active);

    let no_aux = shot("Data,1,2,3,U,4,s,p,none,9.0,Flow,bad,true,1.25");
    assert_eq!(no_aux.main_controller_kind, None);
    assert_eq!(no_aux.main_setpoint, num("9"));
    assert_eq!(no_aux.aux_controller_kind.as_deref(), Some("Flow"));
    assert_eq!(no_aux.aux_setpoint, num("0"));
    assert!(!no_aux.is_aux_controller_active);
    assert_eq!(no_aux.gravimetric_flow, PyFloat::Num(num("0")));
}

#[test]
fn status_payloads_show_the_active_setpoint() {
    let main = shot("Data,1,2,3,U,4,s,p,Pressure,9.0,none,0,false,x").to_sio();
    let setpoints = member(&main, "setpoints");
    assert_eq!(member(setpoints, "active").as_str(), Some("pressure"));
    assert_eq!(member(setpoints, "pressure"), &Json::Float(num("9")));
    assert_eq!(member(&main, "name").as_str(), Some("s"));
    assert_eq!(member(&main, "state").as_str(), Some("brewing"));
    assert_eq!(member(&main, "time"), &Json::Integer(-1));
    assert_eq!(member(&main, "extracting").as_bool(), Some(false));
    assert_eq!(member(member(&main, "sensors"), "g").as_str(), Some("NaN"));
    assert_eq!(
        member(member(&main, "sensors"), "p"),
        &Json::Float(num("1"))
    );

    let aux = shot("Data,1,2,3,U,4,s,p,Pressure,9.0,FLOW,2.5,true,1").to_sio();
    let setpoints = member(&aux, "setpoints");
    assert_eq!(member(setpoints, "active").as_str(), Some("flow"));
    assert_eq!(member(setpoints, "flow"), &Json::Float(num("2.5")));

    let passive = shot("Data,1,2,3,U,4,s,p,Pressure,9.0,pressure,2.5,false,1").to_sio();
    let setpoints = member(&passive, "setpoints");
    assert_eq!(member(setpoints, "active").as_str(), Some("pressure"));
    assert_eq!(member(setpoints, "pressure"), &Json::Float(num("2.5")));

    let none = shot("Data,inf,2,3,U,4").to_sio();
    assert_eq!(member(member(&none, "setpoints"), "active"), &Json::Null);
    assert_eq!(member(member(&none, "sensors"), "p"), &Json::Null);
    assert_eq!(member(&none, "name"), &Json::Null);
}

#[test]
fn controller_kinds_are_lowercased_beyond_ascii() {
    let sio = shot("Data,1,2,3,U,4,s,p,\u{c4}RGER,9.0,none,0,false,1").to_sio();
    assert_eq!(
        member(member(&sio, "setpoints"), "active").as_str(),
        Some("\u{e4}rger")
    );
}

#[test]
fn stamping_changes_time_and_extraction_alone() {
    let data = shot("Data,1,2,3,S,4,s,p");
    let stamped = data.clone_with_time_and_state(12, true, 34);
    assert_eq!(stamped.time, 12);
    assert_eq!(stamped.profile_time, 34);
    assert!(stamped.is_extracting);
    assert_eq!(stamped.clone_with_time_and_state(-1, false, -1), data);
}

#[test]
fn datapoints_are_read_back() {
    let data = shot("Data,9.5,NaN,36.25,S,92.0,brewing,My Profile,Pressure,9.0,none,0.5,true,1.5");
    let args = data.to_args();
    assert_eq!(
        args,
        vec![
            "9.5", "NaN", "36.25", "S", "92.0", "brewing", "My Profile", "Pressure", "9.0", "none",
            "0.5", "true", "1.5"
        ]
    );
    assert_eq!(ShotData::from_args(&wire(&args)), Some(data));
}

fn sensor_values() -> Vec<String> {
    let mut args: Vec<String> = (0..20).map(|i| format!("{}.5", i)).collect();
    args.push("True".to_string());
    args.push("35.0".to_string());
    args.push("nan".to_string());
    args
}

#[test]
fn sensor_lines_are_read_with_the_bandheater_swapped() {
    let data = sensors(&format!("Sensors,{}\r\n", sensor_values().join(",")));
    assert_eq!(data.external_1, num("0.5"));
    assert_eq!(data.motor_current, num("12.5"));
    assert_eq!(data.bandheater_current, num("13.5"));
    assert_eq!(data.bandheater_power, num("14.5"));
    assert_eq!(data.pressure_sensor, num("15.5"));
    assert_eq!(data.adc_3, num("19.5"));
    assert!(data.water_status);
    assert_eq!(data.motor_thermistor, PyFloat::Num(num("35")));
    assert_eq!(data.weight_prediction, PyFloat::NanString);
    let sio = data.to_sio_sensors();
    assert_eq!(member(&sio, "bh_cur"), &Json::Float(num("13.5")));
    assert_eq!(member(&sio, "bh_pwr"), &Json::Float(num("14.5")));
    assert_eq!(member(&sio, "t_ext_1"), &Json::Float(num("0.5")));
    assert_eq!(member(&sio, "w_stat").as_bool(), Some(true));
    assert_eq!(member(&sio, "weight_pred").as_str(), Some("NaN"));
}

#[test]
fn incomplete_sensor_lines_are_malformed() {
    let values = sensor_values();
    assert!(parse_line(&format!("Sensors,{}", values[..22].join(",")))
        .message
        .is_none());
    let mut bad = values.clone();
    bad[19] = "x".to_string();
    assert!(parse_line(&format!("Sensors,{}", bad.join(",")))
        .message
        .is_none());
    let mut odd = values;
    odd[0] = "inf".to_string();
    odd[20] = "1".to_string();
    odd.push("extra".to_string());
    let data = sensors(&format!("Sensors,{}", odd.join(",")));
    assert_eq!(data.external_1, num("0"));
    assert!(!data.water_status);
}

#[test]
fn colored_sensor_lines_are_read() {
    let mut line = String::from("Sensors,");
    for (i, value) in sensor_values().iter().enumerate() {
        line.push_str(&format!(
            "\u{1b}[1;3{}m name_{}\u{1b}[0m{}",
            i % 6 + 1,
            i,
            value
        ));
    }
    assert_eq!(
        sensors(&line),
        sensors(&format!("Sensors,{}", sensor_values().join(",")))
    );
}

#[test]
fn broken_color_labels_stay_in_the_text() {
    let values = sensor_values();
    let separated = |separator: &str| {
        let mut line = String::new();
        for value in &values {
            line.push_str(separator);
            line.push_str(value);
        }
        SensorData::from_color_coded_args(&line).is_some()
    };
    assert!(separated("\u{1b}[1;36m \u{1b}[0m"));
    assert!(!separated("\u{1b}[1;37m x\u{1b}[0m"));
    assert!(!separated("\u{1b}[1;30m x\u{1b}[0m"));
    assert!(!separated("\u{1b}[1;31m X\u{1b}[0m"));
    assert!(!separated("\u{1b}[1;31mx\u{1b}[0m"));
    assert!(!separated("\u{1b}[1;31m x"));
    assert!(!separated("\u{1b}"));
    // A text before the first label counts as a value.
    let first = format!("7{}", {
        let mut line = String::new();
        for value in &values[1..] {
            line.push_str("\u{1b}[1;31m x\u{1b}[0m");
            line.push_str(value);
        }
        line
    });
    assert_eq!(
        SensorData::from_color_coded_args(&first).unwrap().external_1,
        num("7")
    );
}

#[test]
fn sensors_are_read_back() {
    let data = sensors(&format!("Sensors,{}", sensor_values().join(",")));
    let args = data.to_args();
    assert_eq!(args.len(), 23);
    assert_eq!(args[13], "13.5");
    assert_eq!(args[20], "true");
    assert_eq!(args[22], "NaN");
    assert_eq!(SensorData::from_args(&wire(&args)), Some(data));
}

#[test]
fn machine_information_is_read_with_firmware_history() {
    let info = |args: &[&str]| EspInfo::from_args(args);
    assert_eq!(info(&["1.0.0", "3"]), None);
    let short = info(&["1.0.0", "fan", "230.5"]).unwrap();
    assert_eq!(short.esp_pinout, 0);
    assert_eq!(short.main_voltage, num("230.5"));
    assert_eq!(short.color, "");
    assert_eq!(short.partial_retraction, num("45"));
    assert!(!short.auto_purge_after_shot);
    let full = info(&[
        "1.0.0", "3", "230", "black", "SN", "B1", "today", "scale", "30.5", "TRUE", "extra",
    ])
    .unwrap();
    assert_eq!(full.esp_pinout, 3);
    assert_eq!(full.color, "black");
    assert_eq!(full.scale_module, "scale");
    assert_eq!(full.partial_retraction, num("30.5"));
    assert!(full.auto_purge_after_shot);
    assert_eq!(info(&["1.0.0", "3", "volts"]), None);
    assert_eq!(
        info(&["v", "3", "1", "c", "s", "b", "d", "m", "far"]),
        None
    );
    let sio = full.to_sio();
    assert_eq!(member(&sio, "serial_number").as_str(), Some("SN"));
    assert_eq!(member(&sio, "main_voltage"), &Json::Float(num("230")));
}

#[test]
fn machine_information_is_read_back() {
    let info = EspInfo::default();
    assert_eq!(
        info.to_args(),
        vec!["0.0.0", "0", "0.0", "", "", "", "", "", "45.0", "false"]
    );
    assert_eq!(EspInfo::from_args(&wire(&info.to_args())), Some(info));
    let info = EspInfo::from_args(&[
        "1.2", "-4", "5", "black", "SN", "B1", "today", "scale", "30.5", "true",
    ])
    .unwrap();
    let args = info.to_args();
    assert_eq!(args[1], "-4");
    assert_eq!(args[2], "5.0");
    assert_eq!(EspInfo::from_args(&wire(&args)), Some(info));
}

#[test]
fn written_lines_are_read_back() {
    let data = shot("Data,1e1,-0.50,inf,U,7.,closing valve,P,flow,2.0,pressure,9,true,0");
    let values = sensors(&format!("Sensors,{}", sensor_values().join(",")));
    let info = EspInfo::from_args(&["1.2", "7", "230.50", "c", "s", "b", "d", "m", "inf", "true"])
        .unwrap();
    for ends in ["", "\n", "\r\n", "\r\n\n"] {
        let line = format!("Data,{}{}", data.to_args().join(","), ends);
        assert_eq!(shot(&line), data);
        let line = format!("Sensors,{}{}", values.to_args().join(","), ends);
        assert_eq!(sensors(&line), values);
        let line = format!("ESPInfo,{}{}", info.to_args().join(","), ends);
        assert_eq!(parse_line(&line).message, Some(EspMessage::Info(info.clone())));
    }
    assert_eq!(data.to_args()[0], "10.0");
    assert_eq!(data.to_args()[1], "-0.5");
    assert_eq!(data.to_args()[4], "7.0");
    assert_eq!(info.to_args()[2], "230.5");
}

#[test]
fn notifications_join_and_break_lines() {
    assert_eq!(
        MachineNotify::from_dispatch_args(&["warn", "a", "b;c"]),
        Some(MachineNotify {
            notification_type: "warn".to_string(),
            message: "a,b\nc".to_string()
        })
    );
    assert_eq!(
        MachineNotify::from_dispatch_args(&["warn"]).unwrap().message,
        ""
    );
    assert_eq!(MachineNotify::from_dispatch_args(&[]), None);
}

#[test]
fn heater_timeouts_take_four_numbers() {
    let heater = HeaterTimeoutInfo::from_args(&["1", "2.5", "inf", "4"]).unwrap();
    assert_eq!(heater.coffe_profile_end_remaining, num("1"));
    assert_eq!(
        heater.preheat_remaining,
        Decimal::Infinite { negative: false }
    );
    let dict = heater.to_dict();
    assert_eq!(
        member(member(&dict, "coffe_profile_end"), "timeout"),
        &Json::Float(num("2.5"))
    );
    assert_eq!(member(member(&dict, "preheat"), "remaining"), &Json::Null);
    assert_eq!(HeaterTimeoutInfo::from_args(&["1", "2", "3"]), None);
    assert_eq!(HeaterTimeoutInfo::from_args(&["1", "2", "3", "4", "5"]), None);
    assert_eq!(HeaterTimeoutInfo::from_args(&["1", "2", "x", "4"]), None);
}

#[test]
fn log_lines_carry_items() {
    let plain = log("Log,INFO,hello\r\n");
    assert_eq!(plain.level, "info");
    assert_eq!(plain.message, "hello");
    assert_eq!(plain.full_message, "hello");
    assert!(plain.items_filtered.is_none());
    assert!(!plain.send_to_sentry);

    let rich = log("Log,warning,msg,b=2,a=1=x,b=3,flag,sentry=true,=e");
    assert_eq!(rich.full_message, "msg,b=2,a=1=x,b=3,flag,sentry=true,=e");
    assert_eq!(
        items(&rich),
        vec![
            ("".to_string(), "e".to_string()),
            ("a".to_string(), "1".to_string()),
            ("b".to_string(), "2".to_string()),
        ]
    );
    assert!(rich.send_to_sentry);
    assert_eq!(rich.items_filtered.as_ref().unwrap().get("b"), Some("2"));
    assert_eq!(rich.items_filtered.as_ref().unwrap().get("sentry"), None);

    assert!(!log("Log,warning,msg,sentry=True").send_to_sentry);
    assert!(log("Log,Error,msg,sentry=false").send_to_sentry);
    assert!(items(&log("Log,debug,msg,none")).is_empty());
    assert!(parse_line("Log,info").message.is_none());
    assert_eq!(parse_line("Log,info").kind, LineKind::Log);
}

#[test]
fn log_levels_are_lowercased_beyond_ascii() {
    assert_eq!(log("Log,\u{c9}RROR,x").level, "\u{e9}rror");
    assert_eq!(log("Log,\u{3a3}\u{3a3},x").level, "\u{3c3}\u{3c2}");
}

#[test]
fn crash_markers_are_found_among_other_text() {
    for marker in ["Backtrace", "GURU MEDITATION ERROR", "register DUMP"] {
        assert!(has_crash_marker(marker));
        assert!(has_crash_marker(&format!("[12] {}: 0x40", marker)));
        assert!(has_crash_marker(&marker.to_uppercase()));
        assert!(has_crash_marker(&marker.to_lowercase()));
    }
    assert!(!has_crash_marker("guru meditation"));
    assert!(!has_crash_marker("registerdump"));
}

#[test]
fn crash_markers_are_found_in_any_case() {
    assert!(has_crash_marker("BACKTRACE: 0x1"));
    assert!(has_crash_marker("xx Guru Meditation Error xx"));
    assert!(has_crash_marker("core 0 register DUMP"));
    assert!(!has_crash_marker("back trace"));
    assert!(!has_crash_marker(""));
    // The Kelvin sign has a plain k as its lowercase form.
    assert!(has_crash_marker("bac\u{212a}trace"));
}
