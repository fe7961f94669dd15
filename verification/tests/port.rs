//! Line buffering, the reset pins and JSON trees.

use met_core::gpio::{reset_steps, NoopPins, PinStep, ResetPins};
use met_core::items::LogItems;
use met_core::json::{Json, Members};
use met_core::text::{join_owned, split_text};
use met_core::transport::{LineBuffer, PortRead, ReadOutcome, BAUDRATE, READ_TIMEOUT_MS};

fn feed(buffer: &mut LineBuffer, bytes: &[u8]) -> Vec<Vec<u8>> {
    let mut lines = Vec::new();
    if let Some(ReadOutcome::Line(line)) = buffer.on_read(PortRead::Bytes(bytes.to_vec())) {
        lines.push(line);
    }
    while let Some(line) = buffer.take_buffered_line() {
        lines.push(line);
    }
    lines
}

#[test]
fn reads_may_cut_anywhere() {
    let bytes = b"Data,1\r\n\nSensors,2\r\nrest";
    let mut whole = LineBuffer::new();
    let expected = feed(&mut whole, bytes);
    assert_eq!(
        expected,
        vec![b"Data,1\r\n".to_vec(), b"\n".to_vec(), b"Sensors,2\r\n".to_vec()]
    );
    for cut in 1..bytes.len() {
        let mut buffer = LineBuffer::new();
        let mut lines = feed(&mut buffer, &bytes[..cut]);
        lines.extend(feed(&mut buffer, &bytes[cut..]));
        assert_eq!(lines, expected, "cut at {}", cut);
        assert_eq!(feed(&mut buffer, b"\n"), vec![b"rest\n".to_vec()]);
    }
}

#[test]
fn a_read_attempt_ends_with_its_outcome() {
    let mut buffer = LineBuffer::new();
    assert_eq!(buffer.take_buffered_line(), None);
    assert_eq!(buffer.on_read(PortRead::Bytes(b"par".to_vec())), None);
    assert_eq!(
        buffer.on_read(PortRead::Elapsed),
        Some(ReadOutcome::Timeout)
    );
    assert_eq!(
        buffer.on_read(PortRead::Failed("unplugged".to_string())),
        Some(ReadOutcome::Error("unplugged".to_string()))
    );
    assert_eq!(
        buffer.on_read(PortRead::Bytes(vec![])),
        Some(ReadOutcome::Error("serial port EOF".to_string()))
    );
    assert_eq!(
        buffer.on_read(PortRead::Bytes(b"t\nmore\n".to_vec())),
        Some(ReadOutcome::Line(b"part\n".to_vec()))
    );
    assert_eq!(buffer.take_buffered_line(), Some(b"more\n".to_vec()));
    assert_eq!(buffer.take_buffered_line(), None);
    assert_eq!(BAUDRATE, 115_200);
    assert_eq!(READ_TIMEOUT_MS, 500);
}

#[test]
fn the_reset_sequence_selects_the_mode() {
    let normal = vec![
        PinStep::SetBoot(false),
        PinStep::SetReset(true),
        PinStep::Sleep(100),
        PinStep::SetBoot(false),
        PinStep::SetReset(false),
    ];
    assert_eq!(reset_steps(false), normal);
    let bootloader = vec![
        PinStep::SetBoot(false),
        PinStep::SetReset(true),
        PinStep::Sleep(100),
        PinStep::SetBoot(true),
        PinStep::SetReset(false),
        PinStep::Sleep(100),
        PinStep::SetBoot(false),
    ];
    assert_eq!(reset_steps(true), bootloader);
    let mut pins = NoopPins;
    pins.set_boot(true);
    pins.set_reset(false);
}

#[test]
fn the_last_value_of_a_member_counts() {
    let mut members = Members::new();
    members.set("a", Json::Integer(1));
    members.set("b", Json::Integer(2));
    members.set("a", Json::Integer(3));
    let object = members.build();
    assert_eq!(object.get("a"), Some(&Json::Integer(3)));
    assert_eq!(object.get("b"), Some(&Json::Integer(2)));
    assert_eq!(object.get("c"), None);
    assert_eq!(Json::Null.get("a"), None);
    assert_eq!(Json::Text("x".to_string()).as_bool(), None);
    assert_eq!(Json::Bool(true).as_str(), None);
    assert!(Json::Bool(true).as_array().is_none());
    assert!(Json::Bool(true).as_float().is_none());
}

#[test]
fn integers_are_numbers_too() {
    let shown = |i: i64| {
        met_core::pynum::format_py_float(&Json::Integer(i).as_float().unwrap())
    };
    assert_eq!(shown(0), "0.0");
    assert_eq!(shown(-12), "-12.0");
    assert_eq!(shown(999_999_999_999_999), "999999999999999.0");
    assert_eq!(shown(9_007_199_254_740_992), "9007199254740992.0");
    assert_eq!(shown(9_007_199_254_740_993), "9007199254740992.0");
    assert_eq!(shown(-9_007_199_254_740_995), "-9007199254740996.0");
    for i in [i64::MIN, i64::MAX, 1 << 53, (1 << 60) - 1, 1_000_000_000_000_000_001] {
        assert_eq!(shown(i), format!("{}.0", i as f64));
    }
}

#[test]
fn items_are_kept_in_order_without_duplicates() {
    let mut items = LogItems::new();
    for (key, value) in [("b", "1"), ("a", "2"), ("ab", "3"), ("b", "4"), ("\u{e9}", "5")] {
        items.insert_if_absent(key, value);
    }
    let keys: Vec<&str> = items.entries().iter().map(|e| e.0.as_str()).collect();
    assert_eq!(keys, vec!["a", "ab", "b", "\u{e9}"]);
    assert_eq!(items.get("b"), Some("1"));
    items.remove("ab");
    items.remove("zz");
    assert_eq!(items.get("ab"), None);
    assert_eq!(items.entries().len(), 3);
    assert_eq!(items.clone().get("a"), Some("2"));
}

#[test]
fn splitting_and_joining_undo_each_other() {
    for text in ["", ",", "a", "a,b", ",a,,b,", "caf\u{e9},x"] {
        let parts: Vec<String> = split_text(text, ',').iter().map(|p| p.to_string()).collect();
        let expected: Vec<&str> = text.split(',').collect();
        assert_eq!(parts, expected);
        assert_eq!(join_owned(&parts, ','), text);
    }
}
