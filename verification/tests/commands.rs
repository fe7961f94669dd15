//! Actions and profile frames.

use md5::{Digest, Md5};
use met_core::command::{
    encode_action, encode_json_with_hash, encode_text_with_hash, frame_profile, EspAction,
};

const ACTIONS: [EspAction; 9] = [
    EspAction::Start,
    EspAction::Stop,
    EspAction::Tare,
    EspAction::ScaleMasterCalibration,
    EspAction::Preheat,
    EspAction::Continue,
    EspAction::Home,
    EspAction::Purge,
    EspAction::Info,
];

fn json(text: &str) -> serde_json::Value {
    serde_json::from_str(text).unwrap()
}

#[test]
fn action_frame_matches_python() {
    assert_eq!(encode_action("start"), b"action,start\x03");
    assert_eq!(
        encode_action(EspAction::Info.wire_name()),
        b"action,info\x03"
    );
}

#[test]
fn json_hash_matches_python_reference() {
    let (frame, hash) = encode_json_with_hash(&json("{\"name\": \"parity\"}"));
    assert_eq!(hash, "4d48a8609e2778855d2de253d7fb3e5d");
    let expected =
        b"hash,4d48a8609e2778855d2de253d7fb3e5d\x03json\n{\"name\":\"parity\"}\x03".to_vec();
    assert_eq!(frame, expected);
}

#[test]
fn hash_covers_exactly_the_json_between_marker_and_terminator() {
    let (frame, hash) = encode_json_with_hash(&json("{\"a\": [1, 2]}"));
    let text = String::from_utf8(frame).unwrap();
    let json_part = text
        .split_once("json\n")
        .unwrap()
        .1
        .strip_suffix('\x03')
        .unwrap();
    assert_eq!(format!("{:x}", Md5::digest(json_part.as_bytes())), hash);
}

#[test]
fn action_names_are_read_back() {
    for action in ACTIONS {
        assert_eq!(EspAction::from_wire(action.wire_name()), Some(action));
    }
    assert_eq!(EspAction::Stop.wire_name(), "stop");
    assert_eq!(EspAction::Tare.wire_name(), "tare");
    assert_eq!(
        EspAction::ScaleMasterCalibration.wire_name(),
        "scale_master_calibration"
    );
    assert_eq!(EspAction::Preheat.wire_name(), "preheat");
    assert_eq!(EspAction::Continue.wire_name(), "continue");
    assert_eq!(EspAction::Home.wire_name(), "home");
    assert_eq!(EspAction::Purge.wire_name(), "purge");
}

#[test]
fn unknown_tokens_name_no_action() {
    assert_eq!(EspAction::from_wire(""), None);
    assert_eq!(EspAction::from_wire("START"), None);
    assert_eq!(EspAction::from_wire("start "), None);
    assert_eq!(EspAction::from_wire("reset"), None);
}

#[test]
fn action_frames_keep_names_that_are_not_ascii() {
    assert_eq!(encode_action("caf\u{e9}"), b"action,caf\xc3\xa9\x03");
}

#[test]
fn action_frames_differ() {
    for a in ACTIONS {
        for b in ACTIONS {
            assert_eq!(
                encode_action(a.wire_name()) == encode_action(b.wire_name()),
                a == b
            );
        }
    }
}

#[test]
fn a_frame_carries_the_given_digest() {
    let (frame, hash) = frame_profile("{}", &[0x00, 0x0f, 0xa5, 0xff]);
    assert_eq!(hash, "000fa5ff");
    assert_eq!(frame, b"hash,000fa5ff\x03json\n{}\x03".to_vec());
}

#[test]
fn the_hash_of_a_text_is_its_md5() {
    let (frame, hash) = encode_text_with_hash("");
    assert_eq!(hash, "d41d8cd98f00b204e9800998ecf8427e");
    assert_eq!(
        frame,
        b"hash,d41d8cd98f00b204e9800998ecf8427e\x03json\n\x03".to_vec()
    );
}

#[test]
fn json_text_is_compact() {
    let (frame, _) = encode_json_with_hash(&json("{ \"b\" : [ 1 , true , null ] }"));
    let text = String::from_utf8(frame).unwrap();
    assert!(text.ends_with("json\n{\"b\":[1,true,null]}\x03"));
}
