//! Wire encoding of everything that is sent to the chip: actions and hashed
//! profiles.

use crate::encoding::{
    encode_text, hex_encode, hex_text, lemma_encode_concat, lemma_hex_text,
};
use crate::search::occurs_at;
use crate::text::{append_text, owned, same_text};
use vstd::prelude::*;
use vstd::utf8::{encode_utf8, is_ascii_chars, is_ascii_chars_encode_utf8};

verus! {

/// The end of a frame.
pub const TERMINATOR: u8 = 0x03;

/// Actions that the chip accepts.
#[derive(Clone, Copy, Debug, PartialEq, Eq, Structural)]
pub enum EspAction {
    Start,
    Stop,
    Tare,
    ScaleMasterCalibration,
    Preheat,
    Continue,
    Home,
    Purge,
    Info,
}

/// The action that a wire token names.
pub open spec fn named_action(token: Seq<char>) -> Option<EspAction> {
    if token == "start"@ {
        Some(EspAction::Start)
    } else if token == "stop"@ {
        Some(EspAction::Stop)
    } else if token == "tare"@ {
        Some(EspAction::Tare)
    } else if token == "scale_master_calibration"@ {
        Some(EspAction::ScaleMasterCalibration)
    } else if token == "preheat"@ {
        Some(EspAction::Preheat)
    } else if token == "continue"@ {
        Some(EspAction::Continue)
    } else if token == "home"@ {
        Some(EspAction::Home)
    } else if token == "purge"@ {
        Some(EspAction::Purge)
    } else if token == "info"@ {
        Some(EspAction::Info)
    } else {
        None
    }
}

impl EspAction {
    /// The wire token.
    pub open spec fn wire_text(self) -> Seq<char> {
        match self {
            EspAction::Start => "start"@,
            EspAction::Stop => "stop"@,
            EspAction::Tare => "tare"@,
            EspAction::ScaleMasterCalibration => "scale_master_calibration"@,
            EspAction::Preheat => "preheat"@,
            EspAction::Continue => "continue"@,
            EspAction::Home => "home"@,
            EspAction::Purge => "purge"@,
            EspAction::Info => "info"@,
        }
    }

    /// The wire token.
    pub fn wire_name(self) -> (r: &'static str)
        ensures
            r@ == self.wire_text(),
    {
        match self {
            EspAction::Start => "start",
            EspAction::Stop => "stop",
            EspAction::Tare => "tare",
            EspAction::ScaleMasterCalibration => "scale_master_calibration",
            EspAction::Preheat => "preheat",
            EspAction::Continue => "continue",
            EspAction::Home => "home",
            EspAction::Purge => "purge",
            EspAction::Info => "info",
        }
    }

    /// Parses a wire token.
    pub fn from_wire(token: &str) -> (r: Option<Self>)
        ensures
            r == named_action(token@),
    {
        if same_text(token, "start") {
            Some(EspAction::Start)
        } else if same_text(token, "stop") {
            Some(EspAction::Stop)
        } else if same_text(token, "tare") {
            Some(EspAction::Tare)
        } else if same_text(token, "scale_master_calibration") {
            Some(EspAction::ScaleMasterCalibration)
        } else if same_text(token, "preheat") {
            Some(EspAction::Preheat)
        } else if same_text(token, "continue") {
            Some(EspAction::Continue)
        } else if same_text(token, "home") {
            Some(EspAction::Home)
        } else if same_text(token, "purge") {
            Some(EspAction::Purge)
        } else if same_text(token, "info") {
            Some(EspAction::Info)
        } else {
            None
        }
    }
}

/// The token of an action names that action.
pub proof fn law_action_names_are_read_back(action: EspAction)
    ensures
        named_action(action.wire_text()) == Some(action),
{
    reveal_strlit("start");
    reveal_strlit("stop");
    reveal_strlit("tare");
    reveal_strlit("scale_master_calibration");
    reveal_strlit("preheat");
    reveal_strlit("continue");
    reveal_strlit("home");
    reveal_strlit("purge");
    reveal_strlit("info");
    assert("start"@.len() == 5 && "start"@[0] == 's');
    assert("stop"@.len() == 4 && "stop"@[0] == 's');
    assert("tare"@.len() == 4 && "tare"@[0] == 't');
    assert("scale_master_calibration"@.len() == 24);
    assert("preheat"@.len() == 7);
    assert("continue"@.len() == 8);
    assert("home"@.len() == 4 && "home"@[0] == 'h');
    assert("purge"@.len() == 5 && "purge"@[0] == 'p');
    assert("info"@.len() == 4 && "info"@[0] == 'i');
}

/// A token that names an action is the token of that action.
pub proof fn law_read_actions_keep_their_name(token: Seq<char>)
    ensures
        named_action(token) matches Some(action) ==> action.wire_text() == token,
{
}

/// The frame of an action: `action,<name>` and the terminator.
pub open spec fn action_frame(name: Seq<char>) -> Seq<u8> {
    encode_utf8("action,"@ + name).push(TERMINATOR)
}

/// `action,<name>\x03`.
pub fn encode_action(name: &str) -> (r: Vec<u8>)
    ensures
        r@ == action_frame(name@),
{
    let mut text = owned("action,");
    append_text(&mut text, name);
    let mut frame = encode_text(text.as_str());
    frame.push(TERMINATOR);
    frame
}

// ---------------------------------------------------------------------------
// Profiles
// ---------------------------------------------------------------------------

/// A JSON value of `serde_json`.
#[verifier::external_type_specification]
#[verifier::external_body]
pub struct ExValue(serde_json::Value);

/// The compact JSON text that `serde_json` gives a value.
pub uninterp spec fn json_text(json: serde_json::Value) -> Seq<char>;

/// `serde_json::Value::to_string` through the `Display` of the value: the
/// compact JSON text of the value, which goes by the name `json_text`.
#[verifier::external_body]
fn json_string(json: &serde_json::Value) -> (r: String)
    ensures
        r@ == json_text(*json),
{
    json.to_string()
}

/// The MD5 digest of bytes.
pub uninterp spec fn md5_digest(data: Seq<u8>) -> Seq<u8>;

/// `Md5::digest` of the `md-5` crate: the digest, which goes by the name
/// `md5_digest`, is 16 bytes long.
#[verifier::external_body]
fn md5(data: &[u8]) -> (r: Vec<u8>)
    ensures
        r@ == md5_digest(data@),
        r@.len() == 16,
{
    <md5::Md5 as md5::Digest>::digest(data).to_vec()
}

/// The hash that covers a JSON text.
pub open spec fn json_hash(json: Seq<char>) -> Seq<char> {
    hex_text(md5_digest(encode_utf8(json)))
}

/// The frame of a profile: `hash,<hash>` and the terminator, then a line
/// with `json`, the JSON text and the terminator.
pub open spec fn profile_frame(json: Seq<char>, hash: Seq<char>) -> Seq<u8> {
    encode_utf8("hash,"@ + hash).push(TERMINATOR) + encode_utf8("json\n"@ + json).push(TERMINATOR)
}

/// The frame of a JSON text with the given digest, and the digest in
/// hexadecimal digits.
pub fn frame_profile(json: &str, digest: &[u8]) -> (r: (Vec<u8>, String))
    ensures
        r.0@ == profile_frame(json@, hex_text(digest@)),
        r.1@ == hex_text(digest@),
{
    let hash = hex_encode(digest);
    let mut header = owned("hash,");
    append_text(&mut header, hash.as_str());
    let mut frame = encode_text(header.as_str());
    frame.push(TERMINATOR);
    let mut body = owned("json\n");
    append_text(&mut body, json);
    let mut rest = encode_text(body.as_str());
    rest.push(TERMINATOR);
    frame.append(&mut rest);
    (frame, hash)
}

/// Frames a JSON text: `hash,<md5>\x03json\n<json>\x03`, where the MD5 covers
/// the JSON text. Gives the frame and the hash.
pub fn encode_text_with_hash(json: &str) -> (r: (Vec<u8>, String))
    ensures
        r.0@ == profile_frame(json@, json_hash(json@)),
        r.1@ == json_hash(json@),
        r.1@.len() == 32,
{
    let bytes = encode_text(json);
    let digest = md5(bytes.as_slice());
    proof {
        lemma_hex_text(digest@);
    }
    frame_profile(json, digest.as_slice())
}

/// Frames a profile: `hash,<md5>\x03json\n<json>\x03`, where the MD5 covers
/// the JSON text. Gives the frame and the hash.
pub fn encode_json_with_hash(json: &serde_json::Value) -> (r: (Vec<u8>, String))
    ensures
        r.0@ == profile_frame(json_text(*json), json_hash(json_text(*json))),
        r.1@ == json_hash(json_text(*json)),
        r.1@.len() == 32,
{
    let text = json_string(json);
    encode_text_with_hash(text.as_str())
}

/// The hash of a profile frame covers exactly the JSON text between the first
/// `json\n` and the terminator at the end.
pub proof fn law_hash_covers_the_json(json: Seq<char>)
    ensures
        ({
            let frame = profile_frame(json, json_hash(json));
            let marker = encode_utf8("json\n"@);
            let at = encode_utf8("hash,"@ + json_hash(json)).len() + 1int;
            let between = frame.subrange(at + marker.len(), frame.len() - 1);
            &&& occurs_at(frame, marker, at)
            &&& forall|i: int| i < at ==> !#[trigger] occurs_at(frame, marker, i)
            &&& frame.last() == TERMINATOR
            &&& between == encode_utf8(json)
            &&& hex_text(md5_digest(between)) == json_hash(json)
        }),
{
    let hash = json_hash(json);
    let frame = profile_frame(json, hash);
    let marker = encode_utf8("json\n"@);
    let header = "hash,"@ + hash;
    let at = encode_utf8(header).len() + 1int;
    lemma_encode_concat("json\n"@, json);
    lemma_hex_text(md5_digest(encode_utf8(json)));
    reveal_strlit("hash,");
    reveal_strlit("json\n");
    assert(is_ascii_chars(header));
    is_ascii_chars_encode_utf8(header);
    assert(is_ascii_chars("json\n"@));
    is_ascii_chars_encode_utf8("json\n"@);
    assert("json\n"@.len() == 5 && "json\n"@[0] == 'j');
    assert(marker[0] == 0x6a) by {
        assert("json\n"@[0] as u8 == marker[0]);
    }
    assert(frame.subrange(at, at + 5) =~= marker);
    assert(frame.subrange(at + marker.len(), frame.len() - 1) =~= encode_utf8(json));
    assert forall|i: int| i < at implies !#[trigger] occurs_at(frame, marker, i) by {
        if occurs_at(frame, marker, i) {
            assert(frame.subrange(i, i + marker.len())[0] == 0x6a);
            assert(frame[i] == 0x6a);
            if i < header.len() {
                assert(frame[i] == encode_utf8(header)[i]);
                assert(header[i] as u8 == 0x6a);
                if i >= 5 {
                    assert(header[i] == hash[i - 5]);
                }
            }
        }
    }
}

/// The action that a frame carries is the one that it was made for.
pub proof fn law_action_frames_differ(a: EspAction, b: EspAction)
    requires
        a != b,
    ensures
        action_frame(a.wire_text()) != action_frame(b.wire_text()),
{
    broadcast use vstd::utf8::encode_utf8_decode_utf8;

    let x = "action,"@ + a.wire_text();
    let y = "action,"@ + b.wire_text();
    if action_frame(a.wire_text()) == action_frame(b.wire_text()) {
        assert(action_frame(a.wire_text()).drop_last() =~= encode_utf8(x));
        assert(action_frame(b.wire_text()).drop_last() =~= encode_utf8(y));
        assert(vstd::utf8::decode_utf8(encode_utf8(x)) == x);
        assert(vstd::utf8::decode_utf8(encode_utf8(y)) == y);
        assert(x.skip("action,"@.len() as int) =~= a.wire_text());
        assert(y.skip("action,"@.len() as int) =~= b.wire_text());
        law_action_names_are_read_back(a);
        law_action_names_are_read_back(b);
    }
}

}
