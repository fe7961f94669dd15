//! Physical button events, either as bare tokens (`CCW`) or as `Event,...`
//! messages.

use crate::json::{Json, JsonView, Members};
use crate::letters::{ascii_upper, ascii_upper_char, upper, uppercase};
use crate::pynum::{py_int, py_int_value};
use crate::text::{same_text, texts};
use vstd::prelude::*;
use vstd::utf8::is_ascii_chars;

verus! {

/// Events that the machine's physical controls can emit.
#[derive(Debug, Clone, Copy, PartialEq, Eq, Structural)]
pub enum ButtonEvent {
    EncoderClockwise,
    EncoderCounterclockwise,
    EncoderPush,
    EncoderDouble,
    EncoderLong,
    Tare,
    TareDouble,
    TareLong,
    TareSuperLong,
    Context,
    EncoderPressed,
    EncoderReleased,
    TarePressed,
    TareReleased,
    ContextPressed,
    ContextReleased,
    Unknown,
}

impl ButtonEvent {
    /// The member name of the event.
    pub open spec fn name_text(self) -> Seq<char> {
        match self {
            ButtonEvent::EncoderClockwise => "ENCODER_CLOCKWISE"@,
            ButtonEvent::EncoderCounterclockwise => "ENCODER_COUNTERCLOCKWISE"@,
            ButtonEvent::EncoderPush => "ENCODER_PUSH"@,
            ButtonEvent::EncoderDouble => "ENCODER_DOUBLE"@,
            ButtonEvent::EncoderLong => "ENCODER_LONG"@,
            ButtonEvent::Tare => "TARE"@,
            ButtonEvent::TareDouble => "TARE_DOUBLE"@,
            ButtonEvent::TareLong => "TARE_LONG"@,
            ButtonEvent::TareSuperLong => "TARE_SUPER_LONG"@,
            ButtonEvent::Context => "CONTEXT"@,
            ButtonEvent::EncoderPressed => "ENCODER_PRESSED"@,
            ButtonEvent::EncoderReleased => "ENCODER_RELEASED"@,
            ButtonEvent::TarePressed => "TARE_PRESSED"@,
            ButtonEvent::TareReleased => "TARE_RELEASED"@,
            ButtonEvent::ContextPressed => "CONTEXT_PRESSED"@,
            ButtonEvent::ContextReleased => "CONTEXT_RELEASED"@,
            ButtonEvent::Unknown => "UNKNOWN"@,
        }
    }

    /// The member name of the event, as it goes out over socket.io.
    pub fn name(self) -> (r: &'static str)
        ensures
            r@ == self.name_text(),
    {
        match self {
            ButtonEvent::EncoderClockwise => "ENCODER_CLOCKWISE",
            ButtonEvent::EncoderCounterclockwise => "ENCODER_COUNTERCLOCKWISE",
            ButtonEvent::EncoderPush => "ENCODER_PUSH",
            ButtonEvent::EncoderDouble => "ENCODER_DOUBLE",
            ButtonEvent::EncoderLong => "ENCODER_LONG",
            ButtonEvent::Tare => "TARE",
            ButtonEvent::TareDouble => "TARE_DOUBLE",
            ButtonEvent::TareLong => "TARE_LONG",
            ButtonEvent::TareSuperLong => "TARE_SUPER_LONG",
            ButtonEvent::Context => "CONTEXT",
            ButtonEvent::EncoderPressed => "ENCODER_PRESSED",
            ButtonEvent::EncoderReleased => "ENCODER_RELEASED",
            ButtonEvent::TarePressed => "TARE_PRESSED",
            ButtonEvent::TareReleased => "TARE_RELEASED",
            ButtonEvent::ContextPressed => "CONTEXT_PRESSED",
            ButtonEvent::ContextReleased => "CONTEXT_RELEASED",
            ButtonEvent::Unknown => "UNKNOWN",
        }
    }

    /// A wire token first, case-sensitive; then a member name, in any case.
    /// Nothing for any other text.
    pub fn from_wire(token: &str) -> (r: Option<Self>)
        ensures
            r == wire_event(token@),
    {
        if same_text(token, "CW") {
            Some(ButtonEvent::EncoderClockwise)
        } else if same_text(token, "CCW") {
            Some(ButtonEvent::EncoderCounterclockwise)
        } else if same_text(token, "push") {
            Some(ButtonEvent::EncoderPush)
        } else if same_text(token, "pu_d") {
            Some(ButtonEvent::EncoderDouble)
        } else if same_text(token, "elng") {
            Some(ButtonEvent::EncoderLong)
        } else if same_text(token, "tare") {
            Some(ButtonEvent::Tare)
        } else if same_text(token, "ta_d") {
            Some(ButtonEvent::TareDouble)
        } else if same_text(token, "ta_l") {
            Some(ButtonEvent::TareLong)
        } else if same_text(token, "ta_sl") {
            Some(ButtonEvent::TareSuperLong)
        } else if same_text(token, "strt") || same_text(token, "cntx") {
            Some(ButtonEvent::Context)
        } else if same_text(token, "encoder_button_pressed") {
            Some(ButtonEvent::EncoderPressed)
        } else if same_text(token, "encoder_button_released") {
            Some(ButtonEvent::EncoderReleased)
        } else if same_text(token, "tare_pressed") {
            Some(ButtonEvent::TarePressed)
        } else if same_text(token, "tare_released") {
            Some(ButtonEvent::TareReleased)
        } else if same_text(token, "context_pressed") {
            Some(ButtonEvent::ContextPressed)
        } else if same_text(token, "context_released") {
            Some(ButtonEvent::ContextReleased)
        } else {
            let name = uppercase(token);
            Self::from_name(name.as_str())
        }
    }

    /// The event with the given member name.
    pub fn from_name(name: &str) -> (r: Option<Self>)
        ensures
            r == named_event(name@),
    {
        if same_text(name, "ENCODER_CLOCKWISE") {
            Some(ButtonEvent::EncoderClockwise)
        } else if same_text(name, "ENCODER_COUNTERCLOCKWISE") {
            Some(ButtonEvent::EncoderCounterclockwise)
        } else if same_text(name, "ENCODER_PUSH") {
            Some(ButtonEvent::EncoderPush)
        } else if same_text(name, "ENCODER_DOUBLE") {
            Some(ButtonEvent::EncoderDouble)
        } else if same_text(name, "ENCODER_LONG") {
            Some(ButtonEvent::EncoderLong)
        } else if same_text(name, "TARE") {
            Some(ButtonEvent::Tare)
        } else if same_text(name, "TARE_DOUBLE") {
            Some(ButtonEvent::TareDouble)
        } else if same_text(name, "TARE_LONG") {
            Some(ButtonEvent::TareLong)
        } else if same_text(name, "TARE_SUPER_LONG") {
            Some(ButtonEvent::TareSuperLong)
        } else if same_text(name, "CONTEXT") {
            Some(ButtonEvent::Context)
        } else if same_text(name, "ENCODER_PRESSED") {
            Some(ButtonEvent::EncoderPressed)
        } else if same_text(name, "ENCODER_RELEASED") {
            Some(ButtonEvent::EncoderReleased)
        } else if same_text(name, "TARE_PRESSED") {
            Some(ButtonEvent::TarePressed)
        } else if same_text(name, "TARE_RELEASED") {
            Some(ButtonEvent::TareReleased)
        } else if same_text(name, "CONTEXT_PRESSED") {
            Some(ButtonEvent::ContextPressed)
        } else if same_text(name, "CONTEXT_RELEASED") {
            Some(ButtonEvent::ContextReleased)
        } else if same_text(name, "UNKNOWN") {
            Some(ButtonEvent::Unknown)
        } else {
            None
        }
    }
}

/// The event with the given member name.
pub open spec fn named_event(name: Seq<char>) -> Option<ButtonEvent> {
    if name == "ENCODER_CLOCKWISE"@ {
        Some(ButtonEvent::EncoderClockwise)
    } else if name == "ENCODER_COUNTERCLOCKWISE"@ {
        Some(ButtonEvent::EncoderCounterclockwise)
    } else if name == "ENCODER_PUSH"@ {
        Some(ButtonEvent::EncoderPush)
    } else if name == "ENCODER_DOUBLE"@ {
        Some(ButtonEvent::EncoderDouble)
    } else if name == "ENCODER_LONG"@ {
        Some(ButtonEvent::EncoderLong)
    } else if name == "TARE"@ {
        Some(ButtonEvent::Tare)
    } else if name == "TARE_DOUBLE"@ {
        Some(ButtonEvent::TareDouble)
    } else if name == "TARE_LONG"@ {
        Some(ButtonEvent::TareLong)
    } else if name == "TARE_SUPER_LONG"@ {
        Some(ButtonEvent::TareSuperLong)
    } else if name == "CONTEXT"@ {
        Some(ButtonEvent::Context)
    } else if name == "ENCODER_PRESSED"@ {
        Some(ButtonEvent::EncoderPressed)
    } else if name == "ENCODER_RELEASED"@ {
        Some(ButtonEvent::EncoderReleased)
    } else if name == "TARE_PRESSED"@ {
        Some(ButtonEvent::TarePressed)
    } else if name == "TARE_RELEASED"@ {
        Some(ButtonEvent::TareReleased)
    } else if name == "CONTEXT_PRESSED"@ {
        Some(ButtonEvent::ContextPressed)
    } else if name == "CONTEXT_RELEASED"@ {
        Some(ButtonEvent::ContextReleased)
    } else if name == "UNKNOWN"@ {
        Some(ButtonEvent::Unknown)
    } else {
        None
    }
}

/// The event that a wire token stands for.
pub open spec fn token_event(token: Seq<char>) -> Option<ButtonEvent> {
    if token == "CW"@ {
        Some(ButtonEvent::EncoderClockwise)
    } else if token == "CCW"@ {
        Some(ButtonEvent::EncoderCounterclockwise)
    } else if token == "push"@ {
        Some(ButtonEvent::EncoderPush)
    } else if token == "pu_d"@ {
        Some(ButtonEvent::EncoderDouble)
    } else if token == "elng"@ {
        Some(ButtonEvent::EncoderLong)
    } else if token == "tare"@ {
        Some(ButtonEvent::Tare)
    } else if token == "ta_d"@ {
        Some(ButtonEvent::TareDouble)
    } else if token == "ta_l"@ {
        Some(ButtonEvent::TareLong)
    } else if token == "ta_sl"@ {
        Some(ButtonEvent::TareSuperLong)
    } else if token == "strt"@ || token == "cntx"@ {
        Some(ButtonEvent::Context)
    } else if token == "encoder_button_pressed"@ {
        Some(ButtonEvent::EncoderPressed)
    } else if token == "encoder_button_released"@ {
        Some(ButtonEvent::EncoderReleased)
    } else if token == "tare_pressed"@ {
        Some(ButtonEvent::TarePressed)
    } else if token == "tare_released"@ {
        Some(ButtonEvent::TareReleased)
    } else if token == "context_pressed"@ {
        Some(ButtonEvent::ContextPressed)
    } else if token == "context_released"@ {
        Some(ButtonEvent::ContextReleased)
    } else {
        None
    }
}

/// The event that a wire text stands for: a token, or a member name in any
/// case.
pub open spec fn wire_event(text: Seq<char>) -> Option<ButtonEvent> {
    match token_event(text) {
        Some(event) => Some(event),
        None => named_event(upper(text)),
    }
}

/// A button event with the time since the previous one.
#[derive(Debug, Clone, Copy, PartialEq, Eq, Structural)]
pub struct ButtonEventData {
    /// The decoded event.
    pub event: ButtonEvent,
    /// Milliseconds since the previous event; the firmware caps at
    /// `9999+++`, which counts as 10000. Unparsable values count as 0.
    pub time_since_last_event: i64,
}

/// The time that the second argument of a button message gives.
pub open spec fn event_time(args: Seq<Seq<char>>) -> int {
    if args.len() < 2 {
        0
    } else if args[1] == "9999+++"@ {
        10000
    } else {
        match py_int_value(args[1]) {
            Some(v) => v,
            None => 0,
        }
    }
}

/// What a button message stands for.
pub open spec fn button_message(args: Seq<Seq<char>>) -> Option<ButtonEventData> {
    if args.len() == 0 {
        None
    } else {
        match wire_event(args[0]) {
            Some(event) => Some(
                ButtonEventData { event, time_since_last_event: event_time(args) as i64 },
            ),
            None => None,
        }
    }
}

impl ButtonEventData {
    /// Parses the arguments of a bare button token or of an `Event,...`
    /// message. Nothing for an unknown event or an empty argument list.
    pub fn from_args(args: &[&str]) -> (r: Option<Self>)
        ensures
            r == button_message(texts(args@)),
    {
        if args.len() == 0 {
            return None;
        }
        let mut time_since_last_event: i64 = 0;
        if args.len() > 1 {
            if same_text(args[1], "9999+++") {
                time_since_last_event = 10000;
            } else {
                match py_int(args[1]) {
                    Some(v) => {
                        time_since_last_event = v;
                    },
                    None => {},
                }
            }
        }
        match ButtonEvent::from_wire(args[0]) {
            Some(event) => Some(ButtonEventData { event, time_since_last_event }),
            None => None,
        }
    }

    /// The payload of the `button` socket.io event.
    pub open spec fn sio(self) -> JsonView {
        JsonView::Object(
            seq![
                ("type"@, JsonView::Text(self.event.name_text())),
                ("time_since_last_event"@, JsonView::Integer(self.time_since_last_event as int)),
            ],
        )
    }

    /// The payload of the `button` socket.io event.
    pub fn to_sio(&self) -> (r: Json)
        ensures
            r.tree() == self.sio(),
    {
        let mut m = Members::new();
        m.add("type", Json::string(self.event.name()));
        m.add("time_since_last_event", Json::Integer(self.time_since_last_event));
        assert(m@ =~= self.sio()->Object_0);
        m.build()
    }
}

/// Member names are spelled in capitals and underscores.
pub proof fn lemma_names(e: ButtonEvent)
    ensures
        e.name_text().len() >= 4,
        'A' <= e.name_text()[0] <= 'Z',
        forall|i: int|
            0 <= i < e.name_text().len() ==> 'A' <= #[trigger] e.name_text()[i] <= 'Z'
                || e.name_text()[i] == '_',
        named_event(e.name_text()) == Some(e),
{
    reveal_strlit("ENCODER_CLOCKWISE");
    reveal_strlit("ENCODER_COUNTERCLOCKWISE");
    reveal_strlit("ENCODER_PUSH");
    reveal_strlit("ENCODER_DOUBLE");
    reveal_strlit("ENCODER_LONG");
    reveal_strlit("TARE");
    reveal_strlit("TARE_DOUBLE");
    reveal_strlit("TARE_LONG");
    reveal_strlit("TARE_SUPER_LONG");
    reveal_strlit("CONTEXT");
    reveal_strlit("ENCODER_PRESSED");
    reveal_strlit("ENCODER_RELEASED");
    reveal_strlit("TARE_PRESSED");
    reveal_strlit("TARE_RELEASED");
    reveal_strlit("CONTEXT_PRESSED");
    reveal_strlit("CONTEXT_RELEASED");
    reveal_strlit("UNKNOWN");
    assert("ENCODER_CLOCKWISE"@.len() == 17);
    assert("ENCODER_COUNTERCLOCKWISE"@.len() == 24);
    assert("ENCODER_PUSH"@.len() == 12);
    assert("ENCODER_DOUBLE"@.len() == 14);
    assert("ENCODER_LONG"@.len() == 12);
    assert("TARE"@.len() == 4);
    assert("TARE_DOUBLE"@.len() == 11);
    assert("TARE_LONG"@.len() == 9);
    assert("TARE_SUPER_LONG"@.len() == 15);
    assert("CONTEXT"@.len() == 7);
    assert("ENCODER_PRESSED"@.len() == 15);
    assert("ENCODER_RELEASED"@.len() == 16);
    assert("TARE_PRESSED"@.len() == 12);
    assert("TARE_RELEASED"@.len() == 13);
    assert("CONTEXT_PRESSED"@.len() == 15);
    assert("CONTEXT_RELEASED"@.len() == 16);
    assert("UNKNOWN"@.len() == 7);
    assert("ENCODER_PUSH"@[8] == 'P' && "ENCODER_LONG"@[8] == 'L' && "TARE_PRESSED"@[8] == 'S');
    assert("TARE_SUPER_LONG"@[0] == 'T' && "ENCODER_PRESSED"@[0] == 'E' && "CONTEXT_PRESSED"@[0]
        == 'C');
    assert("ENCODER_RELEASED"@[0] == 'E' && "CONTEXT_RELEASED"@[0] == 'C');
    assert("CONTEXT"@[0] == 'C' && "UNKNOWN"@[0] == 'U');
}

/// Every event is read back from its own member name.
pub proof fn law_event_names_are_read_back(e: ButtonEvent)
    ensures
        wire_event(e.name_text()) == Some(e),
{
    lemma_names(e);
    let n = e.name_text();
    lemma_tokens();
    assert(token_event(n) is None);
    assert(is_ascii_chars(n));
    assert(ascii_upper(n) =~= n);
}

/// Member names are read in any case: an ASCII text whose capitals spell the
/// name of an event stands for that event.
pub proof fn law_event_names_in_any_case(text: Seq<char>, e: ButtonEvent)
    requires
        is_ascii_chars(text),
        ascii_upper(text) == e.name_text(),
    ensures
        wire_event(text) == Some(e),
{
    lemma_names(e);
    lemma_tokens();
    lemma_token_names(text);
}

/// Wire tokens are short or start with a small letter.
proof fn lemma_tokens()
    ensures
        forall|t: Seq<char>| #[trigger]
            token_event(t) is Some ==> t.len() < 4 || 'a' <= t[0] <= 'z',
{
    reveal_strlit("CW");
    reveal_strlit("CCW");
    reveal_strlit("push");
    reveal_strlit("pu_d");
    reveal_strlit("elng");
    reveal_strlit("tare");
    reveal_strlit("ta_d");
    reveal_strlit("ta_l");
    reveal_strlit("ta_sl");
    reveal_strlit("strt");
    reveal_strlit("cntx");
    reveal_strlit("encoder_button_pressed");
    reveal_strlit("encoder_button_released");
    reveal_strlit("tare_pressed");
    reveal_strlit("tare_released");
    reveal_strlit("context_pressed");
    reveal_strlit("context_released");
}

/// A wire token whose capitals spell a member name stands for the event of
/// that name.
proof fn lemma_token_names(t: Seq<char>)
    ensures
        token_event(t) is Some && named_event(ascii_upper(t)) is Some ==> named_event(
            ascii_upper(t),
        ) == token_event(t),
{
    if token_event(t) is Some && named_event(ascii_upper(t)) is Some {
        let e = named_event(ascii_upper(t))->0;
        let u = ascii_upper(t);
        lemma_names(e);
        lemma_named(u);
        reveal_strlit("CW");
        reveal_strlit("CCW");
        reveal_strlit("push");
        reveal_strlit("pu_d");
        reveal_strlit("elng");
        reveal_strlit("tare");
        reveal_strlit("ta_d");
        reveal_strlit("ta_l");
        reveal_strlit("ta_sl");
        reveal_strlit("strt");
        reveal_strlit("cntx");
        reveal_strlit("encoder_button_pressed");
        reveal_strlit("encoder_button_released");
        reveal_strlit("tare_pressed");
        reveal_strlit("tare_released");
        reveal_strlit("context_pressed");
        reveal_strlit("context_released");
        assert("CW"@.len() == 2);
        assert("CCW"@.len() == 3);
        assert("push"@.len() == 4);
        assert("pu_d"@.len() == 4);
        assert("elng"@.len() == 4);
        assert("tare"@.len() == 4);
        assert("ta_d"@.len() == 4);
        assert("ta_l"@.len() == 4);
        assert("ta_sl"@.len() == 5);
        assert("strt"@.len() == 4);
        assert("cntx"@.len() == 4);
        assert("encoder_button_pressed"@.len() == 22);
        assert("encoder_button_released"@.len() == 23);
        assert("tare_pressed"@.len() == 12);
        assert("tare_released"@.len() == 13);
        assert("context_pressed"@.len() == 15);
        assert("context_released"@.len() == 16);
        assert(u.len() == t.len());
        assert(u[0] == ascii_upper_char(t[0]) && u[2] == ascii_upper_char(t[2]));
        reveal_strlit("TARE");
        reveal_strlit("TARE_PRESSED");
        reveal_strlit("TARE_RELEASED");
        reveal_strlit("CONTEXT_PRESSED");
        reveal_strlit("CONTEXT_RELEASED");
        if t == "tare"@ {
            assert(u =~= "TARE"@);
        } else if t == "tare_pressed"@ {
            assert(u =~= "TARE_PRESSED"@);
        } else if t == "tare_released"@ {
            assert(u =~= "TARE_RELEASED"@);
        } else if t == "context_pressed"@ {
            assert(u =~= "CONTEXT_PRESSED"@);
        } else if t == "context_released"@ {
            assert(u =~= "CONTEXT_RELEASED"@);
        } else {
            assert("TARE"@[0] == 'T' && "TARE"@[2] == 'R');
            assert(u.len() == 4 ==> u[0] != 'T' || u[2] != 'R');
        }
    }
}

/// How long member names are, and that a text is the name of its event.
proof fn lemma_named(name: Seq<char>)
    ensures
        named_event(name) matches Some(e) ==> name == e.name_text() && (name.len() == 4 ==> name
            == "TARE"@) && name.len() != 5 && name.len() != 22 && name.len() != 23 && name.len()
            >= 4,
        named_event("TARE"@) == Some(ButtonEvent::Tare),
        named_event("TARE_PRESSED"@) == Some(ButtonEvent::TarePressed),
        named_event("TARE_RELEASED"@) == Some(ButtonEvent::TareReleased),
        named_event("CONTEXT_PRESSED"@) == Some(ButtonEvent::ContextPressed),
        named_event("CONTEXT_RELEASED"@) == Some(ButtonEvent::ContextReleased),
{
    reveal_strlit("ENCODER_CLOCKWISE");
    reveal_strlit("ENCODER_COUNTERCLOCKWISE");
    reveal_strlit("ENCODER_PUSH");
    reveal_strlit("ENCODER_DOUBLE");
    reveal_strlit("ENCODER_LONG");
    reveal_strlit("TARE");
    reveal_strlit("TARE_DOUBLE");
    reveal_strlit("TARE_LONG");
    reveal_strlit("TARE_SUPER_LONG");
    reveal_strlit("CONTEXT");
    reveal_strlit("ENCODER_PRESSED");
    reveal_strlit("ENCODER_RELEASED");
    reveal_strlit("TARE_PRESSED");
    reveal_strlit("TARE_RELEASED");
    reveal_strlit("CONTEXT_PRESSED");
    reveal_strlit("CONTEXT_RELEASED");
    reveal_strlit("UNKNOWN");
    assert("ENCODER_CLOCKWISE"@.len() == 17);
    assert("ENCODER_COUNTERCLOCKWISE"@.len() == 24);
    assert("ENCODER_PUSH"@.len() == 12);
    assert("ENCODER_DOUBLE"@.len() == 14);
    assert("ENCODER_LONG"@.len() == 12);
    assert("TARE"@.len() == 4);
    assert("TARE_DOUBLE"@.len() == 11);
    assert("TARE_LONG"@.len() == 9);
    assert("TARE_SUPER_LONG"@.len() == 15);
    assert("CONTEXT"@.len() == 7);
    assert("ENCODER_PRESSED"@.len() == 15);
    assert("ENCODER_RELEASED"@.len() == 16);
    assert("TARE_PRESSED"@.len() == 12);
    assert("TARE_RELEASED"@.len() == 13);
    assert("CONTEXT_PRESSED"@.len() == 15);
    assert("CONTEXT_RELEASED"@.len() == 16);
    assert("UNKNOWN"@.len() == 7);
    lemma_names(ButtonEvent::Tare);
    lemma_names(ButtonEvent::TarePressed);
    lemma_names(ButtonEvent::TareReleased);
    lemma_names(ButtonEvent::ContextPressed);
    lemma_names(ButtonEvent::ContextReleased);
}

}
