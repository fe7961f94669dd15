//! The wire contract with clients: newline-delimited JSON objects, versioned
//! by the hello frame. Clients send commands and observe completion through
//! events, never through replies.

use crate::encoding::{
    hex_byte, hex_digits, hex_text, lemma_hex_digits, lemma_hex_text, read_hex_byte,
};
use crate::events::{EventView, MachineEvent};
use crate::reader::{MachineSnapshot, SnapshotView};
use vstd::prelude::*;
use vstd::utf8::{encode_utf8, is_ascii_chars, is_ascii_chars_encode_utf8};

verus! {

/// Protocol version spoken by this build.
pub const PROTOCOL_VERSION: u32 = 1;

/// Frames that the server sends, one JSON object per line.
#[allow(inconsistent_fields)]
#[derive(Debug)]
pub enum ServerFrame {
    /// First frame on every connection.
    Hello {
        /// Protocol version; the client must refuse to run on a mismatch.
        v: u32,
        /// Machine state at connect time.
        snapshot: MachineSnapshot,
    },
    /// One daemon event.
    Event {
        /// The event.
        event: MachineEvent,
    },
    /// Answer to [`ClientCommand::GetSnapshot`].
    Snapshot {
        /// Current machine state.
        snapshot: MachineSnapshot,
    },
}

/// What a [`ServerFrame`] holds.
pub enum FrameView {
    Hello { v: int, snapshot: SnapshotView },
    Event { event: EventView },
    Snapshot { snapshot: SnapshotView },
}

impl View for ServerFrame {
    type V = FrameView;

    open spec fn view(&self) -> FrameView {
        match self {
            ServerFrame::Hello { v, snapshot } => FrameView::Hello {
                v: *v as int,
                snapshot: snapshot@,
            },
            ServerFrame::Event { event } => FrameView::Event { event: event@ },
            ServerFrame::Snapshot { snapshot } => FrameView::Snapshot { snapshot: snapshot@ },
        }
    }
}

impl Clone for ServerFrame {
    fn clone(&self) -> (r: Self)
        ensures
            r@ == self@,
    {
        match self {
            ServerFrame::Hello { v, snapshot } => ServerFrame::Hello {
                v: *v,
                snapshot: snapshot.clone(),
            },
            ServerFrame::Event { event } => ServerFrame::Event { event: event.clone() },
            ServerFrame::Snapshot { snapshot } => ServerFrame::Snapshot {
                snapshot: snapshot.clone(),
            },
        }
    }
}

/// Frames that the client sends, one JSON object per line.
#[derive(Debug, PartialEq)]
pub enum ClientCommand {
    /// An action, by its wire token: start, stop, tare, purge, home, info, ...
    Action {
        /// The wire token.
        name: String,
    },
    /// Stream a profile.
    SendProfile {
        /// The profile object.
        profile: serde_json::Value,
    },
    /// Raw bytes to the chip, in hexadecimal digits.
    WriteRaw {
        /// The digits.
        hex: String,
    },
    /// Reset the chip.
    Reset {
        /// Hold the chip in its bootloader.
        bootloader: bool,
    },
    /// Flashing handshake, step 1: wait for the `port_released` event.
    ReleasePort {
        /// Put the chip in the bootloader before releasing.
        bootloader: bool,
    },
    /// Flashing handshake, step 2: wait for the `port_resumed` event.
    AcquirePort,
    /// Ask for a fresh [`ServerFrame::Snapshot`].
    GetSnapshot,
}

/// The bytes that hexadecimal digits of either case stand for, two digits for
/// each byte.
pub open spec fn hex_bytes(digits: Seq<u8>) -> Option<Seq<u8>> {
    if digits.len() % 2 == 0 && forall|i: int|
        0 <= i < digits.len() / 2 ==> #[trigger] digit_pair(digits, i) is Some {
        Some(Seq::new((digits.len() / 2) as nat, |i: int| digit_pair(digits, i)->0))
    } else {
        None
    }
}

/// The byte of the digit pair at `i`.
pub open spec fn digit_pair(digits: Seq<u8>, i: int) -> Option<u8> {
    hex_byte(digits[2 * i], digits[2 * i + 1])
}

/// Decodes hexadecimal digits of either case.
pub fn hex_decode(hex: &str) -> (r: Option<Vec<u8>>)
    ensures
        (match r {
            Some(bytes) => Some(bytes@),
            None => None,
        }) == hex_bytes(encode_utf8(hex@)),
{
    let digits = hex.as_bytes();
    let total: usize = digits.len();
    if total % 2 != 0 {
        return None;
    }
    let mut out: Vec<u8> = Vec::new();
    let mut i: usize = 0;
    while i < total
        invariant
            digits@ == encode_utf8(hex@),
            total == digits@.len(),
            total % 2 == 0,
            i <= total,
            i == 2 * out@.len(),
            forall|j: int| 0 <= j < out@.len() ==> #[trigger] digit_pair(digits@, j) is Some,
            forall|j: int|
                0 <= j < out@.len() ==> #[trigger] out@[j] == digit_pair(digits@, j)->0,
        decreases total - i,
    {
        let ghost n = out@.len() as int;
        assert(digit_pair(digits@, n) == hex_byte(digits@[2 * n], digits@[2 * n + 1]));
        match read_hex_byte(digits[i], digits[i + 1]) {
            Some(byte) => out.push(byte),
            None => {
                assert(digit_pair(digits@, n) is None && 0 <= n < digits@.len() / 2);
                return None;
            },
        }
        i = i + 2;
    }
    assert(out@ =~= hex_bytes(digits@)->0);
    Some(out)
}

/// Decoding undoes encoding: the hexadecimal digits of bytes stand for these
/// bytes.
pub proof fn law_hex_is_read_back(bytes: Seq<u8>)
    ensures
        hex_bytes(encode_utf8(hex_text(bytes))) == Some(bytes),
{
    let text = hex_text(bytes);
    let digits = hex_digits(bytes);
    lemma_hex_digits(bytes);
    lemma_hex_text(bytes);
    assert(is_ascii_chars(text));
    is_ascii_chars_encode_utf8(text);
    let encoded = encode_utf8(text);
    assert forall|i: int| 0 <= i < digits.len() implies #[trigger] encoded[i] == digits[i] by {
        assert(text[i] as u8 == encoded[i]);
        assert(digits[i] < 0x80);
    }
    assert(encoded =~= digits);
    assert forall|i: int| 0 <= i < bytes.len() implies #[trigger] digit_pair(encoded, i) == Some(
        bytes[i],
    ) by {
        assert(hex_byte(digits[2 * i], digits[2 * i + 1]) == Some(bytes[i]));
    }
    assert(hex_bytes(encoded)->0 =~= bytes);
}

}
