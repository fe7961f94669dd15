//! What the environment and the debug console ask for.

use crate::command::{named_action, EspAction};
use crate::digits::{all_digits, digits_value, is_digit};
use crate::letters::{upper, uppercase};
use crate::runtime::DaemonCommand;
use crate::text::{chars_of, owned, same_text, trim_text, trimmed, CharSet};
use vstd::prelude::*;

verus! {

/// How the chip is reached.
#[derive(Clone, Copy, Debug, PartialEq, Eq, Structural)]
pub enum Backend {
    /// Fixture playback.
    Emulator,
    /// A serial port without pins.
    Usb,
    /// The serial port and the pins of the machine.
    Fika,
}

/// The backend that a name stands for, in either case; everything but the
/// emulator and USB is the machine itself.
pub open spec fn named_backend(name: Seq<char>) -> Backend {
    let key = upper(name);
    if key == "EMULATOR"@ || key == "EMULATION"@ {
        Backend::Emulator
    } else if key == "USB"@ {
        Backend::Usb
    } else {
        Backend::Fika
    }
}

/// The backend that a name stands for.
pub fn backend(name: &str) -> (r: Backend)
    ensures
        r == named_backend(name@),
{
    let key = uppercase(name);
    if same_text(key.as_str(), "EMULATOR") || same_text(key.as_str(), "EMULATION") {
        Backend::Emulator
    } else if same_text(key.as_str(), "USB") {
        Backend::Usb
    } else {
        Backend::Fika
    }
}

/// The backend where none is configured: the machine on Linux, the emulator
/// elsewhere.
pub fn default_backend(linux: bool) -> (r: &'static str)
    ensures
        r@ == if linux {
            "FIKA"@
        } else {
            "EMULATOR"@
        },
{
    if linux {
        "FIKA"
    } else {
        "EMULATOR"
    }
}

/// Where the fixtures lie unless configured otherwise.
pub const DEFAULT_EMULATION_DIR: &'static str = "esp_serial/connection";

/// The serial device of a backend unless configured otherwise.
pub fn default_device(backend: Backend) -> (r: &'static str)
    ensures
        r@ == if backend == Backend::Usb {
            "/dev/ttyUSB0"@
        } else {
            "/dev/ttymxc0"@
        },
{
    if backend == Backend::Usb {
        "/dev/ttyUSB0"
    } else {
        "/dev/ttymxc0"
    }
}

/// A configured text, or the default where none is configured.
pub fn configured_or(value: Option<String>, default: &str) -> (r: String)
    ensures
        r@ == match value {
            Some(v) => v@,
            None => default@,
        },
{
    match value {
        Some(v) => v,
        None => owned(default),
    }
}

/// The digits of an unsigned number: one plus sign may lead.
pub open spec fn unsigned_digits(s: Seq<char>) -> Seq<char> {
    if s.len() > 0 && s[0] == '+' {
        s.skip(1)
    } else {
        s
    }
}

/// The unsigned number that a text denotes, where it is at most `max`.
pub open spec fn unsigned_value(s: Seq<char>, max: int) -> Option<int> {
    let digits = unsigned_digits(s);
    if digits.len() > 0 && all_digits(digits) && digits_value(digits) <= max {
        Some(digits_value(digits) as int)
    } else {
        None
    }
}

/// A number of digits is not below that of its beginning.
proof fn lemma_digits_grow(s: Seq<char>, n: int)
    requires
        0 <= n <= s.len(),
    ensures
        digits_value(s.take(n)) <= digits_value(s),
    decreases s.len() - n,
{
    if n < s.len() {
        lemma_digits_grow(s, n + 1);
        assert(s.take(n + 1).drop_last() =~= s.take(n));
    } else {
        assert(s.take(n) =~= s);
    }
}

/// Reads an unsigned number of at most `max`.
fn read_unsigned(s: &str, max: u64) -> (r: Option<u64>)
    ensures
        (match r {
            Some(v) => Some(v as int),
            None => None,
        }) == unsigned_value(s@, max as int),
{
    let chars = chars_of(s);
    let total: usize = chars.len();
    let start: usize = if total > 0 && chars[0] == '+' {
        1
    } else {
        0
    };
    let ghost digits = unsigned_digits(s@);
    assert(digits =~= s@.skip(start as int));
    if total == start {
        return None;
    }
    let mut v: u64 = 0;
    let mut i: usize = start;
    assert(digits.take(0) =~= Seq::<char>::empty());
    while i < total
        invariant
            total == chars@.len(),
            chars@ == s@,
            start <= i <= total,
            digits == s@.skip(start as int),
            digits == unsigned_digits(s@),
            v <= max,
            v == digits_value(digits.take(i - start)),
            forall|j: int| 0 <= j < i - start ==> is_digit(#[trigger] digits[j]),
        decreases total - i,
    {
        let c = chars[i];
        let ghost n = i - start;
        assert(digits[n] == c);
        if c < '0' || c > '9' {
            assert(!is_digit(digits[n]));
            return None;
        }
        let digit: u64 = (c as u8 - 48) as u64;
        let next: u128 = v as u128 * 10 + digit as u128;
        assert(digits.take(n + 1).drop_last() =~= digits.take(n));
        assert(digits_value(digits.take(n + 1)) == next);
        if next > max as u128 {
            proof {
                lemma_digits_grow(digits, n + 1);
            }
            return None;
        }
        v = next as u64;
        i = i + 1;
    }
    assert(digits.take(digits.len() as int) =~= digits);
    Some(v)
}

/// The emulation speed in percent; 100 where the text is no number.
pub fn emulation_speed(text: &str) -> (r: u32)
    ensures
        r == match unsigned_value(text@, u32::MAX as int) {
            Some(v) => v,
            None => 100,
        },
{
    match read_unsigned(text, 0xffff_ffff) {
        Some(v) => v as u32,
        None => 100,
    }
}

/// The delay of the alive check in seconds; 60 where the text is no number.
pub fn alive_check_seconds(text: &str) -> (r: u64)
    ensures
        r == match unsigned_value(text@, u64::MAX as int) {
            Some(v) => v,
            None => 60,
        },
{
    match read_unsigned(text, u64::MAX) {
        Some(v) => v,
        None => 60,
    }
}

/// What a line of the debug console asks for.
#[derive(Debug)]
pub enum ConsoleInput {
    /// Nothing.
    Blank,
    /// No known command.
    Unknown,
    /// This command.
    Command(DaemonCommand),
}

/// The command that a word of the debug console stands for: `reset`,
/// `bootloader`, `pause`, `resume`, or an action.
pub open spec fn word_command(word: Seq<char>) -> Option<DaemonCommand> {
    if word == "reset"@ {
        Some(DaemonCommand::Reset { bootloader: false })
    } else if word == "bootloader"@ {
        Some(DaemonCommand::Reset { bootloader: true })
    } else if word == "pause"@ {
        Some(DaemonCommand::Pause)
    } else if word == "resume"@ {
        Some(DaemonCommand::Resume)
    } else {
        match named_action(word) {
            Some(action) => Some(DaemonCommand::Action(action)),
            None => None,
        }
    }
}

/// What a line of the debug console asks for.
pub open spec fn console_input(line: Seq<char>) -> ConsoleInput {
    let word = trimmed(line, CharSet::WhiteSpace);
    if word.len() == 0 {
        ConsoleInput::Blank
    } else {
        match word_command(word) {
            Some(command) => ConsoleInput::Command(command),
            None => ConsoleInput::Unknown,
        }
    }
}

/// Reads a line of the debug console.
pub fn read_console(line: &str) -> (r: ConsoleInput)
    ensures
        r == console_input(line@),
{
    let word = trim_text(line, CharSet::WhiteSpace);
    if word.unicode_len() == 0 {
        ConsoleInput::Blank
    } else if same_text(word, "reset") {
        ConsoleInput::Command(DaemonCommand::Reset { bootloader: false })
    } else if same_text(word, "bootloader") {
        ConsoleInput::Command(DaemonCommand::Reset { bootloader: true })
    } else if same_text(word, "pause") {
        ConsoleInput::Command(DaemonCommand::Pause)
    } else if same_text(word, "resume") {
        ConsoleInput::Command(DaemonCommand::Resume)
    } else {
        match EspAction::from_wire(word) {
            Some(action) => ConsoleInput::Command(DaemonCommand::Action(action)),
            None => ConsoleInput::Unknown,
        }
    }
}

/// Every action can be asked for by its wire token on the debug console.
pub proof fn law_actions_are_console_words(action: EspAction)
    ensures
        console_input(action.wire_text()) == ConsoleInput::Command(DaemonCommand::Action(action)),
{
    crate::command::law_action_names_are_read_back(action);
    reveal_strlit("start");
    reveal_strlit("stop");
    reveal_strlit("tare");
    reveal_strlit("scale_master_calibration");
    reveal_strlit("preheat");
    reveal_strlit("continue");
    reveal_strlit("home");
    reveal_strlit("purge");
    reveal_strlit("info");
    reveal_strlit("reset");
    reveal_strlit("bootloader");
    reveal_strlit("pause");
    reveal_strlit("resume");
    assert("reset"@.len() == 5 && "reset"@[0] == 'r');
    assert("bootloader"@.len() == 10);
    assert("pause"@.len() == 5 && "pause"@[0] == 'p' && "pause"@[1] == 'a');
    assert("resume"@.len() == 6);
    assert("start"@.len() == 5 && "start"@[0] == 's');
    assert("stop"@.len() == 4);
    assert("tare"@.len() == 4);
    assert("scale_master_calibration"@.len() == 24);
    assert("preheat"@.len() == 7);
    assert("continue"@.len() == 8);
    assert("home"@.len() == 4);
    assert("purge"@.len() == 5 && "purge"@[0] == 'p' && "purge"@[1] == 'u');
    assert("info"@.len() == 4);
    crate::text::lemma_trimmed_fixed(action.wire_text(), CharSet::WhiteSpace);
}

}
