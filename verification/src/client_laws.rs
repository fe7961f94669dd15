//! What clients, the debug console and the environment ask for.

use crate::command::{law_action_names_are_read_back, law_read_actions_keep_their_name, EspAction};
use crate::command_laws::action_word;
use crate::config::{console_input, named_backend, unsigned_value, Backend, ConsoleInput};
use crate::digits::{all_digits, is_digit, lemma_nat_text, nat_text};
use crate::gpio::{reset_sequence, PinStep};
use crate::letters::{ascii_lower, ascii_lower_char, ascii_upper, ascii_upper_char};
use crate::protocol::{digit_pair, hex_bytes, ClientCommand, FrameView};
use crate::runtime::{CommandView, DaemonCommand};
use crate::server::{blank, input_commands, input_frames, translated, SessionInput};
use crate::text::CharSet;
use crate::text_laws::{
    all_padding, is_padding, law_hexadecimal_digits, law_trimming_takes_the_padding, sixteenth,
};
use crate::transport::{read_outcome, read_rest, OutcomeView, PortRead};
use vstd::prelude::*;
use vstd::utf8::{encode_utf8, is_ascii_chars};

verus! {

// ---------------------------------------------------------------------------
// Commands of clients
// ---------------------------------------------------------------------------

/// An action reaches the daemon under its name, and under no other.
pub proof fn law_client_actions(name: String, action: EspAction)
    ensures
        ({
            let asked = translated(ClientCommand::Action { name });
            &&& asked == Some(CommandView::Action(action)) <==> name@ == action_word(action)
            &&& asked matches Some(command) ==> command is Action
        }),
{
    law_action_names_are_read_back(action);
    law_read_actions_keep_their_name(name@);
}

/// Two hexadecimal digits denote the byte at `i` by their places.
pub open spec fn denotes(digits: Seq<u8>, bytes: Seq<u8>, i: int) -> bool {
    let hi = sixteenth(digits[2 * i]);
    let lo = sixteenth(digits[2 * i + 1]);
    hi is Some && lo is Some && bytes[i] == 16 * hi->0 + lo->0
}

/// Digits denote bytes.
pub open spec fn denote(digits: Seq<u8>, bytes: Seq<u8>) -> bool {
    digits.len() == 2 * bytes.len() && forall|i: int|
        0 <= i < bytes.len() ==> #[trigger] denotes(digits, bytes, i)
}

/// Raw bytes reach the daemon as the bytes that the digits denote, and only
/// where there are two hexadecimal digits for each byte.
pub proof fn law_client_bytes(hex: String, bytes: Seq<u8>)
    ensures
        translated(ClientCommand::WriteRaw { hex }) == Some(CommandView::WriteRaw(bytes)) <==> denote(
            encode_utf8(hex@),
            bytes,
        ),
        translated(ClientCommand::WriteRaw { hex }) matches Some(command) ==> command is WriteRaw,
{
    let digits = encode_utf8(hex@);
    assert forall|i: int| 0 <= i < digits.len() / 2 implies #[trigger] digit_pair(digits, i) == (
    match (sixteenth(digits[2 * i]), sixteenth(digits[2 * i + 1])) {
        (Some(a), Some(b)) => Some((16 * a + b) as u8),
        _ => None,
    }) by {
        law_hexadecimal_digits(digits[2 * i], digits[2 * i + 1]);
    }
    if denote(digits, bytes) {
        assert forall|i: int| 0 <= i < digits.len() / 2 implies #[trigger] digit_pair(digits, i)
            == Some(bytes[i]) by {
            assert(denotes(digits, bytes, i));
        }
        assert(hex_bytes(digits)->0 =~= bytes);
    }
    if let Some(found) = hex_bytes(digits) {
        assert(digits.len() == 2 * found.len());
        assert forall|i: int| 0 <= i < found.len() implies #[trigger] denotes(
            digits,
            found,
            i,
        ) by {
            assert(digit_pair(digits, i) is Some);
            assert(digit_pair(digits, i) == Some(found[i]));
        }
        assert(denote(digits, found));
    }
}

/// The other commands reach the daemon as they are, and a request for a
/// snapshot does not reach it.
pub proof fn law_other_client_commands(profile: serde_json::Value, bootloader: bool)
    ensures
        translated(ClientCommand::SendProfile { profile }) == Some(
            CommandView::SendProfile(profile),
        ),
        translated(ClientCommand::Reset { bootloader }) == Some(CommandView::Reset { bootloader }),
        translated(ClientCommand::ReleasePort { bootloader }) == Some(
            CommandView::ReleasePort { bootloader },
        ),
        translated(ClientCommand::AcquirePort) == Some(CommandView::AcquirePort),
        translated(ClientCommand::GetSnapshot) is None,
{
}

/// A line is blank exactly where it is all white space.
pub proof fn law_blank_lines(line: Seq<char>)
    ensures
        blank(line) <==> all_padding(CharSet::WhiteSpace, line),
{
    let set = CharSet::WhiteSpace;
    let none = Seq::<char>::empty();
    if all_padding(set, line) {
        assert(none + none + line =~= line);
        law_trimming_takes_the_padding(none, none, line, set);
    } else {
        let i = choose|i: int| 0 <= i < line.len() && !is_padding(set, #[trigger] line[i]);
        let front = crate::text::trim_front(line, set);
        lemma_trim_front_keeps(line, set, i);
        let j = i - (line.len() - front.len());
        assert(front[j] == line[i]);
        crate::text::lemma_trim_back_stops(front, set, j);
    }
}

/// Trimming the front does not go past a character that is no padding.
proof fn lemma_trim_front_keeps(s: Seq<char>, set: CharSet, i: int)
    requires
        0 <= i < s.len(),
        !is_padding(set, s[i]),
    ensures
        ({
            let front = crate::text::trim_front(s, set);
            let cut = s.len() - front.len();
            &&& 0 <= cut <= i
            &&& front == s.skip(cut)
        }),
    decreases s.len(),
{
    crate::text::lemma_trim_front(s, set);
    if is_padding(set, s[0]) {
        lemma_trim_front_keeps(s.drop_first(), set, i - 1);
    }
}

/// What a client gets and gives: the greeting when it connects, each event,
/// a snapshot where it asks for one. Its commands go to the daemon; what is
/// no command is passed over.
pub proof fn law_inputs_are_served(input: SessionInput)
    ensures
        input matches SessionInput::Connected { snapshot } ==> input_frames(input) == seq![
            FrameView::Hello { v: 1, snapshot: snapshot@ },
        ],
        input matches SessionInput::Event(event) ==> input_frames(input) == seq![
            FrameView::Event { event: event@ },
        ],
        !(input is Line) ==> input_commands(input).len() == 0,
        input is EventsLost || input is Closed ==> input_frames(input).len() == 0,
        input matches SessionInput::Line { text, command, snapshot } ==> {
            let passed_over = all_padding(CharSet::WhiteSpace, text@) || command is None;
            &&& passed_over ==> input_frames(input).len() == 0 && input_commands(input).len() == 0
            &&& !passed_over && command->0 is GetSnapshot ==> input_frames(input) == seq![
                FrameView::Snapshot { snapshot: snapshot@ },
            ] && input_commands(input).len() == 0
            &&& !passed_over && !(command->0 is GetSnapshot) ==> input_frames(input).len() == 0 && (
            match translated(command->0) {
                Some(asked) => input_commands(input) == seq![asked],
                None => input_commands(input).len() == 0,
            })
        },
{
    if let SessionInput::Line { text, command, snapshot } = input {
        law_blank_lines(text@);
    }
}

// ---------------------------------------------------------------------------
// The debug console
// ---------------------------------------------------------------------------

/// The words of the debug console.
pub open spec fn console_word(command: DaemonCommand) -> Option<Seq<char>> {
    match command {
        DaemonCommand::Action(action) => Some(action_word(action)),
        DaemonCommand::Reset { bootloader } => if bootloader {
            Some("bootloader"@)
        } else {
            Some("reset"@)
        },
        DaemonCommand::Pause => Some("pause"@),
        DaemonCommand::Resume => Some("resume"@),
        _ => None,
    }
}

/// A line of the debug console asks for a command exactly where its word,
/// with any white space around it, is the word of the command.
pub proof fn law_console_lines(
    front: Seq<char>,
    word: Seq<char>,
    back: Seq<char>,
    command: DaemonCommand,
)
    requires
        all_padding(CharSet::WhiteSpace, front),
        all_padding(CharSet::WhiteSpace, back),
        word.len() > 0,
        !is_padding(CharSet::WhiteSpace, word[0]),
        !is_padding(CharSet::WhiteSpace, word.last()),
    ensures
        console_input(front + word + back) == ConsoleInput::Command(command) <==> console_word(
            command,
        ) == Some(word),
        !(console_input(front + word + back) is Blank),
        all_padding(CharSet::WhiteSpace, front + back) ==> console_input(front + back) is Blank,
{
    let set = CharSet::WhiteSpace;
    let none = Seq::<char>::empty();
    law_trimming_takes_the_padding(front, word, back, set);
    assert(front + none + back =~= front + back);
    law_trimming_takes_the_padding(front, none, back, set);
    law_read_actions_keep_their_name(word);
    if let DaemonCommand::Action(action) = command {
        law_action_names_are_read_back(action);
        crate::config::law_actions_are_console_words(action);
        crate::text::lemma_trimmed_fixed(word, set);
    }
    reveal_strlit("reset");
    reveal_strlit("bootloader");
    reveal_strlit("pause");
    reveal_strlit("resume");
    assert("reset"@.len() == 5 && "reset"@[0] == 'r');
    assert("bootloader"@.len() == 10);
    assert("pause"@.len() == 5 && "pause"@[0] == 'p');
    assert("resume"@.len() == 6);
}

// ---------------------------------------------------------------------------
// The environment
// ---------------------------------------------------------------------------

/// The backends go by their names in whatever case; any other name is that of
/// the machine.
pub proof fn law_backend_names(name: Seq<char>)
    requires
        is_ascii_chars(name),
    ensures
        named_backend(name) == Backend::Emulator <==> ascii_lower(name) == "emulator"@
            || ascii_lower(name) == "emulation"@,
        named_backend(name) == Backend::Usb <==> ascii_lower(name) == "usb"@,
{
    reveal_strlit("EMULATOR");
    reveal_strlit("EMULATION");
    reveal_strlit("USB");
    reveal_strlit("emulator");
    reveal_strlit("emulation");
    reveal_strlit("usb");
    assert(ascii_upper("emulator"@) =~= "EMULATOR"@);
    assert(ascii_upper("emulation"@) =~= "EMULATION"@);
    assert(ascii_upper("usb"@) =~= "USB"@);
    assert(ascii_lower("EMULATOR"@) =~= "emulator"@);
    assert(ascii_lower("EMULATION"@) =~= "emulation"@);
    assert(ascii_lower("USB"@) =~= "usb"@);
    assert(ascii_upper(ascii_lower(name)) =~= ascii_upper(name)) by {
        assert forall|i: int| 0 <= i < name.len() implies ascii_upper_char(
            ascii_lower_char(#[trigger] name[i]),
        ) == ascii_upper_char(name[i]) by {}
    }
    assert(ascii_lower(ascii_upper(name)) =~= ascii_lower(name)) by {
        assert forall|i: int| 0 <= i < name.len() implies ascii_lower_char(
            ascii_upper_char(#[trigger] name[i]),
        ) == ascii_lower_char(name[i]) by {}
    }
    assert("EMULATOR"@.len() == 8 && "EMULATION"@.len() == 9 && "USB"@.len() == 3);
}

/// A configured number is read as it is written, with or without a plus sign,
/// where it is not too large.
pub proof fn law_configured_numbers(v: nat, max: int)
    ensures
        unsigned_value(nat_text(v), max) == (if v <= max {
            Some(v as int)
        } else {
            None
        }),
        unsigned_value(seq!['+'] + nat_text(v), max) == unsigned_value(nat_text(v), max),
{
    let text = nat_text(v);
    lemma_nat_text(v);
    assert(is_digit(text[0]));
    assert((seq!['+'] + text).skip(1) =~= text);
}

/// A text that holds anything but digits behind at most one plus sign, or no
/// digit, is no configured number.
pub proof fn law_no_configured_numbers(s: Seq<char>, i: int, max: int)
    ensures
        0 <= i < s.len() && !is_digit(s[i]) && (i > 0 || s[0] != '+') ==> unsigned_value(s, max)
            is None,
        s.len() == 0 ==> unsigned_value(s, max) is None,
        s == seq!['+'] ==> unsigned_value(s, max) is None,
{
    if 0 <= i < s.len() && !is_digit(s[i]) && (i > 0 || s[0] != '+') {
        if s[0] == '+' {
            assert(s.skip(1)[i - 1] == s[i]);
            assert(!all_digits(s.skip(1)));
        } else {
            assert(!all_digits(s));
        }
    }
}

// ---------------------------------------------------------------------------
// The port and the pins
// ---------------------------------------------------------------------------

/// What one read of the port makes of the attempt. Bytes up to and with the
/// first line end become the line, and what follows them stays; bytes without
/// a line end all stay, and the attempt goes on. The deadline, a failure and
/// the end of the stream end the attempt and lose nothing.
pub proof fn law_reads(buffered: Seq<u8>, read: PortRead, line: Seq<u8>, rest: Seq<u8>)
    requires
        !buffered.contains(10),
    ensures
        read is Elapsed ==> read_outcome(buffered, read) == Some(OutcomeView::Timeout),
        read matches PortRead::Failed(error) ==> read_outcome(buffered, read) == Some(
            OutcomeView::Error(error@),
        ),
        read matches PortRead::Bytes(bytes) ==> {
            let all = buffered + bytes@;
            &&& bytes@.len() == 0 ==> read_outcome(buffered, read) == Some(
                OutcomeView::Error("serial port EOF"@),
            ) && read_rest(buffered, read) == buffered
            &&& bytes@.len() > 0 && !bytes@.contains(10) ==> read_outcome(buffered, read) is None
                && read_rest(buffered, read) == all
            &&& all == line.push(10) + rest && !line.contains(10) ==> read_outcome(buffered, read)
                == Some(OutcomeView::Line(line.push(10))) && read_rest(buffered, read) == rest
        },
        !(read is Bytes) ==> read_rest(buffered, read) == buffered,
{
    if let PortRead::Bytes(bytes) = read {
        let all = buffered + bytes@;
        crate::transport::lemma_newline(all, 0);
        let at = crate::transport::newline_from(all, 0);
        if bytes@.len() > 0 && !bytes@.contains(10) {
            if at < all.len() {
                if at < buffered.len() {
                    assert(buffered[at] == 10);
                } else {
                    assert(bytes@[at - buffered.len()] == 10);
                }
            }
        }
        if all == line.push(10) + rest && !line.contains(10) {
            let n = line.len() as int;
            assert(all[n] == 10);
            if at < n {
                assert(line[at] == all[at]);
            }
            assert(at <= n);
            assert(all.take(n + 1) =~= line.push(10));
            assert(all.skip(n + 1) =~= rest);
            if bytes@.len() == 0 {
                assert(all =~= buffered);
                assert(buffered[n] == 10);
            }
        }
    }
}

/// The reset sequence, step by step.
pub proof fn law_reset_steps(bootloader: bool)
    ensures
        ({
            let steps = reset_sequence(bootloader);
            &&& steps[0] == PinStep::SetBoot(false)
            &&& steps[1] == PinStep::SetReset(true)
            &&& steps[2] == PinStep::Sleep(100)
            &&& steps[3] == PinStep::SetBoot(bootloader)
            &&& steps[4] == PinStep::SetReset(false)
            &&& !bootloader ==> steps.len() == 5
            &&& bootloader ==> steps.len() == 7 && steps[5] == PinStep::Sleep(100) && steps[6]
                == PinStep::SetBoot(false)
        }),
{
}

}
