//! Line-level dispatch: a line is a list of comma-separated tokens, and the
//! first one names the message family.

use crate::button::{button_message, ButtonEventData};
use crate::esp_info::{info_message, EspInfo, InfoView};
use crate::heater::{heater_message, HeaterTimeoutInfo, HeaterView};
use crate::letters::{ascii_lower, lower, lowercase};
use crate::log::{log_message, EspLog, LogView};
use crate::notify::{notify_message, MachineNotify, NotifyView};
use crate::pynum::{nan_float_value, safe_float_value, strip_crlf};
use crate::search::{
    begins_with, contains_text, lemma_occurs_between, occurs, starts_with_text,
};
use crate::sensor::{color_args, sensor_message, SensorData, SensorView};
use crate::shot::{shot_message, ShotData, ShotView};
use crate::text::{
    join, law_split_undoes_join, lemma_split_head, lemma_split_prefix, lemma_trim_back,
    lemma_trim_back_stops, same_text, split, split_text, texts, trim_back, trim_front, trimmed,
    CharSet,
};
use vstd::prelude::*;
use vstd::slice::slice_subrange;
use vstd::utf8::is_ascii_chars;

verus! {

/// Bare tokens that the firmware sends for button events without an `Event,`
/// prefix.
pub const BARE_BUTTON_TOKENS: [&'static str; 8] = [
    "CCW",
    "CW",
    "push",
    "pu_d",
    "elng",
    "ta_d",
    "ta_l",
    "strt",
];

/// Message family that a line belongs to.
#[derive(Clone, Copy, Debug, PartialEq, Eq, Structural)]
pub enum LineKind {
    Button,
    Data,
    Sensors,
    EspInfo,
    Notify,
    HeaterTimeout,
    Log,
    Unrecognized,
}

impl LineKind {
    /// The name of the family.
    pub open spec fn name_text(self) -> Seq<char> {
        match self {
            LineKind::Button => "button"@,
            LineKind::Data => "data"@,
            LineKind::Sensors => "sensors"@,
            LineKind::EspInfo => "esp_info"@,
            LineKind::Notify => "notify"@,
            LineKind::HeaterTimeout => "heater_timeout"@,
            LineKind::Log => "log"@,
            LineKind::Unrecognized => "unrecognized"@,
        }
    }

    /// Stable lowercase name.
    pub fn name(self) -> (r: &'static str)
        ensures
            r@ == self.name_text(),
    {
        match self {
            LineKind::Button => "button",
            LineKind::Data => "data",
            LineKind::Sensors => "sensors",
            LineKind::EspInfo => "esp_info",
            LineKind::Notify => "notify",
            LineKind::HeaterTimeout => "heater_timeout",
            LineKind::Log => "log",
            LineKind::Unrecognized => "unrecognized",
        }
    }
}

/// A successfully parsed message payload.
#[derive(Debug, PartialEq, Eq)]
pub enum EspMessage {
    Button(ButtonEventData),
    Shot(ShotData),
    Sensors(SensorData),
    Info(EspInfo),
    Notify(MachineNotify),
    HeaterTimeout(HeaterTimeoutInfo),
    Log(EspLog),
}

/// What an [`EspMessage`] holds.
pub enum MessageView {
    Button(ButtonEventData),
    Shot(ShotView),
    Sensors(SensorView),
    Info(InfoView),
    Notify(NotifyView),
    HeaterTimeout(HeaterView),
    Log(LogView),
}

impl View for EspMessage {
    type V = MessageView;

    open spec fn view(&self) -> MessageView {
        match self {
            EspMessage::Button(m) => MessageView::Button(*m),
            EspMessage::Shot(m) => MessageView::Shot(m@),
            EspMessage::Sensors(m) => MessageView::Sensors(m@),
            EspMessage::Info(m) => MessageView::Info(m@),
            EspMessage::Notify(m) => MessageView::Notify(m@),
            EspMessage::HeaterTimeout(m) => MessageView::HeaterTimeout(m@),
            EspMessage::Log(m) => MessageView::Log(m@),
        }
    }
}

impl Clone for EspMessage {
    fn clone(&self) -> (r: Self)
        ensures
            r@ == self@,
            self.wf() ==> r.wf(),
    {
        match self {
            EspMessage::Button(m) => EspMessage::Button(*m),
            EspMessage::Shot(m) => EspMessage::Shot(m.clone()),
            EspMessage::Sensors(m) => EspMessage::Sensors(m.clone()),
            EspMessage::Info(m) => EspMessage::Info(m.clone()),
            EspMessage::Notify(m) => EspMessage::Notify(m.clone()),
            EspMessage::HeaterTimeout(m) => EspMessage::HeaterTimeout(m.clone()),
            EspMessage::Log(m) => EspMessage::Log(m.clone()),
        }
    }
}

impl EspMessage {
    /// The payload is well-formed.
    pub open spec fn wf(&self) -> bool {
        match self {
            EspMessage::Shot(m) => m@.wf(),
            EspMessage::Sensors(m) => m@.wf(),
            EspMessage::Info(m) => m@.wf(),
            EspMessage::HeaterTimeout(m) => m@.wf(),
            EspMessage::Log(m) => m.wf(),
            _ => true,
        }
    }
}

/// The view of an optional payload.
pub open spec fn opt_message(v: Option<EspMessage>) -> Option<MessageView> {
    match v {
        Some(m) => Some(m@),
        None => None,
    }
}

/// The result of dispatching one line.
#[derive(Debug, PartialEq, Eq)]
pub struct ParsedLine {
    /// Which message family the line matched.
    pub kind: LineKind,
    /// The parsed payload; nothing where the family matched but the payload
    /// was malformed.
    pub message: Option<EspMessage>,
}

/// The tokens of a line.
pub open spec fn line_tokens(raw: Seq<char>) -> Seq<Seq<char>> {
    split(trimmed(raw, CharSet::LineEnds), ',')
}

/// One of the bare button tokens.
pub open spec fn is_bare_button(token: Seq<char>) -> bool {
    ||| token == "CCW"@
    ||| token == "CW"@
    ||| token == "push"@
    ||| token == "pu_d"@
    ||| token == "elng"@
    ||| token == "ta_d"@
    ||| token == "ta_l"@
    ||| token == "strt"@
}

/// The family that a prefix names.
pub open spec fn prefix_kind(prefix: Seq<char>) -> LineKind {
    if prefix == "Event"@ {
        LineKind::Button
    } else if prefix == "Data"@ {
        LineKind::Data
    } else if prefix == "Sensors"@ {
        LineKind::Sensors
    } else if prefix == "ESPInfo"@ {
        LineKind::EspInfo
    } else if prefix == "Notify"@ {
        LineKind::Notify
    } else if prefix == "HeaterTimeoutInfo"@ {
        LineKind::HeaterTimeout
    } else if prefix == "Log"@ {
        LineKind::Log
    } else {
        LineKind::Unrecognized
    }
}

/// The family of a list of tokens.
pub open spec fn tokens_kind(tokens: Seq<Seq<char>>) -> LineKind {
    if tokens.len() == 1 && is_bare_button(tokens[0]) {
        LineKind::Button
    } else {
        prefix_kind(tokens[0])
    }
}

/// A button payload.
pub open spec fn button_payload(args: Seq<Seq<char>>) -> Option<MessageView> {
    match button_message(args) {
        Some(m) => Some(MessageView::Button(m)),
        None => None,
    }
}

/// A datapoint payload.
pub open spec fn shot_payload(args: Seq<Seq<char>>) -> Option<MessageView> {
    match shot_message(args) {
        Some(m) => Some(MessageView::Shot(m)),
        None => None,
    }
}

/// A sensor payload: one argument is the color-coded variant.
pub open spec fn sensor_payload(args: Seq<Seq<char>>) -> Option<MessageView> {
    let plain = if args.len() == 1 {
        color_args(args[0])
    } else {
        args
    };
    match sensor_message(plain) {
        Some(m) => Some(MessageView::Sensors(m)),
        None => None,
    }
}

/// An information payload.
pub open spec fn info_payload(args: Seq<Seq<char>>) -> Option<MessageView> {
    match info_message(args) {
        Some(m) => Some(MessageView::Info(m)),
        None => None,
    }
}

/// A notification payload.
pub open spec fn notify_payload(args: Seq<Seq<char>>) -> Option<MessageView> {
    match notify_message(args) {
        Some(m) => Some(MessageView::Notify(m)),
        None => None,
    }
}

/// A heater payload.
pub open spec fn heater_payload(args: Seq<Seq<char>>) -> Option<MessageView> {
    match heater_message(args) {
        Some(m) => Some(MessageView::HeaterTimeout(m)),
        None => None,
    }
}

/// A log payload.
pub open spec fn log_payload(args: Seq<Seq<char>>) -> Option<MessageView> {
    match log_message(args) {
        Some(m) => Some(MessageView::Log(m)),
        None => None,
    }
}

/// The payload that the arguments of a family stand for.
pub open spec fn payload(kind: LineKind, args: Seq<Seq<char>>) -> Option<MessageView> {
    match kind {
        LineKind::Button => button_payload(args),
        LineKind::Data => shot_payload(args),
        LineKind::Sensors => sensor_payload(args),
        LineKind::EspInfo => info_payload(args),
        LineKind::Notify => notify_payload(args),
        LineKind::HeaterTimeout => heater_payload(args),
        LineKind::Log => log_payload(args),
        LineKind::Unrecognized => None,
    }
}

/// The family of a line.
pub open spec fn line_kind(raw: Seq<char>) -> LineKind {
    tokens_kind(line_tokens(raw))
}

/// The payload of a line. A bare button token is its own argument.
pub open spec fn line_message(raw: Seq<char>) -> Option<MessageView> {
    let tokens = line_tokens(raw);
    if tokens.len() == 1 && is_bare_button(tokens[0]) {
        button_payload(tokens)
    } else {
        payload(prefix_kind(tokens[0]), tokens.skip(1))
    }
}

/// Whether a token is one of the bare button tokens.
fn bare_button(token: &str) -> (r: bool)
    ensures
        r == is_bare_button(token@),
{
    for i in 0..8
        invariant
            forall|j: int| 0 <= j < i ==> token@ != (#[trigger] BARE_BUTTON_TOKENS[j])@,
    {
        if same_text(token, BARE_BUTTON_TOKENS[i]) {
            return true;
        }
    }
    assert(token@ != BARE_BUTTON_TOKENS[0]@);
    assert(token@ != BARE_BUTTON_TOKENS[1]@);
    assert(token@ != BARE_BUTTON_TOKENS[2]@);
    assert(token@ != BARE_BUTTON_TOKENS[3]@);
    assert(token@ != BARE_BUTTON_TOKENS[4]@);
    assert(token@ != BARE_BUTTON_TOKENS[5]@);
    assert(token@ != BARE_BUTTON_TOKENS[6]@);
    assert(token@ != BARE_BUTTON_TOKENS[7]@);
    false
}

/// The family that a prefix names.
fn kind_of_prefix(prefix: &str) -> (r: LineKind)
    ensures
        r == prefix_kind(prefix@),
{
    if same_text(prefix, "Event") {
        LineKind::Button
    } else if same_text(prefix, "Data") {
        LineKind::Data
    } else if same_text(prefix, "Sensors") {
        LineKind::Sensors
    } else if same_text(prefix, "ESPInfo") {
        LineKind::EspInfo
    } else if same_text(prefix, "Notify") {
        LineKind::Notify
    } else if same_text(prefix, "HeaterTimeoutInfo") {
        LineKind::HeaterTimeout
    } else if same_text(prefix, "Log") {
        LineKind::Log
    } else {
        LineKind::Unrecognized
    }
}

/// Parses button arguments.
fn parse_button(args: &[&str]) -> (r: Option<EspMessage>)
    ensures
        opt_message(r) == button_payload(texts(args@)),
        r matches Some(m) ==> m.wf(),
{
    match ButtonEventData::from_args(args) {
        Some(m) => Some(EspMessage::Button(m)),
        None => None,
    }
}

/// Parses datapoint arguments.
#[verifier::rlimit(40)]
fn parse_shot(args: &[&str]) -> (r: Option<EspMessage>)
    ensures
        opt_message(r) == shot_payload(texts(args@)),
        r matches Some(m) ==> m.wf(),
{
    match ShotData::from_args(args) {
        Some(m) => Some(EspMessage::Shot(m)),
        None => None,
    }
}

/// Parses sensor arguments.
#[verifier::rlimit(40)]
fn parse_sensors(args: &[&str]) -> (r: Option<EspMessage>)
    ensures
        opt_message(r) == sensor_payload(texts(args@)),
        r matches Some(m) ==> m.wf(),
{
    let data = if args.len() == 1 {
        SensorData::from_color_coded_args(args[0])
    } else {
        SensorData::from_args(args)
    };
    match data {
        Some(m) => Some(EspMessage::Sensors(m)),
        None => None,
    }
}

/// Parses information arguments.
fn parse_info(args: &[&str]) -> (r: Option<EspMessage>)
    ensures
        opt_message(r) == info_payload(texts(args@)),
        r matches Some(m) ==> m.wf(),
{
    match EspInfo::from_args(args) {
        Some(m) => Some(EspMessage::Info(m)),
        None => None,
    }
}

/// Parses notification arguments.
fn parse_notify(args: &[&str]) -> (r: Option<EspMessage>)
    ensures
        opt_message(r) == notify_payload(texts(args@)),
        r matches Some(m) ==> m.wf(),
{
    match MachineNotify::from_dispatch_args(args) {
        Some(m) => Some(EspMessage::Notify(m)),
        None => None,
    }
}

/// Parses heater arguments.
fn parse_heater(args: &[&str]) -> (r: Option<EspMessage>)
    ensures
        opt_message(r) == heater_payload(texts(args@)),
        r matches Some(m) ==> m.wf(),
{
    match HeaterTimeoutInfo::from_args(args) {
        Some(m) => Some(EspMessage::HeaterTimeout(m)),
        None => None,
    }
}

/// Parses log arguments.
fn parse_log(args: &[&str]) -> (r: Option<EspMessage>)
    ensures
        opt_message(r) == log_payload(texts(args@)),
        r matches Some(m) ==> m.wf(),
{
    match EspLog::from_args(args) {
        Some(m) => Some(EspMessage::Log(m)),
        None => None,
    }
}

/// Parses the arguments of a family.
fn parse_payload(kind: LineKind, args: &[&str]) -> (r: Option<EspMessage>)
    ensures
        opt_message(r) == payload(kind, texts(args@)),
        r matches Some(m) ==> m.wf(),
{
    match kind {
        LineKind::Button => parse_button(args),
        LineKind::Data => parse_shot(args),
        LineKind::Sensors => parse_sensors(args),
        LineKind::EspInfo => parse_info(args),
        LineKind::Notify => parse_notify(args),
        LineKind::HeaterTimeout => parse_heater(args),
        LineKind::Log => parse_log(args),
        LineKind::Unrecognized => None,
    }
}

/// Dispatches a raw line: strips `\r\n`, splits on commas, and matches on the
/// first token. A malformed payload leaves the line without a message.
#[verifier::rlimit(40)]
pub fn parse_line(raw: &str) -> (r: ParsedLine)
    ensures
        r.kind == line_kind(raw@),
        opt_message(r.message) == line_message(raw@),
        r.message matches Some(m) ==> m.wf(),
{
    let line = strip_crlf(raw);
    let tokens = split_text(line, ',');
    let ghost all = texts(tokens@);
    assert(all[0] == tokens@[0]@);
    if tokens.len() == 1 && bare_button(tokens[0]) {
        return ParsedLine {
            kind: LineKind::Button,
            message: parse_payload(LineKind::Button, tokens.as_slice()),
        };
    }
    let kind = kind_of_prefix(tokens[0]);
    let args = slice_subrange(tokens.as_slice(), 1, tokens.len());
    assert(texts(args@) =~= all.skip(1));
    ParsedLine { kind, message: parse_payload(kind, args) }
}

/// The boot banner of the chip.
pub open spec fn boot_banner(raw: Seq<char>) -> bool {
    begins_with(raw, "rst:0x"@) && occurs(raw, "boot:0x"@) && occurs(
        raw,
        " (SPI_FAST_FLASH_BOOT)"@,
    )
}

/// Whether the raw line is the boot banner that counts as a reset
/// (`rst:0x...`, `boot:0x...` and `SPI_FAST_FLASH_BOOT`).
pub fn is_boot_banner(raw: &str) -> (r: bool)
    ensures
        r == boot_banner(raw@),
{
    starts_with_text(raw, "rst:0x") && contains_text(raw, "boot:0x") && contains_text(
        raw,
        " (SPI_FAST_FLASH_BOOT)",
    )
}

/// The beginning of a crash dump.
pub open spec fn crash_marker(raw: Seq<char>) -> bool {
    let text = lower(raw);
    occurs(text, "backtrace"@) || occurs(text, "guru meditation error"@) || occurs(
        text,
        "register dump"@,
    )
}

/// Whether the raw line marks the beginning of a crash dump.
pub fn has_crash_marker(raw: &str) -> (r: bool)
    ensures
        r == crash_marker(raw@),
{
    let text = lowercase(raw);
    contains_text(text.as_str(), "backtrace") || contains_text(
        text.as_str(),
        "guru meditation error",
    ) || contains_text(text.as_str(), "register dump")
}

// ---------------------------------------------------------------------------
// Laws
// ---------------------------------------------------------------------------

/// A prefix of a family starts with a letter and holds no comma.
pub proof fn lemma_prefix(prefix: Seq<char>)
    requires
        prefix_kind(prefix) != LineKind::Unrecognized,
    ensures
        prefix.len() > 0,
        !prefix.contains(','),
        !CharSet::LineEnds.holds(prefix[0]),
{
    reveal_strlit("Event");
    reveal_strlit("Data");
    reveal_strlit("Sensors");
    reveal_strlit("ESPInfo");
    reveal_strlit("Notify");
    reveal_strlit("HeaterTimeoutInfo");
    reveal_strlit("Log");
}

/// Whatever payload follows the prefix of a family and a comma, the line is
/// classified under that family.
pub proof fn law_prefixed_lines_classify(prefix: Seq<char>, rest: Seq<char>)
    requires
        prefix_kind(prefix) != LineKind::Unrecognized,
    ensures
        line_kind(prefix.push(',') + rest) == prefix_kind(prefix),
{
    let raw = prefix.push(',') + rest;
    lemma_prefix(prefix);
    assert(raw[0] == prefix[0]);
    assert(trim_front(raw, CharSet::LineEnds) == raw);
    assert(raw[prefix.len() as int] == ',');
    lemma_trim_back_stops(raw, CharSet::LineEnds, prefix.len() as int);
    lemma_trim_back(raw, CharSet::LineEnds);
    let kept = trim_back(raw, CharSet::LineEnds);
    let tail = kept.skip(prefix.len() + 1int);
    assert(kept =~= prefix.push(',') + tail);
    lemma_split_head(prefix, tail, ',');
}

/// A line that is a prefix and arguments joined with commas, up to line ends
/// around it, carries what its family makes of these arguments.
pub proof fn law_joined_lines_parse(raw: Seq<char>, prefix: Seq<char>, args: Seq<Seq<char>>)
    requires
        prefix_kind(prefix) != LineKind::Unrecognized,
        args.len() >= 1,
        forall|i: int| 0 <= i < args.len() ==> !(#[trigger] args[i]).contains(','),
        trimmed(raw, CharSet::LineEnds) == join(seq![prefix] + args, ','),
    ensures
        line_kind(raw) == prefix_kind(prefix),
        line_message(raw) == payload(prefix_kind(prefix), args),
{
    let tokens = seq![prefix] + args;
    lemma_prefix(prefix);
    assert forall|i: int| 0 <= i < tokens.len() implies !(#[trigger] tokens[i]).contains(',') by {
        if i > 0 {
            assert(tokens[i] == args[i - 1]);
        }
    }
    law_split_undoes_join(tokens, ',');
    assert(tokens.skip(1) =~= args);
}

/// A `Data,` line with five or more arguments always parses; its fields are
/// those of the arguments.
pub proof fn law_valid_data_lines_parse(raw: Seq<char>, args: Seq<Seq<char>>)
    requires
        args.len() >= 5,
        forall|i: int| 0 <= i < args.len() ==> !(#[trigger] args[i]).contains(','),
        trimmed(raw, CharSet::LineEnds) == join(seq!["Data"@] + args, ','),
    ensures
        line_message(raw) matches Some(MessageView::Shot(shot)) && {
            &&& shot == shot_message(args)->0
            &&& shot.stable_weight == (trimmed(args[3], CharSet::LineEnds) == "S"@)
            &&& shot.pressure == nan_float_value(args[0])
            &&& shot.flow == nan_float_value(args[1])
            &&& shot.weight == nan_float_value(args[2])
            &&& shot.temperature == nan_float_value(args[4])
        },
{
    lemma_prefix_kinds();
    law_joined_lines_parse(raw, "Data"@, args);
}

/// A `Sensors,` line with twenty numbers and three more arguments always
/// parses.
pub proof fn law_valid_sensor_lines_parse(raw: Seq<char>, args: Seq<Seq<char>>)
    requires
        args.len() >= 23,
        forall|i: int| 0 <= i < args.len() ==> !(#[trigger] args[i]).contains(','),
        forall|i: int| 0 <= i < 20 ==> safe_float_value(#[trigger] args[i]) is Some,
        trimmed(raw, CharSet::LineEnds) == join(seq!["Sensors"@] + args, ','),
    ensures
        line_message(raw) is Some,
        line_message(raw) == Some(MessageView::Sensors(sensor_message(args)->0)),
{
    lemma_prefix_kinds();
    law_joined_lines_parse(raw, "Sensors"@, args);
}

/// Each prefix names its own family.
pub proof fn lemma_prefix_kinds()
    ensures
        prefix_kind("Event"@) == LineKind::Button,
        prefix_kind("Data"@) == LineKind::Data,
        prefix_kind("Sensors"@) == LineKind::Sensors,
        prefix_kind("ESPInfo"@) == LineKind::EspInfo,
        prefix_kind("Notify"@) == LineKind::Notify,
        prefix_kind("HeaterTimeoutInfo"@) == LineKind::HeaterTimeout,
        prefix_kind("Log"@) == LineKind::Log,
{
    reveal_strlit("Event");
    reveal_strlit("Data");
    reveal_strlit("Sensors");
    reveal_strlit("ESPInfo");
    reveal_strlit("Notify");
    reveal_strlit("HeaterTimeoutInfo");
    reveal_strlit("Log");
    assert("Event"@.len() == 5);
    assert("Data"@.len() == 4);
    assert("Sensors"@.len() == 7 && "Sensors"@[0] == 'S');
    assert("ESPInfo"@.len() == 7 && "ESPInfo"@[0] == 'E');
    assert("Notify"@.len() == 6);
    assert("HeaterTimeoutInfo"@.len() == 17);
    assert("Log"@.len() == 3);
}

/// The boot banner belongs to no family.
pub proof fn law_boot_banner_is_unrecognized(raw: Seq<char>)
    requires
        boot_banner(raw),
    ensures
        line_kind(raw) == LineKind::Unrecognized,
{
    reveal_strlit("rst:0x");
    assert(raw.subrange(0, 6)[0] == 'r');
    assert(raw[0] == 'r');
    assert(trim_front(raw, CharSet::LineEnds) == raw);
    lemma_trim_back_stops(raw, CharSet::LineEnds, 0);
    lemma_trim_back(raw, CharSet::LineEnds);
    let kept = trim_back(raw, CharSet::LineEnds);
    lemma_split_prefix(kept, 1, ',');
    let first = line_tokens(raw)[0];
    assert(first.take(1)[0] == kept.take(1)[0]);
    assert(first[0] == 'r');
    lemma_known_tokens(first);
}

/// No prefix and no bare button token starts with the letter of the boot
/// banner.
proof fn lemma_known_tokens(token: Seq<char>)
    requires
        token.len() > 0,
        token[0] == 'r',
    ensures
        prefix_kind(token) == LineKind::Unrecognized,
        !is_bare_button(token),
{
    reveal_strlit("Event");
    reveal_strlit("Data");
    reveal_strlit("Sensors");
    reveal_strlit("ESPInfo");
    reveal_strlit("Notify");
    reveal_strlit("HeaterTimeoutInfo");
    reveal_strlit("Log");
    reveal_strlit("CCW");
    reveal_strlit("CW");
    reveal_strlit("push");
    reveal_strlit("pu_d");
    reveal_strlit("elng");
    reveal_strlit("ta_d");
    reveal_strlit("ta_l");
    reveal_strlit("strt");
}

/// A crash marker is found in whatever case its letters are, and whatever text
/// stands around it, wherever lowercasing the whole lowercases the parts.
pub proof fn law_crash_markers_stand_out(
    before: Seq<char>,
    raw: Seq<char>,
    other: Seq<char>,
    after: Seq<char>,
)
    requires
        lower(before + raw + after) == lower(before) + lower(raw) + lower(after),
        lower(raw) == lower(other),
    ensures
        crash_marker(raw) == crash_marker(other),
        crash_marker(raw) ==> crash_marker(before + raw + after),
{
    let text = lower(raw);
    let front = lower(before);
    let back = lower(after);
    if occurs(text, "backtrace"@) {
        lemma_occurs_between(front, text, back, "backtrace"@);
    }
    if occurs(text, "guru meditation error"@) {
        lemma_occurs_between(front, text, back, "guru meditation error"@);
    }
    if occurs(text, "register dump"@) {
        lemma_occurs_between(front, text, back, "register dump"@);
    }
}

/// A crash marker in an ASCII line is found in whatever case its letters are,
/// and whatever ASCII text stands around it.
pub proof fn law_crash_markers_are_found(
    before: Seq<char>,
    raw: Seq<char>,
    other: Seq<char>,
    after: Seq<char>,
)
    requires
        is_ascii_chars(before),
        is_ascii_chars(raw),
        is_ascii_chars(other),
        is_ascii_chars(after),
        ascii_lower(raw) == ascii_lower(other),
    ensures
        crash_marker(raw) == crash_marker(other),
        crash_marker(raw) ==> crash_marker(before + raw + after),
{
    let all = before + raw + after;
    assert(is_ascii_chars(all));
    assert(ascii_lower(all) =~= ascii_lower(before) + ascii_lower(raw) + ascii_lower(after));
    law_crash_markers_stand_out(before, raw, other, after);
}

}
