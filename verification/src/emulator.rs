//! In-process emulator of the chip: replays recorded fixtures, reacts to
//! `action,start|stop|purge|home` written by the host, and returns to the
//! idle loop when a playback source is exhausted.

use crate::command::{action_frame, EspAction};
use crate::decimal::{check_positive, plain, zero_view, Decimal, DecimalView};
use crate::encoding::{decode_lossy, lemma_encode_concat, lossy_text};
use crate::esp_info::{default_info, EspInfo};
use crate::fixture::{
    fixture_json, fixture_tree, fixture_value, read_fixture, EmulationError, FixtureFile,
};
use crate::json::{items_tree, Json, JsonView};
use crate::message::{
    boot_banner, law_boot_banner_is_unrecognized, law_prefixed_lines_classify, lemma_prefix_kinds,
    line_kind, prefix_kind, LineKind,
};
use crate::pynum::{plain_decimal, zero, PyFloat, PyFloatView};
use crate::quotient::{divide, divided};
use crate::reader::is_valid_line;
use crate::search::{begins_with, contains_text, lemma_occurs_behind, occurs, occurs_at};
use crate::sensor::{default_sensors, SensorData, SensorView};
use crate::shot::{default_shot, ShotData, ShotView};
use crate::text::{
    append_text, join, join_owned, lemma_trim_back, lemma_trim_back_stops, opt_text, owned,
    owned_texts, trim_front, trim_text, trimmed, CharSet,
};
use vstd::prelude::*;
use vstd::utf8::{
    decode_utf8, decode_utf8_encode_utf8, encode_utf8, encode_utf8_decode_utf8,
    encode_utf8_valid_utf8, is_ascii_chars_encode_utf8, valid_utf8,
};

verus! {

/// Cadence in nanoseconds: one line every 75 ms.
pub const DEFAULT_SLEEP_NS: u64 = 75_000_000;

/// Wait before playback starts, in nanoseconds: 2 s.
pub const STARTUP_DELAY_NS: u64 = 2_000_000_000;

/// The four playback sources.
#[derive(Clone, Copy, Debug, PartialEq, Eq, Structural)]
pub enum Source {
    Idle,
    Espresso,
    Home,
    Purge,
}

// ---------------------------------------------------------------------------
// Fixtures
// ---------------------------------------------------------------------------

/// A member of an object; `null` where there is none.
pub open spec fn child(v: JsonView, key: Seq<char>) -> JsonView {
    match v.member(key) {
        Some(c) => c,
        None => JsonView::Null,
    }
}

/// A number, or another where it is none.
pub open spec fn number_or(v: JsonView, other: DecimalView) -> DecimalView {
    match v.number() {
        Some(d) => d,
        None => other,
    }
}

/// A number under a key, or zero.
pub open spec fn float_at(v: JsonView, key: Seq<char>) -> DecimalView {
    number_or(child(v, key), zero_view())
}

/// Minus one, the setpoint of a sample without an active controller.
pub open spec fn minus_one() -> DecimalView {
    DecimalView::Finite { negative: true, literal: "1"@ }
}

/// The sensors of a fixture sample.
pub open spec fn sample_sensors(sample: JsonView) -> SensorView {
    let s = child(sample, "sensors"@);
    SensorView {
        external_1: float_at(s, "external_1"@),
        external_2: float_at(s, "external_2"@),
        bar_up: float_at(s, "bar_up"@),
        bar_mid_up: float_at(s, "bar_mid_up"@),
        bar_mid_down: float_at(s, "bar_mid_down"@),
        bar_down: float_at(s, "bar_down"@),
        tube: float_at(s, "tube"@),
        motor_temp: float_at(s, "motor_temp"@),
        lam_temp: float_at(s, "lam_temp"@),
        motor_position: float_at(s, "motor_position"@),
        motor_speed: float_at(s, "motor_speed"@),
        motor_power: float_at(s, "motor_power"@),
        motor_current: float_at(s, "motor_current"@),
        bandheater_power: float_at(s, "bandheater_power"@),
        bandheater_current: float_at(s, "bandheater_current"@),
        pressure_sensor: float_at(s, "pressure_sensor"@),
        adc_0: float_at(s, "adc_0"@),
        adc_1: float_at(s, "adc_1"@),
        adc_2: float_at(s, "adc_2"@),
        adc_3: float_at(s, "adc_3"@),
        water_status: child(s, "water_status"@).boolean() == Some(true),
        ..default_sensors()
    }
}

/// The kind of the active controller of a fixture sample.
pub open spec fn active_kind(sample: JsonView) -> Option<Seq<char>> {
    child(child(child(sample, "shot"@), "setpoints"@), "active"@).text()
}

/// The setpoint of the active controller of a fixture sample.
pub open spec fn active_setpoint(sample: JsonView) -> DecimalView {
    match active_kind(sample) {
        Some(kind) => number_or(
            child(child(child(sample, "shot"@), "setpoints"@), kind),
            minus_one(),
        ),
        None => minus_one(),
    }
}

/// The datapoint of a fixture sample; where it has no temperature, the tube's
/// counts.
pub open spec fn sample_shot(sample: JsonView, profile: Seq<char>) -> ShotView {
    let shot = child(sample, "shot"@);
    ShotView {
        pressure: PyFloatView::Num(float_at(shot, "pressure"@)),
        flow: PyFloatView::Num(float_at(shot, "flow"@)),
        weight: PyFloatView::Num(float_at(shot, "weight"@)),
        gravimetric_flow: PyFloatView::Num(float_at(shot, "gravimetric_flow"@)),
        temperature: PyFloatView::Num(
            number_or(
                child(shot, "temperature"@),
                float_at(child(sample, "sensors"@), "tube"@),
            ),
        ),
        profile: Some(profile),
        status: child(sample, "status"@).text(),
        main_controller_kind: active_kind(sample),
        main_setpoint: active_setpoint(sample),
        ..default_shot()
    }
}

/// A line: the prefix and the arguments with commas between.
pub open spec fn line_of(prefix: Seq<char>, args: Seq<Seq<char>>) -> Seq<char> {
    prefix + join(args, ',')
}

/// The lines of the samples: a datapoint and a sensor line for each one with a
/// time above zero.
pub open spec fn sample_lines(samples: Seq<JsonView>, profile: Seq<char>) -> Seq<Seq<char>>
    decreases samples.len(),
{
    if samples.len() == 0 {
        Seq::<Seq<char>>::empty()
    } else {
        let before = sample_lines(samples.drop_last(), profile);
        let sample = samples.last();
        if float_at(sample, "time"@).is_positive() {
            before.push(line_of("Data,"@, sample_shot(sample, profile).args())).push(
                line_of("Sensors,"@, sample_sensors(sample).args()),
            )
        } else {
            before
        }
    }
}

/// The profile name of a fixture.
pub open spec fn profile_name(fixture: JsonView) -> Seq<char> {
    match child(fixture, "profile_name"@).text() {
        Some(name) => name,
        None => Seq::<char>::empty(),
    }
}

/// The samples of a fixture.
pub open spec fn samples_of(fixture: JsonView) -> Seq<JsonView> {
    match child(fixture, "data"@).items() {
        Some(items) => items,
        None => Seq::<JsonView>::empty(),
    }
}

/// The lines of a fixture.
pub open spec fn fixture_lines(fixture: JsonView) -> Seq<Seq<char>> {
    sample_lines(samples_of(fixture), profile_name(fixture))
}

/// The datapoint of the idle loop.
pub open spec fn idle_shot() -> ShotView {
    ShotView {
        temperature: PyFloatView::Num(plain("23.2"@)),
        status: Some("idle"@),
        profile: Some("idle"@),
        ..default_shot()
    }
}

/// The sensors of the idle loop.
pub open spec fn idle_sensors() -> SensorView {
    SensorView {
        external_1: plain("85.11"@),
        external_2: plain("86.27"@),
        bar_up: plain("68.73"@),
        bar_mid_up: plain("69.02"@),
        bar_mid_down: plain("67.75"@),
        bar_down: plain("65.44"@),
        tube: plain("67.74"@),
        motor_temp: plain("29.96"@),
        lam_temp: plain("32.78"@),
        motor_position: plain("74"@),
        bandheater_power: plain("15.3"@),
        bandheater_current: plain("0.62"@),
        pressure_sensor: plain("306"@),
        adc_0: plain("14"@),
        adc_1: plain("14"@),
        adc_2: plain("14"@),
        adc_3: plain("14"@),
        ..default_sensors()
    }
}

/// The lines of the idle loop.
pub open spec fn idle_lines() -> Seq<Seq<char>> {
    seq![
        line_of("Data,"@, idle_shot().args()),
        line_of("Sensors,"@, idle_sensors().args()),
        line_of("ESPInfo,"@, default_info().args()),
    ]
}

/// The value behind an optional reference; `null` where there is none.
pub open spec fn tree_of(v: Option<&Json>) -> JsonView {
    match v {
        Some(j) => j.tree(),
        None => JsonView::Null,
    }
}

/// A member of an object.
fn get_child<'a>(v: Option<&'a Json>, key: &str) -> (r: Option<&'a Json>)
    ensures
        tree_of(r) == child(tree_of(v), key@),
{
    match v {
        Some(j) => j.get(key),
        None => None,
    }
}

/// A number, or another where it is none.
fn get_number_or(v: Option<&Json>, other: Decimal) -> (r: Decimal)
    ensures
        r@ == number_or(tree_of(v), other@),
{
    match v {
        Some(j) => match j.as_float() {
            Some(d) => d,
            None => other,
        },
        None => other,
    }
}

/// A number under a key, or zero.
fn get_float(v: Option<&Json>, key: &str) -> (r: Decimal)
    ensures
        r@ == float_at(tree_of(v), key@),
{
    get_number_or(get_child(v, key), zero())
}

/// The text of a string.
fn get_text(v: Option<&Json>) -> (r: Option<String>)
    ensures
        opt_text(r) == tree_of(v).text(),
{
    match v {
        Some(j) => match j.as_str() {
            Some(s) => Some(owned(s)),
            None => None,
        },
        None => None,
    }
}

/// The sensors of a fixture sample.
#[verifier::rlimit(40)]
fn read_sensors(sample: &Json) -> (r: SensorData)
    ensures
        r@ == sample_sensors(sample.tree()),
{
    let s = get_child(Some(sample), "sensors");
    let water = match get_child(s, "water_status") {
        Some(j) => match j.as_bool() {
            Some(b) => b,
            None => false,
        },
        None => false,
    };
    SensorData {
        external_1: get_float(s, "external_1"),
        external_2: get_float(s, "external_2"),
        bar_up: get_float(s, "bar_up"),
        bar_mid_up: get_float(s, "bar_mid_up"),
        bar_mid_down: get_float(s, "bar_mid_down"),
        bar_down: get_float(s, "bar_down"),
        tube: get_float(s, "tube"),
        motor_temp: get_float(s, "motor_temp"),
        lam_temp: get_float(s, "lam_temp"),
        motor_position: get_float(s, "motor_position"),
        motor_speed: get_float(s, "motor_speed"),
        motor_power: get_float(s, "motor_power"),
        motor_current: get_float(s, "motor_current"),
        bandheater_power: get_float(s, "bandheater_power"),
        bandheater_current: get_float(s, "bandheater_current"),
        pressure_sensor: get_float(s, "pressure_sensor"),
        adc_0: get_float(s, "adc_0"),
        adc_1: get_float(s, "adc_1"),
        adc_2: get_float(s, "adc_2"),
        adc_3: get_float(s, "adc_3"),
        water_status: water,
        motor_thermistor: PyFloat::Num(zero()),
        weight_prediction: PyFloat::Num(zero()),
    }
}

/// The setpoint of the active controller of a fixture sample.
fn read_setpoint(setpoints: Option<&Json>, active: &Option<String>) -> (r: Decimal)
    ensures
        r@ == match opt_text(*active) {
            Some(kind) => number_or(child(tree_of(setpoints), kind), minus_one()),
            None => minus_one(),
        },
{
    let other = Decimal::Finite { negative: true, literal: owned("1") };
    match active {
        Some(kind) => get_number_or(get_child(setpoints, kind.as_str()), other),
        None => other,
    }
}

/// The datapoint of a fixture sample.
#[verifier::rlimit(40)]
fn read_shot(sample: &Json, profile: &str) -> (r: ShotData)
    ensures
        r@ == sample_shot(sample.tree(), profile@),
{
    let shot = get_child(Some(sample), "shot");
    let sensors = get_child(Some(sample), "sensors");
    let setpoints = get_child(shot, "setpoints");
    let active = get_text(get_child(setpoints, "active"));
    let main_setpoint = read_setpoint(setpoints, &active);
    let temperature = get_number_or(get_child(shot, "temperature"), get_float(sensors, "tube"));
    let mut data = ShotData::default();
    data.pressure = PyFloat::Num(get_float(shot, "pressure"));
    data.flow = PyFloat::Num(get_float(shot, "flow"));
    data.weight = PyFloat::Num(get_float(shot, "weight"));
    data.gravimetric_flow = PyFloat::Num(get_float(shot, "gravimetric_flow"));
    data.temperature = PyFloat::Num(temperature);
    data.profile = Some(owned(profile));
    data.status = get_text(get_child(Some(sample), "status"));
    data.main_controller_kind = active;
    data.main_setpoint = main_setpoint;
    data
}

/// A datapoint or sensor line.
pub open spec fn carries_message(line: Seq<char>) -> bool {
    begins_with(line, "Data,"@) || begins_with(line, "Sensors,"@)
}

/// A line with one of the prefixes is a message.
proof fn lemma_prefixed_line(prefix: Seq<char>, args: Seq<Seq<char>>)
    requires
        prefix == "Data,"@ || prefix == "Sensors,"@,
    ensures
        carries_message(line_of(prefix, args)),
{
    let line = line_of(prefix, args);
    assert(line.subrange(0, prefix.len() as int) =~= prefix);
    assert(begins_with(line, prefix));
}

/// A line: the prefix and the arguments with commas between.
fn write_line(prefix: &str, args: &Vec<String>) -> (r: String)
    ensures
        r@ == line_of(prefix@, owned_texts(args@)),
{
    let mut line = owned(prefix);
    let joined = join_owned(args, ',');
    append_text(&mut line, joined.as_str());
    line
}

/// One datapoint and one sensor line for each sample of a fixture with a time
/// above zero.
#[verifier::rlimit(40)]
pub fn shot_to_lines(fixture: &Json) -> (r: Vec<String>)
    ensures
        owned_texts(r@) == fixture_lines(fixture.tree()),
        forall|i: int| 0 <= i < r@.len() ==> carries_message((#[trigger] r@[i])@),
{
    let name = match get_text(get_child(Some(fixture), "profile_name")) {
        Some(name) => name,
        None => String::new(),
    };
    let mut lines: Vec<String> = Vec::new();
    let data = match get_child(Some(fixture), "data") {
        Some(data) => data.as_array(),
        None => None,
    };
    let samples = match data {
        Some(samples) => samples,
        None => {
            assert(owned_texts(lines@) =~= fixture_lines(fixture.tree()));
            return lines;
        },
    };
    let ghost all = items_tree(samples@);
    let mut i: usize = 0;
    assert(all.take(0) =~= Seq::<JsonView>::empty());
    assert(owned_texts(lines@) =~= sample_lines(all.take(0), name@));
    while i < samples.len()
        invariant
            i <= samples@.len(),
            all == items_tree(samples@),
            owned_texts(lines@) == sample_lines(all.take(i as int), name@),
            forall|j: int| 0 <= j < lines@.len() ==> carries_message((#[trigger] lines@[j])@),
        decreases samples@.len() - i,
    {
        let sample = &samples[i];
        assert(all.take(i + 1).drop_last() =~= all.take(i as int));
        assert(all.take(i + 1).last() == sample.tree());
        let time = get_float(Some(sample), "time");
        if check_positive(&time) {
            let ghost before = lines@;
            let shot = read_shot(sample, name.as_str());
            let sensors = read_sensors(sample);
            proof {
                lemma_prefixed_line("Data,"@, shot@.args());
                lemma_prefixed_line("Sensors,"@, sensors@.args());
            }
            let shot_line = write_line("Data,", &shot.to_args());
            let sensor_line = write_line("Sensors,", &sensors.to_args());
            lines.push(shot_line);
            lines.push(sensor_line);
            assert(owned_texts(lines@) =~= owned_texts(before).push(shot_line@).push(
                sensor_line@,
            ));
        }
        i = i + 1;
    }
    assert(all.take(all.len() as int) =~= all);
    lines
}

/// The lines of the idle loop.
#[verifier::rlimit(40)]
fn write_idle_lines() -> (r: Vec<String>)
    ensures
        owned_texts(r@) == idle_lines(),
{
    let mut shot = ShotData::default();
    shot.temperature = PyFloat::Num(plain_decimal("23.2"));
    shot.status = Some(owned("idle"));
    shot.profile = Some(owned("idle"));
    let mut sensors = SensorData::default();
    sensors.external_1 = plain_decimal("85.11");
    sensors.external_2 = plain_decimal("86.27");
    sensors.bar_up = plain_decimal("68.73");
    sensors.bar_mid_up = plain_decimal("69.02");
    sensors.bar_mid_down = plain_decimal("67.75");
    sensors.bar_down = plain_decimal("65.44");
    sensors.tube = plain_decimal("67.74");
    sensors.motor_temp = plain_decimal("29.96");
    sensors.lam_temp = plain_decimal("32.78");
    sensors.motor_position = plain_decimal("74");
    sensors.bandheater_power = plain_decimal("15.3");
    sensors.bandheater_current = plain_decimal("0.62");
    sensors.pressure_sensor = plain_decimal("306");
    sensors.adc_0 = plain_decimal("14");
    sensors.adc_1 = plain_decimal("14");
    sensors.adc_2 = plain_decimal("14");
    sensors.adc_3 = plain_decimal("14");
    assert(shot@ == idle_shot());
    assert(sensors@ == idle_sensors());
    let info = EspInfo::default();
    let mut lines: Vec<String> = Vec::new();
    lines.push(write_line("Data,", &shot.to_args()));
    lines.push(write_line("Sensors,", &sensors.to_args()));
    lines.push(write_line("ESPInfo,", &info.to_args()));
    assert(owned_texts(lines@) =~= idle_lines());
    lines
}

/// Wire lines for every playback source.
#[derive(Debug)]
pub struct EmulationData {
    idle: Vec<String>,
    espresso: Vec<String>,
    home: Vec<String>,
    purge: Vec<String>,
}

/// What an [`EmulationData`] holds.
pub struct DataView {
    pub idle: Seq<Seq<char>>,
    pub espresso: Seq<Seq<char>>,
    pub home: Seq<Seq<char>>,
    pub purge: Seq<Seq<char>>,
}

impl View for EmulationData {
    type V = DataView;

    closed spec fn view(&self) -> DataView {
        DataView {
            idle: owned_texts(self.idle@),
            espresso: owned_texts(self.espresso@),
            home: owned_texts(self.home@),
            purge: owned_texts(self.purge@),
        }
    }
}

impl DataView {
    /// The lines of a source.
    pub open spec fn lines(self, source: Source) -> Seq<Seq<char>> {
        match source {
            Source::Idle => self.idle,
            Source::Espresso => self.espresso,
            Source::Home => self.home,
            Source::Purge => self.purge,
        }
    }

    /// The idle loop is the usual one, and the others are made of datapoint
    /// and sensor lines.
    pub open spec fn wf(self) -> bool {
        &&& self.idle == idle_lines()
        &&& forall|source: Source, i: int|
            source != Source::Idle && 0 <= i < self.lines(source).len() ==> carries_message(
                #[trigger] self.lines(source)[i],
            )
    }
}

/// The playback sources of three fixtures: a shot, a homing run and a purge.
pub open spec fn loaded(shot: JsonView, home: JsonView, purge: JsonView) -> DataView {
    DataView {
        idle: idle_lines(),
        espresso: fixture_lines(shot),
        home: fixture_lines(home),
        purge: fixture_lines(purge),
    }
}

/// A copy of lines.
fn clone_lines(lines: &Vec<String>) -> (r: Vec<String>)
    ensures
        owned_texts(r@) == owned_texts(lines@),
{
    let mut out: Vec<String> = Vec::new();
    for i in 0..lines.len()
        invariant
            out@.len() == i,
            forall|j: int| 0 <= j < i ==> (#[trigger] out@[j])@ == lines@[j]@,
    {
        out.push(lines[i].clone());
    }
    assert(owned_texts(out@) =~= owned_texts(lines@));
    out
}

impl Clone for EmulationData {
    fn clone(&self) -> (r: Self)
        ensures
            r@ == self@,
    {
        EmulationData {
            idle: clone_lines(&self.idle),
            espresso: clone_lines(&self.espresso),
            home: clone_lines(&self.home),
            purge: clone_lines(&self.purge),
        }
    }
}

impl EmulationData {
    /// The playback sources of the three fixtures: a shot, a homing run and a
    /// purge.
    pub fn load(shot: &Json, home: &Json, purge: &Json) -> (r: Self)
        ensures
            r@ == loaded(shot.tree(), home.tree(), purge.tree()),
            r@.wf(),
    {
        let r = EmulationData {
            idle: write_idle_lines(),
            espresso: shot_to_lines(shot),
            home: shot_to_lines(home),
            purge: shot_to_lines(purge),
        };
        assert forall|source: Source, i: int|
            source != Source::Idle && 0 <= i < r@.lines(source).len() implies carries_message(
            #[trigger] r@.lines(source)[i],
        ) by {
            match source {
                Source::Idle => {},
                Source::Espresso => assert(r@.lines(source)[i] == r.espresso@[i]@),
                Source::Home => assert(r@.lines(source)[i] == r.home@[i]@),
                Source::Purge => assert(r@.lines(source)[i] == r.purge@[i]@),
            }
        }
        r
    }

    /// The playback sources of the three fixture files. The error is that of
    /// the first file, in this order, that cannot be read or is not JSON.
    pub fn load_texts(shot: FixtureFile, home: FixtureFile, purge: FixtureFile) -> (r: Result<
        Self,
        EmulationError,
    >)
        ensures
            match (fixture_value(shot), fixture_value(home), fixture_value(purge)) {
                (Ok(s), Ok(h), Ok(p)) => r matches Ok(data) && data@.wf() && data@ == loaded(
                    fixture_tree(s),
                    fixture_tree(h),
                    fixture_tree(p),
                ),
                (Err(e), _, _) => r matches Err(error) && error@ == e,
                (_, Err(e), _) => r matches Err(error) && error@ == e,
                (_, _, Err(e)) => r matches Err(error) && error@ == e,
            },
    {
        let shot_value = match read_fixture(shot) {
            Ok(v) => v,
            Err(e) => return Err(e),
        };
        let home_value = match read_fixture(home) {
            Ok(v) => v,
            Err(e) => return Err(e),
        };
        let purge_value = match read_fixture(purge) {
            Ok(v) => v,
            Err(e) => return Err(e),
        };
        Ok(
            EmulationData::load(
                &fixture_json(&shot_value),
                &fixture_json(&home_value),
                &fixture_json(&purge_value),
            ),
        )
    }

    fn lines(&self, source: Source) -> (r: &Vec<String>)
        ensures
            owned_texts(r@) == self@.lines(source),
    {
        match source {
            Source::Idle => &self.idle,
            Source::Espresso => &self.espresso,
            Source::Home => &self.home,
            Source::Purge => &self.purge,
        }
    }
}

// ---------------------------------------------------------------------------
// Playback
// ---------------------------------------------------------------------------

/// The source that the text of the host asks for, in whatever order the
/// commands stand in it.
pub open spec fn commanded_source(text: Seq<char>) -> Option<Source> {
    if occurs(text, "action,start"@) {
        Some(Source::Espresso)
    } else if occurs(text, "action,stop"@) {
        Some(Source::Idle)
    } else if occurs(text, "action,purge"@) {
        Some(Source::Purge)
    } else if occurs(text, "action,home"@) {
        Some(Source::Home)
    } else {
        None
    }
}

/// The emulator.
#[derive(Debug)]
pub struct EmulatorTransport {
    data: EmulationData,
    source: Source,
    line_counter: usize,
    sleep_ns: u64,
    startup_delay_ns: Option<u64>,
    host_bytes: Vec<u8>,
}

/// What an [`EmulatorTransport`] holds.
pub struct EmulatorView {
    /// The playback sources.
    pub data: DataView,
    /// The source that plays.
    pub source: Source,
    /// The index of the next line.
    pub line_counter: int,
    /// The wait before each line.
    pub sleep_ns: int,
    /// The wait before the first line, until it is taken.
    pub startup_delay_ns: Option<int>,
    /// What the host wrote since the last line.
    pub host_bytes: Seq<u8>,
}

impl EmulatorView {
    /// The lines of the source that plays.
    pub open spec fn lines(self) -> Seq<Seq<char>> {
        self.data.lines(self.source)
    }

    /// What holds between lines: the counter does not go past the end.
    pub open spec fn wf(self) -> bool {
        &&& self.data.wf()
        &&& 0 <= self.line_counter <= self.lines().len()
    }

    /// Back to the idle loop where the source is exhausted: its last line
    /// does not play.
    pub open spec fn rewound(self) -> EmulatorView {
        if self.line_counter >= self.lines().len() - 1 {
            EmulatorView { source: Source::Idle, line_counter: 0, ..self }
        } else {
            self
        }
    }

    /// The host has written bytes.
    pub open spec fn written(self, bytes: Seq<u8>) -> EmulatorView {
        EmulatorView { host_bytes: self.host_bytes + bytes, ..self }
    }

    /// Playback has been put past the end.
    pub open spec fn stopped(self) -> EmulatorView {
        EmulatorView { line_counter: self.lines().len() as int, ..self }
    }

    /// What the host asked for is done.
    pub open spec fn obeyed(self) -> EmulatorView {
        let read = EmulatorView { host_bytes: Seq::<u8>::empty(), ..self };
        match commanded_source(lossy_text(self.host_bytes)) {
            Some(source) => EmulatorView { source, line_counter: 0, ..read }.rewound(),
            None => read,
        }
    }

    /// The state whose line plays next.
    pub open spec fn ready(self) -> EmulatorView {
        self.rewound().obeyed()
    }

    /// The line that plays next, with its line end.
    pub open spec fn next_line(self) -> Seq<char> {
        let r = self.ready();
        trimmed(r.lines()[r.line_counter], CharSet::Blanks) + seq!['\r', '\n']
    }

    /// The state after that line.
    pub open spec fn advanced(self) -> EmulatorView {
        let r = self.ready();
        EmulatorView { line_counter: r.line_counter + 1, ..r }
    }
}

impl View for EmulatorTransport {
    type V = EmulatorView;

    closed spec fn view(&self) -> EmulatorView {
        EmulatorView {
            data: self.data@,
            source: self.source,
            line_counter: self.line_counter as int,
            sleep_ns: self.sleep_ns as int,
            startup_delay_ns: match self.startup_delay_ns {
                Some(d) => Some(d as int),
                None => None,
            },
            host_bytes: self.host_bytes@,
        }
    }
}

/// A duration at the given speed, in percent of real time, as double-precision
/// arithmetic gives it, to the nearest nanosecond; a speed of zero counts as
/// one percent.
pub open spec fn scaled(duration_ns: int, speed_percent: int) -> int {
    let speed = if speed_percent < 1 {
        1
    } else {
        speed_percent
    };
    divided(duration_ns as nat, speed as nat) as int
}

/// An emulator at the start of the idle loop.
pub open spec fn started(data: DataView, speed_percent: int) -> EmulatorView {
    EmulatorView {
        data,
        source: Source::Idle,
        line_counter: 0,
        sleep_ns: scaled(DEFAULT_SLEEP_NS as int, speed_percent),
        startup_delay_ns: Some(scaled(STARTUP_DELAY_NS as int, speed_percent)),
        host_bytes: Seq::<u8>::empty(),
    }
}

/// A duration at the given speed.
fn scale(duration_ns: u64, speed_percent: u32) -> (r: u64)
    requires
        DEFAULT_SLEEP_NS <= duration_ns <= STARTUP_DELAY_NS,
    ensures
        r == scaled(duration_ns as int, speed_percent as int),
{
    if speed_percent < 1 {
        divide(duration_ns, 1)
    } else {
        divide(duration_ns, speed_percent)
    }
}

impl EmulatorTransport {
    /// An emulator at the start of the idle loop, at the given speed in
    /// percent of real time.
    pub fn new(data: EmulationData, speed_percent: u32) -> (r: Self)
        requires
            data@.wf(),
        ensures
            r@.wf(),
            r@ == started(data@, speed_percent as int),
    {
        let r = EmulatorTransport {
            data,
            source: Source::Idle,
            line_counter: 0,
            sleep_ns: scale(DEFAULT_SLEEP_NS, speed_percent),
            startup_delay_ns: Some(scale(STARTUP_DELAY_NS, speed_percent)),
            host_bytes: Vec::new(),
        };
        assert(r@.host_bytes =~= Seq::<u8>::empty());
        r
    }

    /// The host wrote bytes.
    pub fn write(&mut self, bytes: &[u8])
        ensures
            final(self)@ == old(self)@.written(bytes@),
            old(self)@.wf() ==> final(self)@.wf(),
    {
        self.host_bytes.extend_from_slice(bytes);
        assert(self.host_bytes@ =~= old(self).host_bytes@ + bytes@);
    }

    /// A reset: playback jumps past the end, so that the next read returns to
    /// the idle loop.
    pub fn reset(&mut self)
        ensures
            final(self)@ == old(self)@.stopped(),
            old(self)@.wf() ==> final(self)@.wf(),
    {
        let lines = self.data.lines(self.source);
        assert(owned_texts(lines@).len() == lines@.len());
        self.line_counter = lines.len();
    }

    /// The wait before the first line, once.
    pub fn take_startup_delay(&mut self) -> (r: Option<u64>)
        ensures
            (match r {
                Some(d) => Some(d as int),
                None => None,
            }) == old(self)@.startup_delay_ns,
            final(self)@ == (EmulatorView { startup_delay_ns: None, ..old(self)@ }),
            old(self)@.wf() ==> final(self)@.wf(),
    {
        let delay = self.startup_delay_ns;
        self.startup_delay_ns = None;
        delay
    }

    /// The wait before each line, in nanoseconds.
    pub fn sleep_ns(&self) -> (r: u64)
        ensures
            r == self@.sleep_ns,
    {
        self.sleep_ns
    }

    /// The next line. The last line of a source does not play: the check for
    /// its end comes first. In the idle loop that is the `ESPInfo` line.
    pub fn next_line(&mut self) -> (r: String)
        requires
            old(self)@.wf(),
        ensures
            r@ == old(self)@.next_line(),
            final(self)@ == old(self)@.advanced(),
            final(self)@.wf(),
    {
        self.rewind();
        match self.consume_host_command() {
            Some(source) => {
                self.source = source;
                self.line_counter = 0;
                self.rewind();
            },
            None => {},
        }
        assert(self@ == old(self)@.ready());
        proof {
            lemma_ready(old(self)@);
        }
        let lines = self.data.lines(self.source);
        assert(owned_texts(lines@).len() == lines@.len());
        let total: usize = lines.len();
        assert(self.line_counter < total);
        assert(owned_texts(lines@)[self.line_counter as int] == lines@[self.line_counter as int]@);
        let line = trim_text(lines[self.line_counter].as_str(), CharSet::Blanks);
        let mut r = owned(line);
        r.push('\r');
        r.push('\n');
        assert(r@ =~= old(self)@.next_line());
        self.line_counter = self.line_counter + 1;
        r
    }

    /// Back to the idle loop where the source is exhausted.
    fn rewind(&mut self)
        ensures
            final(self)@ == old(self)@.rewound(),
            final(self).host_bytes@ == old(self).host_bytes@,
    {
        let lines = self.data.lines(self.source);
        assert(owned_texts(lines@).len() == lines@.len());
        if lines.len() == 0 || self.line_counter >= lines.len() - 1 {
            self.source = Source::Idle;
            self.line_counter = 0;
        }
    }

    /// Reads what the host wrote.
    fn consume_host_command(&mut self) -> (r: Option<Source>)
        ensures
            r == commanded_source(lossy_text(old(self)@.host_bytes)),
            final(self)@ == (EmulatorView { host_bytes: Seq::<u8>::empty(), ..old(self)@ }),
    {
        if self.host_bytes.len() == 0 {
            proof {
                assert(self.host_bytes@ =~= Seq::<u8>::empty());
                lemma_nothing_commanded();
            }
            return None;
        }
        let text = decode_lossy(self.host_bytes.as_slice());
        self.host_bytes = Vec::new();
        assert(self@.host_bytes =~= Seq::<u8>::empty());
        if contains_text(text.as_str(), "action,start") {
            Some(Source::Espresso)
        } else if contains_text(text.as_str(), "action,stop") {
            Some(Source::Idle)
        } else if contains_text(text.as_str(), "action,purge") {
            Some(Source::Purge)
        } else if contains_text(text.as_str(), "action,home") {
            Some(Source::Home)
        } else {
            None
        }
    }
}

/// No bytes ask for nothing.
proof fn lemma_nothing_commanded()
    ensures
        lossy_text(Seq::<u8>::empty()) == Seq::<char>::empty(),
        commanded_source(Seq::<char>::empty()) is None,
{
    let none = Seq::<char>::empty();
    encode_utf8_valid_utf8(none);
    encode_utf8_decode_utf8(none);
    assert(encode_utf8(none) =~= Seq::<u8>::empty());
    lemma_commands();
    reveal_strlit("action,");
    assert(!occurs(none, "action,start"@)) by {
        assert("action,start"@.len() > 0);
    }
    assert(!occurs(none, "action,stop"@)) by {
        assert("action,stop"@.len() > 0);
    }
    assert(!occurs(none, "action,purge"@)) by {
        assert("action,purge"@.len() > 0);
    }
    assert(!occurs(none, "action,home"@)) by {
        assert("action,home"@.len() > 0);
    }
}

/// The line that plays next is there, and is not the last one of its source.
proof fn lemma_ready(v: EmulatorView)
    requires
        v.wf(),
    ensures
        v.ready().data == v.data,
        v.ready().host_bytes == Seq::<u8>::empty(),
        0 <= v.ready().line_counter < v.ready().lines().len() - 1,
{
    assert(v.data.idle.len() == 3);
}

// ---------------------------------------------------------------------------
// Laws
// ---------------------------------------------------------------------------

/// The line at `i` of a source, as it plays.
pub open spec fn played(v: EmulatorView, source: Source, i: int) -> Seq<char> {
    trimmed(v.data.lines(source)[i], CharSet::Blanks) + seq!['\r', '\n']
}

/// The last line of a source never plays.
pub proof fn law_last_line_never_plays(v: EmulatorView)
    requires
        v.wf(),
    ensures
        v.next_line() == played(v, v.ready().source, v.ready().line_counter),
        0 <= v.ready().line_counter < v.data.lines(v.ready().source).len() - 1,
        v.advanced().wf(),
{
    lemma_ready(v);
}

/// A message that has lost blanks around it and got a line end is still one of
/// its family.
proof fn lemma_played_message(line: Seq<char>, prefix: Seq<char>)
    requires
        begins_with(line, prefix.push(',')),
        prefix.len() > 0,
        !CharSet::Blanks.holds(prefix[0]),
        prefix_kind(prefix) != LineKind::Unrecognized,
    ensures
        is_valid_line(trimmed(line, CharSet::Blanks) + seq!['\r', '\n']),
        line_kind(trimmed(line, CharSet::Blanks) + seq!['\r', '\n']) == prefix_kind(prefix),
{
    let head = prefix.push(',');
    let n = prefix.len() as int;
    assert(line.subrange(0, n + 1)[0] == prefix[0]);
    assert(line.subrange(0, n + 1)[n] == ',');
    assert(trim_front(line, CharSet::Blanks) == line);
    lemma_trim_back_stops(line, CharSet::Blanks, n);
    lemma_trim_back(line, CharSet::Blanks);
    let kept = trimmed(line, CharSet::Blanks);
    let raw = kept + seq!['\r', '\n'];
    let rest = raw.skip(n + 1);
    assert(kept.take(n + 1) =~= line.subrange(0, n + 1));
    assert forall|i: int| 0 <= i <= n implies raw[i] == head[i] by {
        assert(kept.take(n + 1)[i] == head[i]);
    }
    assert(raw =~= head + rest);
    law_prefixed_lines_classify(prefix, rest);
    if boot_banner(raw) {
        law_boot_banner_is_unrecognized(raw);
    }
}

/// Every line that plays is a datapoint or sensor line: an emulated machine
/// raises no alarm by what it says, and never sends machine information.
pub proof fn law_played_lines_are_data_and_sensors(v: EmulatorView)
    requires
        v.wf(),
    ensures
        is_valid_line(v.next_line()),
        line_kind(v.next_line()) == LineKind::Data || line_kind(v.next_line())
            == LineKind::Sensors,
{
    lemma_ready(v);
    let line = v.data.lines(v.ready().source)[v.ready().line_counter];
    lemma_prefixed_line("Data,"@, idle_shot().args());
    lemma_prefixed_line("Sensors,"@, idle_sensors().args());
    assert(v.data.idle.len() == 3);
    assert(carries_message(line));
    lemma_prefix_kinds();
    reveal_strlit("Data");
    reveal_strlit("Sensors");
    reveal_strlit("Data,");
    reveal_strlit("Sensors,");
    assert("Data,"@ =~= "Data"@.push(','));
    assert("Sensors,"@ =~= "Sensors"@.push(','));
    if begins_with(line, "Data,"@) {
        lemma_played_message(line, "Data"@);
    } else {
        lemma_played_message(line, "Sensors"@);
    }
}

/// As long as the host asks for nothing, the lines of a source play in order,
/// and where the source is exhausted the idle loop starts over.
pub proof fn law_sources_play_in_order(v: EmulatorView)
    requires
        v.wf(),
        commanded_source(lossy_text(v.host_bytes)) is None,
    ensures
        v.line_counter < v.lines().len() - 1 ==> v.next_line() == played(
            v,
            v.source,
            v.line_counter,
        ) && v.advanced().source == v.source && v.advanced().line_counter == v.line_counter + 1,
        v.line_counter >= v.lines().len() - 1 ==> v.next_line() == played(v, Source::Idle, 0)
            && v.advanced().source == Source::Idle && v.advanced().line_counter == 1,
{
}

/// After a reset the idle loop starts over, unless the host asks for another
/// source.
pub proof fn law_reset_returns_to_idle(v: EmulatorView, after: EmulatorView)
    requires
        v.wf(),
        commanded_source(lossy_text(v.host_bytes)) is None,
        after == (EmulatorView { line_counter: v.lines().len() as int, ..v }),
    ensures
        after.next_line() == played(v, Source::Idle, 0),
        after.advanced().source == Source::Idle,
{
    assert(v.data.idle.len() == 3);
}

/// The source that an action asks for.
pub open spec fn action_source(action: EspAction) -> Option<Source> {
    match action {
        EspAction::Start => Some(Source::Espresso),
        EspAction::Stop => Some(Source::Idle),
        EspAction::Purge => Some(Source::Purge),
        EspAction::Home => Some(Source::Home),
        _ => None,
    }
}

/// The text of the frame of an action.
pub open spec fn frame_text(name: Seq<char>) -> Seq<char> {
    ("action,"@ + name).push('\u{3}')
}

/// The frame of an action is the UTF-8 form of its text, behind whatever came
/// before.
proof fn lemma_frame_text(pending: Seq<u8>, name: Seq<char>)
    requires
        valid_utf8(pending),
    ensures
        lossy_text(pending + action_frame(name)) == decode_utf8(pending) + frame_text(name),
{
    let front = decode_utf8(pending);
    let body = "action,"@ + name;
    let end = seq!['\u{3}'];
    let all = front + frame_text(name);
    decode_utf8_encode_utf8(pending);
    lemma_encode_concat(front, frame_text(name));
    lemma_encode_concat(body, end);
    is_ascii_chars_encode_utf8(end);
    assert(end[0] as u8 == 0x03u8);
    assert(encode_utf8(end) =~= seq![0x03u8]);
    assert(frame_text(name) =~= body + end);
    assert(action_frame(name) =~= encode_utf8(body) + seq![0x03u8]);
    encode_utf8_valid_utf8(all);
    encode_utf8_decode_utf8(all);
}

/// A command stands in the frame of an action exactly where the name of the
/// action begins with that of the command.
proof fn lemma_command_in_frame(name: Seq<char>, command: Seq<char>)
    requires
        !name.contains(','),
        !command.contains('\u{3}'),
    ensures
        occurs(frame_text(name), "action,"@ + command) <==> command.len() <= name.len()
            && name.take(command.len() as int) == command,
{
    reveal_strlit("action,");
    let head = "action,"@;
    assert(head.len() == 7 && head[6] == ',');
    let frame = frame_text(name);
    let needle = head + command;
    assert forall|i: int| 0 <= i < name.len() implies #[trigger] name[i] != ',' by {
        if name[i] == ',' {
            assert(name.contains(','));
        }
    }
    if occurs(frame, needle) {
        let i = choose|i: int| occurs_at(frame, needle, i);
        let part = frame.subrange(i, i + needle.len());
        assert(part[6] == needle[6]);
        assert(frame[i + 6] == ',');
        if i > 0 {
            if i - 1 < name.len() {
                assert(frame[i + 6] == name[i - 1]);
            }
            assert(false);
        }
        assert forall|j: int| 0 <= j < command.len() implies j < name.len() && name[j]
            == #[trigger] command[j] by {
            assert(part[j + 7] == needle[j + 7]);
            assert(needle[j + 7] == command[j]);
            assert(command.contains(command[j]));
            if j < name.len() {
                assert(frame[j + 7] == name[j]);
            }
        }
        if command.len() > name.len() {
            let extra = command[name.len() as int];
            assert(false);
        }
        assert(name.take(command.len() as int) =~= command);
    }
    if command.len() <= name.len() && name.take(command.len() as int) == command {
        assert forall|j: int| 0 <= j < needle.len() implies frame[j] == needle[j] by {
            if j >= 7 {
                assert(name.take(command.len() as int)[j - 7] == command[j - 7]);
            }
        }
        assert(frame.subrange(0, needle.len() as int) =~= needle);
        assert(occurs_at(frame, needle, 0));
    }
}

/// The frame of an action switches the emulator to the source of that action;
/// the other actions switch nothing.
pub proof fn law_actions_switch_sources(action: EspAction)
    ensures
        commanded_source(lossy_text(action_frame(action.wire_text()))) == action_source(action),
        lossy_text(action_frame(action.wire_text())) == frame_text(action.wire_text()),
{
    let name = action.wire_text();
    let none = Seq::<u8>::empty();
    lemma_nothing_commanded();
    encode_utf8_valid_utf8(Seq::<char>::empty());
    assert(encode_utf8(Seq::<char>::empty()) =~= none);
    lemma_frame_text(none, name);
    assert(none + action_frame(name) =~= action_frame(name));
    assert(decode_utf8(none) + frame_text(name) =~= frame_text(name));
    lemma_action_names();
    lemma_commands();
    lemma_command_in_frame(name, "start"@);
    lemma_command_in_frame(name, "stop"@);
    lemma_command_in_frame(name, "purge"@);
    lemma_command_in_frame(name, "home"@);
    assert(name.len() >= 4 ==> name.take(4)[0] == name[0] && name.take(4)[1] == name[1]);
    assert(name.len() >= 5 ==> name.take(5)[0] == name[0] && name.take(5)[1] == name[1]
        && name.take(5)[2] == name[2]);
    if action == EspAction::Start {
        assert(name.take(5) =~= "start"@);
    } else if action == EspAction::Stop {
        assert(name.take(4) =~= "stop"@);
    } else if action == EspAction::Purge {
        assert(name.take(5) =~= "purge"@);
    } else if action == EspAction::Home {
        assert(name.take(4) =~= "home"@);
    }
}

/// The commands that the emulator looks for.
proof fn lemma_commands()
    ensures
        "action,start"@ == "action,"@ + "start"@,
        "action,stop"@ == "action,"@ + "stop"@,
        "action,purge"@ == "action,"@ + "purge"@,
        "action,home"@ == "action,"@ + "home"@,
        "start"@.len() == 5 && "start"@[0] == 's' && "start"@[1] == 't' && "start"@[2] == 'a',
        "stop"@.len() == 4 && "stop"@[0] == 's' && "stop"@[1] == 't' && "stop"@[2] == 'o',
        "purge"@.len() == 5 && "purge"@[0] == 'p' && "purge"@[1] == 'u',
        "home"@.len() == 4 && "home"@[0] == 'h',
        !"start"@.contains('\u{3}'),
        !"stop"@.contains('\u{3}'),
        !"purge"@.contains('\u{3}'),
        !"home"@.contains('\u{3}'),
{
    reveal_strlit("action,start");
    reveal_strlit("action,stop");
    reveal_strlit("action,purge");
    reveal_strlit("action,home");
    reveal_strlit("action,");
    reveal_strlit("start");
    reveal_strlit("stop");
    reveal_strlit("purge");
    reveal_strlit("home");
    assert("action,start"@ =~= "action,"@ + "start"@);
    assert("action,stop"@ =~= "action,"@ + "stop"@);
    assert("action,purge"@ =~= "action,"@ + "purge"@);
    assert("action,home"@ =~= "action,"@ + "home"@);
}

/// The names of the actions are plain words.
proof fn lemma_action_names()
    ensures
        forall|a: EspAction| !(#[trigger] a.wire_text()).contains(','),
        "tare"@[0] == 't',
        "scale_master_calibration"@[0] == 's' && "scale_master_calibration"@[1] == 'c',
        "preheat"@[0] == 'p' && "preheat"@[1] == 'r',
        "continue"@[0] == 'c',
        "info"@[0] == 'i',
{
    reveal_strlit("start");
    reveal_strlit("stop");
    reveal_strlit("tare");
    reveal_strlit("scale_master_calibration");
    reveal_strlit("preheat");
    reveal_strlit("continue");
    reveal_strlit("home");
    reveal_strlit("purge");
    reveal_strlit("info");
}

/// What the host wrote is read once: the next line uses all of it up, and
/// afterwards nothing is asked for. It decides the source alone.
pub proof fn law_host_bytes_are_read_once(v: EmulatorView)
    requires
        v.wf(),
    ensures
        v.advanced().host_bytes == Seq::<u8>::empty(),
        commanded_source(lossy_text(v.advanced().host_bytes)) is None,
        v.advanced().data == v.data,
        v.advanced().sleep_ns == v.sleep_ns,
        v.advanced().startup_delay_ns == v.startup_delay_ns,
        commanded_source(lossy_text(v.host_bytes)) is None ==> v.ready() == (EmulatorView {
            host_bytes: Seq::<u8>::empty(),
            ..v.rewound()
        }),
{
    lemma_ready(v);
    lemma_nothing_commanded();
}

/// The frame of an action is found behind whatever text the host wrote before
/// it; a start wins over all others.
pub proof fn law_written_actions_are_found(pending: Seq<u8>, action: EspAction)
    requires
        valid_utf8(pending),
        action_source(action) is Some,
    ensures
        commanded_source(lossy_text(pending + action_frame(action.wire_text()))) is Some,
        action == EspAction::Start ==> commanded_source(
            lossy_text(pending + action_frame(action.wire_text())),
        ) == Some(Source::Espresso),
{
    let name = action.wire_text();
    let front = decode_utf8(pending);
    let frame = frame_text(name);
    law_actions_switch_sources(action);
    lemma_frame_text(pending, name);
    if occurs(frame, "action,start"@) {
        lemma_occurs_behind(front, frame, "action,start"@);
    }
    if occurs(frame, "action,stop"@) {
        lemma_occurs_behind(front, frame, "action,stop"@);
    }
    if occurs(frame, "action,purge"@) {
        lemma_occurs_behind(front, frame, "action,purge"@);
    }
    if occurs(frame, "action,home"@) {
        lemma_occurs_behind(front, frame, "action,home"@);
    }
}

/// Once the host wrote the frame of an action that has a source with lines to
/// play, that source plays from its start.
pub proof fn law_action_starts_its_source(v: EmulatorView, action: EspAction, after: EmulatorView)
    requires
        v.wf(),
        v.host_bytes == Seq::<u8>::empty(),
        action_source(action) is Some,
        v.data.lines(action_source(action)->0).len() >= 2,
        after == (EmulatorView {
            host_bytes: v.host_bytes + action_frame(action.wire_text()),
            ..v
        }),
    ensures
        after.next_line() == played(v, action_source(action)->0, 0),
        after.advanced().source == action_source(action)->0,
        after.advanced().line_counter == 1,
{
    law_actions_switch_sources(action);
    assert(after.host_bytes =~= action_frame(action.wire_text()));
}

}
