//! Emulation fixtures: recorded runs as JSON texts, and what is read of them.
//!
//! A text is parsed by `serde_json`. The members that playback reads are taken
//! out of the parsed value, each with the accessor of its type, into a tree of
//! plain values.

use crate::emulator::child;
use crate::json::{items_tree, lemma_find_member, lemma_list_tree, Json, JsonView, Members};
use crate::pynum::{py_float, py_float_value};
use crate::text::{append_text, owned};
use vstd::prelude::*;

verus! {

// ---------------------------------------------------------------------------
// JSON values
// ---------------------------------------------------------------------------

/// What `serde_json` makes of a text: a value, or the message of its error
/// where the text is not JSON.
pub uninterp spec fn parsed_value(text: Seq<char>) -> Result<serde_json::Value, Seq<char>>;

/// `serde_json::from_str` into a `Value`. The result, with the error as its
/// message, goes by the name `parsed_value`.
#[verifier::external_body]
fn parse_value(text: &str) -> (r: Result<serde_json::Value, String>)
    ensures
        (match r {
            Ok(v) => Ok::<serde_json::Value, Seq<char>>(v),
            Err(reason) => Err::<serde_json::Value, Seq<char>>(reason@),
        }) == parsed_value(text@),
{
    match serde_json::from_str::<serde_json::Value>(text) {
        Ok(v) => Ok(v),
        Err(e) => Err(e.to_string()),
    }
}

/// The member of a value with the given key, where the value is an object that
/// has one.
pub uninterp spec fn value_member(
    v: serde_json::Value,
    key: Seq<char>,
) -> Option<serde_json::Value>;

/// `serde_json::Value::get` with a key: the member goes by the name
/// `value_member`.
#[verifier::external_body]
fn get_member<'a>(v: &'a serde_json::Value, key: &str) -> (r: Option<&'a serde_json::Value>)
    ensures
        (match r {
            Some(m) => Some(*m),
            None => None,
        }) == value_member(*v, key@),
{
    v.get(key)
}

/// The elements of a value that is an array.
pub uninterp spec fn value_items(v: serde_json::Value) -> Option<Seq<serde_json::Value>>;

/// `serde_json::Value::as_array`: the elements go by the name `value_items`.
#[verifier::external_body]
fn get_items(v: &serde_json::Value) -> (r: Option<&Vec<serde_json::Value>>)
    ensures
        (match r {
            Some(items) => Some(items@),
            None => None,
        }) == value_items(*v),
{
    v.as_array()
}

/// The characters of a value that is a string.
pub uninterp spec fn value_text(v: serde_json::Value) -> Option<Seq<char>>;

/// `serde_json::Value::as_str`: the characters go by the name `value_text`.
#[verifier::external_body]
fn get_text(v: &serde_json::Value) -> (r: Option<&str>)
    ensures
        (match r {
            Some(s) => Some(s@),
            None => None,
        }) == value_text(*v),
{
    v.as_str()
}

/// The truth of a value that is a boolean.
pub uninterp spec fn value_bool(v: serde_json::Value) -> Option<bool>;

/// `serde_json::Value::as_bool`: the truth goes by the name `value_bool`.
#[verifier::external_body]
fn get_bool(v: &serde_json::Value) -> (r: Option<bool>)
    ensures
        r == value_bool(*v),
{
    v.as_bool()
}

/// The text of a value that is a number.
pub uninterp spec fn value_number(v: serde_json::Value) -> Option<Seq<char>>;

/// `serde_json::Value::as_number` and the `Display` of the number: its text
/// goes by the name `value_number`. A float shows the shortest digits that
/// tell it from other floats.
#[verifier::external_body]
fn get_number(v: &serde_json::Value) -> (r: Option<String>)
    ensures
        (match r {
            Some(s) => Some(s@),
            None => None,
        }) == value_number(*v),
{
    match v.as_number() {
        Some(n) => Some(n.to_string()),
        None => None,
    }
}

// ---------------------------------------------------------------------------
// Reading a fixture
// ---------------------------------------------------------------------------

/// Errors while loading the emulation fixtures.
#[derive(Debug, PartialEq, Eq)]
pub enum EmulationError {
    /// Fixture file missing or unreadable.
    Io {
        /// Fixture path.
        path: String,
        /// What went wrong.
        reason: String,
    },
    /// Fixture is not valid JSON.
    Json {
        /// Fixture path.
        path: String,
        /// What went wrong.
        reason: String,
    },
}

/// What an [`EmulationError`] holds.
pub enum ErrorView {
    Io { path: Seq<char>, reason: Seq<char> },
    Json { path: Seq<char>, reason: Seq<char> },
}

impl View for EmulationError {
    type V = ErrorView;

    open spec fn view(&self) -> ErrorView {
        match self {
            EmulationError::Io { path, reason } => ErrorView::Io { path: path@, reason: reason@ },
            EmulationError::Json { path, reason } => ErrorView::Json {
                path: path@,
                reason: reason@,
            },
        }
    }
}

impl ErrorView {
    /// The error in words.
    pub open spec fn message(self) -> Seq<char> {
        match self {
            ErrorView::Io { path, reason } => "cannot read fixture "@ + path + ": "@ + reason,
            ErrorView::Json { path, reason } => "fixture "@ + path + " is not valid JSON: "@
                + reason,
        }
    }
}

impl EmulationError {
    /// The error in words.
    pub fn message(&self) -> (r: String)
        ensures
            r@ == self@.message(),
    {
        match self {
            EmulationError::Io { path, reason } => {
                let mut out = owned("cannot read fixture ");
                append_text(&mut out, path.as_str());
                append_text(&mut out, ": ");
                append_text(&mut out, reason.as_str());
                out
            },
            EmulationError::Json { path, reason } => {
                let mut out = owned("fixture ");
                append_text(&mut out, path.as_str());
                append_text(&mut out, " is not valid JSON: ");
                append_text(&mut out, reason.as_str());
                out
            },
        }
    }
}

/// A fixture file: its path, and its content or why it could not be read.
#[derive(Debug)]
pub struct FixtureFile {
    /// Where the file stands.
    pub path: String,
    /// The text of the file, or what went wrong.
    pub content: Result<String, String>,
}

/// What a fixture file gives: the value that its text denotes, the error of a
/// file that could not be read, or the error of a text that is not JSON.
pub open spec fn fixture_value(file: FixtureFile) -> Result<serde_json::Value, ErrorView> {
    match file.content {
        Err(reason) => Err(ErrorView::Io { path: file.path@, reason: reason@ }),
        Ok(text) => match parsed_value(text@) {
            Ok(v) => Ok(v),
            Err(reason) => Err(ErrorView::Json { path: file.path@, reason }),
        },
    }
}

/// The value of a fixture file.
pub fn read_fixture(file: FixtureFile) -> (r: Result<serde_json::Value, EmulationError>)
    ensures
        (match r {
            Ok(v) => Ok::<serde_json::Value, ErrorView>(v),
            Err(e) => Err::<serde_json::Value, ErrorView>(e@),
        }) == fixture_value(file),
{
    match file.content {
        Err(reason) => Err(EmulationError::Io { path: file.path, reason }),
        Ok(text) => match parse_value(text.as_str()) {
            Ok(v) => Ok(v),
            Err(reason) => Err(EmulationError::Json { path: file.path, reason }),
        },
    }
}

// ---------------------------------------------------------------------------
// What is read of a value
// ---------------------------------------------------------------------------

/// The sensor readings of a sample that are numbers.
pub const SENSOR_KEYS: [&'static str; 20] = [
    "external_1",
    "external_2",
    "bar_up",
    "bar_mid_up",
    "bar_mid_down",
    "bar_down",
    "tube",
    "motor_temp",
    "lam_temp",
    "motor_position",
    "motor_speed",
    "motor_power",
    "motor_current",
    "bandheater_power",
    "bandheater_current",
    "pressure_sensor",
    "adc_0",
    "adc_1",
    "adc_2",
    "adc_3",
];

/// The shot readings of a sample that are numbers.
pub const SHOT_KEYS: [&'static str; 5] = [
    "pressure",
    "flow",
    "weight",
    "gravimetric_flow",
    "temperature",
];

/// A member, where there is an object that has one.
pub open spec fn member_of(
    v: Option<serde_json::Value>,
    key: Seq<char>,
) -> Option<serde_json::Value> {
    match v {
        Some(j) => value_member(j, key),
        None => None,
    }
}

/// A number, as the float nearest to its text; `null` where there is none.
pub open spec fn number_tree(v: Option<serde_json::Value>) -> JsonView {
    match v {
        Some(j) => match value_number(j) {
            Some(text) => match py_float_value(text) {
                Some(d) => JsonView::Float(d),
                None => JsonView::Null,
            },
            None => JsonView::Null,
        },
        None => JsonView::Null,
    }
}

/// A string; `null` where there is none.
pub open spec fn text_tree(v: Option<serde_json::Value>) -> JsonView {
    match v {
        Some(j) => match value_text(j) {
            Some(text) => JsonView::Text(text),
            None => JsonView::Null,
        },
        None => JsonView::Null,
    }
}

/// A boolean; `null` where there is none.
pub open spec fn bool_tree(v: Option<serde_json::Value>) -> JsonView {
    match v {
        Some(j) => match value_bool(j) {
            Some(b) => JsonView::Bool(b),
            None => JsonView::Null,
        },
        None => JsonView::Null,
    }
}

/// The texts of a list of keys.
pub open spec fn key_texts(keys: Seq<&'static str>) -> Seq<Seq<char>> {
    Seq::new(keys.len(), |i: int| keys[i]@)
}

/// The numbers under the given keys.
pub open spec fn number_members(v: Option<serde_json::Value>, keys: Seq<Seq<char>>) -> Seq<
    (Seq<char>, JsonView),
> {
    Seq::new(keys.len(), |i: int| (keys[i], number_tree(member_of(v, keys[i]))))
}

/// The sensors of a sample.
pub open spec fn sensors_tree(v: Option<serde_json::Value>) -> JsonView {
    JsonView::Object(
        seq![("water_status"@, bool_tree(member_of(v, "water_status"@)))] + number_members(
            v,
            key_texts(SENSOR_KEYS@),
        ),
    )
}

/// The setpoints of a sample: the name of the active controller, and the
/// number under that name.
pub open spec fn setpoints_tree(v: Option<serde_json::Value>) -> JsonView {
    let active = text_tree(member_of(v, "active"@));
    JsonView::Object(
        match active {
            JsonView::Text(kind) => seq![
                ("active"@, active),
                (kind, number_tree(member_of(v, kind))),
            ],
            _ => seq![("active"@, active)],
        },
    )
}

/// The shot readings of a sample.
pub open spec fn shot_tree(v: Option<serde_json::Value>) -> JsonView {
    JsonView::Object(
        seq![("setpoints"@, setpoints_tree(member_of(v, "setpoints"@)))] + number_members(
            v,
            key_texts(SHOT_KEYS@),
        ),
    )
}

/// A sample.
pub open spec fn sample_tree(v: serde_json::Value) -> JsonView {
    JsonView::Object(
        seq![
            ("time"@, number_tree(value_member(v, "time"@))),
            ("status"@, text_tree(value_member(v, "status"@))),
            ("shot"@, shot_tree(value_member(v, "shot"@))),
            ("sensors"@, sensors_tree(value_member(v, "sensors"@))),
        ],
    )
}

/// The samples of a fixture; `null` where there is no list of them.
pub open spec fn samples_tree(v: Option<serde_json::Value>) -> JsonView {
    match v {
        Some(j) => match value_items(j) {
            Some(items) => JsonView::List(Seq::new(items.len(), |i: int| sample_tree(items[i]))),
            None => JsonView::Null,
        },
        None => JsonView::Null,
    }
}

/// What playback reads of a fixture.
pub open spec fn fixture_tree(v: serde_json::Value) -> JsonView {
    JsonView::Object(
        seq![
            ("profile_name"@, text_tree(value_member(v, "profile_name"@))),
            ("data"@, samples_tree(value_member(v, "data"@))),
        ],
    )
}

/// The value behind an optional reference.
pub open spec fn opt_value(v: Option<&serde_json::Value>) -> Option<serde_json::Value> {
    match v {
        Some(j) => Some(*j),
        None => None,
    }
}

/// A member, where there is an object that has one.
fn take_member<'a>(v: Option<&'a serde_json::Value>, key: &str) -> (r: Option<
    &'a serde_json::Value,
>)
    ensures
        opt_value(r) == member_of(opt_value(v), key@),
{
    match v {
        Some(j) => get_member(j, key),
        None => None,
    }
}

/// A number.
fn read_number(v: Option<&serde_json::Value>) -> (r: Json)
    ensures
        r.tree() == number_tree(opt_value(v)),
{
    match v {
        Some(j) => match get_number(j) {
            Some(text) => match py_float(text.as_str()) {
                Some(d) => Json::Float(d),
                None => Json::Null,
            },
            None => Json::Null,
        },
        None => Json::Null,
    }
}

/// A string.
fn read_text(v: Option<&serde_json::Value>) -> (r: Json)
    ensures
        r.tree() == text_tree(opt_value(v)),
{
    match v {
        Some(j) => match get_text(j) {
            Some(text) => Json::string(text),
            None => Json::Null,
        },
        None => Json::Null,
    }
}

/// A boolean.
fn read_bool(v: Option<&serde_json::Value>) -> (r: Json)
    ensures
        r.tree() == bool_tree(opt_value(v)),
{
    match v {
        Some(j) => match get_bool(j) {
            Some(b) => Json::Bool(b),
            None => Json::Null,
        },
        None => Json::Null,
    }
}

/// Adds the numbers under the given keys.
fn add_numbers(m: &mut Members, v: Option<&serde_json::Value>, keys: &[&'static str])
    ensures
        final(m)@ == old(m)@ + number_members(opt_value(v), key_texts(keys@)),
{
    let ghost before = m@;
    let ghost all = number_members(opt_value(v), key_texts(keys@));
    assert(before + all.take(0) =~= before);
    for i in 0..keys.len()
        invariant
            all == number_members(opt_value(v), key_texts(keys@)),
            m@ == before + all.take(i as int),
    {
        m.add(keys[i], read_number(take_member(v, keys[i])));
        assert(before + all.take(i + 1) =~= (before + all.take(i as int)).push(all[i as int]));
    }
    assert(all.take(all.len() as int) =~= all);
}

/// The sensors of a sample.
fn read_sensors(v: Option<&serde_json::Value>) -> (r: Json)
    ensures
        r.tree() == sensors_tree(opt_value(v)),
{
    let mut m = Members::new();
    m.add("water_status", read_bool(take_member(v, "water_status")));
    add_numbers(&mut m, v, SENSOR_KEYS.as_slice());
    assert(m@ =~= sensors_tree(opt_value(v))->Object_0);
    m.build()
}

/// The setpoints of a sample.
fn read_setpoints(v: Option<&serde_json::Value>) -> (r: Json)
    ensures
        r.tree() == setpoints_tree(opt_value(v)),
{
    let mut m = Members::new();
    let active = read_text(take_member(v, "active"));
    let kind = match active.as_str() {
        Some(kind) => Some(owned(kind)),
        None => None,
    };
    m.add("active", active);
    match kind {
        Some(kind) => {
            m.add(kind.as_str(), read_number(take_member(v, kind.as_str())));
        },
        None => {},
    }
    assert(m@ =~= setpoints_tree(opt_value(v))->Object_0);
    m.build()
}

/// The shot readings of a sample.
fn read_shot(v: Option<&serde_json::Value>) -> (r: Json)
    ensures
        r.tree() == shot_tree(opt_value(v)),
{
    let mut m = Members::new();
    m.add("setpoints", read_setpoints(take_member(v, "setpoints")));
    add_numbers(&mut m, v, SHOT_KEYS.as_slice());
    assert(m@ =~= shot_tree(opt_value(v))->Object_0);
    m.build()
}

/// A sample.
fn read_sample(v: &serde_json::Value) -> (r: Json)
    ensures
        r.tree() == sample_tree(*v),
{
    let mut m = Members::new();
    m.add("time", read_number(get_member(v, "time")));
    m.add("status", read_text(get_member(v, "status")));
    m.add("shot", read_shot(get_member(v, "shot")));
    m.add("sensors", read_sensors(get_member(v, "sensors")));
    assert(m@ =~= sample_tree(*v)->Object_0);
    m.build()
}

/// The samples of a fixture.
fn read_samples(v: Option<&serde_json::Value>) -> (r: Json)
    ensures
        r.tree() == samples_tree(opt_value(v)),
{
    match v {
        Some(j) => match get_items(j) {
            Some(items) => {
                let mut out: Vec<Json> = Vec::new();
                for i in 0..items.len()
                    invariant
                        out@.len() == i,
                        forall|k: int| 0 <= k < i ==> (#[trigger] out@[k]).tree() == sample_tree(
                            items@[k],
                        ),
                {
                    out.push(read_sample(&items[i]));
                }
                proof {
                    lemma_list_tree(out);
                    assert(items_tree(out@) =~= samples_tree(opt_value(v))->List_0);
                }
                Json::List(out)
            },
            None => Json::Null,
        },
        None => Json::Null,
    }
}

/// What playback reads of a fixture, as a tree of plain values.
pub fn fixture_json(v: &serde_json::Value) -> (r: Json)
    ensures
        r.tree() == fixture_tree(*v),
{
    let mut m = Members::new();
    m.add("profile_name", read_text(get_member(v, "profile_name")));
    m.add("data", read_samples(get_member(v, "data")));
    assert(m@ =~= fixture_tree(*v)->Object_0);
    m.build()
}

// ---------------------------------------------------------------------------
// Laws
// ---------------------------------------------------------------------------

/// A number under one of the keys is found behind a first member with another
/// key.
proof fn lemma_number_found(
    first: (Seq<char>, JsonView),
    v: Option<serde_json::Value>,
    keys: Seq<Seq<char>>,
    i: int,
)
    requires
        0 <= i < keys.len(),
        first.0 != keys[i],
    ensures
        child(JsonView::Object(seq![first] + number_members(v, keys)), keys[i]) == number_tree(
            member_of(v, keys[i]),
        ),
{
    let members = seq![first] + number_members(v, keys);
    lemma_find_member(members, keys[i], 0);
    assert(members[i + 1].0 == keys[i]);
}

/// The keys of numbers are no other members.
proof fn lemma_keys_differ()
    ensures
        forall|i: int|
            0 <= i < 20 ==> #[trigger] key_texts(SENSOR_KEYS@)[i] != "water_status"@,
        forall|i: int| 0 <= i < 5 ==> #[trigger] key_texts(SHOT_KEYS@)[i] != "setpoints"@,
        "time"@ != "status"@,
        "time"@ != "shot"@,
        "time"@ != "sensors"@,
        "status"@ != "shot"@,
        "status"@ != "sensors"@,
        "shot"@ != "sensors"@,
        "profile_name"@ != "data"@,
{
    reveal_strlit("external_1");
    reveal_strlit("external_2");
    reveal_strlit("bar_up");
    reveal_strlit("bar_mid_up");
    reveal_strlit("bar_mid_down");
    reveal_strlit("bar_down");
    reveal_strlit("tube");
    reveal_strlit("motor_temp");
    reveal_strlit("lam_temp");
    reveal_strlit("motor_position");
    reveal_strlit("motor_speed");
    reveal_strlit("motor_power");
    reveal_strlit("motor_current");
    reveal_strlit("bandheater_power");
    reveal_strlit("bandheater_current");
    reveal_strlit("pressure_sensor");
    reveal_strlit("adc_0");
    reveal_strlit("adc_1");
    reveal_strlit("adc_2");
    reveal_strlit("adc_3");
    reveal_strlit("water_status");
    reveal_strlit("pressure");
    reveal_strlit("flow");
    reveal_strlit("weight");
    reveal_strlit("gravimetric_flow");
    reveal_strlit("temperature");
    reveal_strlit("setpoints");
    reveal_strlit("time");
    reveal_strlit("status");
    reveal_strlit("shot");
    reveal_strlit("sensors");
    reveal_strlit("profile_name");
    reveal_strlit("data");
    assert("water_status"@[0] == 'w' && "setpoints"@.len() == 9 && "setpoints"@[0] == 's');
    assert forall|i: int| 0 <= i < 20 implies #[trigger] key_texts(SENSOR_KEYS@)[i]
        != "water_status"@ by {
        assert(key_texts(SENSOR_KEYS@)[i][0] != 'w');
    }
    assert forall|i: int| 0 <= i < 5 implies #[trigger] key_texts(SHOT_KEYS@)[i]
        != "setpoints"@ by {
        assert(key_texts(SHOT_KEYS@)[i][0] != 's');
    }
    assert("time"@.len() == 4 && "status"@.len() == 6 && "shot"@.len() == 4 && "sensors"@.len()
        == 7);
    assert("time"@[0] == 't' && "shot"@[0] == 's');
    assert("profile_name"@.len() == 12 && "data"@.len() == 4);
}

/// What playback looks up in the tree is what stands in the value under the
/// same key, read with the accessor of its type.
pub proof fn law_fixture_members_are_read(v: serde_json::Value, i: int)
    ensures
        child(fixture_tree(v), "profile_name"@) == text_tree(value_member(v, "profile_name"@)),
        child(fixture_tree(v), "data"@) == samples_tree(value_member(v, "data"@)),
        child(sample_tree(v), "time"@) == number_tree(value_member(v, "time"@)),
        child(sample_tree(v), "status"@) == text_tree(value_member(v, "status"@)),
        child(sample_tree(v), "shot"@) == shot_tree(value_member(v, "shot"@)),
        child(sample_tree(v), "sensors"@) == sensors_tree(value_member(v, "sensors"@)),
        child(sensors_tree(Some(v)), "water_status"@) == bool_tree(
            value_member(v, "water_status"@),
        ),
        0 <= i < 20 ==> child(sensors_tree(Some(v)), SENSOR_KEYS@[i]@) == number_tree(
            value_member(v, SENSOR_KEYS@[i]@),
        ),
        child(shot_tree(Some(v)), "setpoints"@) == setpoints_tree(value_member(v, "setpoints"@)),
        0 <= i < 5 ==> child(shot_tree(Some(v)), SHOT_KEYS@[i]@) == number_tree(
            value_member(v, SHOT_KEYS@[i]@),
        ),
        child(setpoints_tree(Some(v)), "active"@) == text_tree(value_member(v, "active"@)),
        text_tree(value_member(v, "active"@)) matches JsonView::Text(kind) ==> (kind != "active"@
            ==> child(setpoints_tree(Some(v)), kind) == number_tree(value_member(v, kind))),
{
    let some = Some(v);
    reveal_with_fuel(crate::json::find_member, 5);
    lemma_keys_differ();
    if 0 <= i < 20 {
        assert(key_texts(SENSOR_KEYS@)[i] != "water_status"@);
        lemma_number_found(
            ("water_status"@, bool_tree(member_of(some, "water_status"@))),
            some,
            key_texts(SENSOR_KEYS@),
            i,
        );
    }
    if 0 <= i < 5 {
        assert(key_texts(SHOT_KEYS@)[i] != "setpoints"@);
        lemma_number_found(
            ("setpoints"@, setpoints_tree(member_of(some, "setpoints"@))),
            some,
            key_texts(SHOT_KEYS@),
            i,
        );
    }
}

}
