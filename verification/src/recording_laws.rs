//! What is read of a recorded run: which member of the recording each reading
//! comes from.

use crate::decimal::DecimalView;
use crate::emulator::{child, float_at, sample_sensors, sample_shot};
use crate::fixture::{
    fixture_tree, law_fixture_members_are_read, sample_tree, value_bool, value_items, value_member,
    value_number, value_text, SENSOR_KEYS, SHOT_KEYS,
};
use crate::json::JsonView;
use crate::playback_laws::{lemma_child, nought, number_of, text_of_member};
use crate::pynum::py_float_value;
use vstd::prelude::*;

verus! {

/// A number that was recorded; zero where there is none.
pub open spec fn recorded(v: Option<serde_json::Value>, key: Seq<char>) -> DecimalView {
    match recorded_number(v, key) {
        Some(d) => d,
        None => nought(),
    }
}

/// A number that was recorded.
pub open spec fn recorded_number(v: Option<serde_json::Value>, key: Seq<char>) -> Option<
    DecimalView,
> {
    match recorded_member(v, key) {
        Some(m) => match value_number(m) {
            Some(text) => py_float_value(text),
            None => None,
        },
        None => None,
    }
}

/// A member that was recorded.
pub open spec fn recorded_member(v: Option<serde_json::Value>, key: Seq<char>) -> Option<
    serde_json::Value,
> {
    match v {
        Some(object) => value_member(object, key),
        None => None,
    }
}

/// The sensors that are played of a sample are the recorded ones, each under
/// its own name.
#[verifier::spinoff_prover]
#[verifier::rlimit(60)]
pub proof fn law_recorded_sensors_are_played(sample: serde_json::Value, sensors: serde_json::Value)
    requires
        value_member(sample, "sensors"@) == Some(sensors),
    ensures
        ({
            let s = sample_sensors(sample_tree(sample));
            let from = Some(sensors);
            &&& s.external_1 == recorded(from, "external_1"@)
            &&& s.external_2 == recorded(from, "external_2"@)
            &&& s.bar_up == recorded(from, "bar_up"@)
            &&& s.bar_mid_up == recorded(from, "bar_mid_up"@)
            &&& s.bar_mid_down == recorded(from, "bar_mid_down"@)
            &&& s.bar_down == recorded(from, "bar_down"@)
            &&& s.tube == recorded(from, "tube"@)
            &&& s.motor_temp == recorded(from, "motor_temp"@)
            &&& s.lam_temp == recorded(from, "lam_temp"@)
            &&& s.motor_position == recorded(from, "motor_position"@)
            &&& s.motor_speed == recorded(from, "motor_speed"@)
            &&& s.motor_power == recorded(from, "motor_power"@)
            &&& s.motor_current == recorded(from, "motor_current"@)
            &&& s.bandheater_power == recorded(from, "bandheater_power"@)
            &&& s.bandheater_current == recorded(from, "bandheater_current"@)
            &&& s.pressure_sensor == recorded(from, "pressure_sensor"@)
            &&& s.adc_0 == recorded(from, "adc_0"@)
            &&& s.adc_1 == recorded(from, "adc_1"@)
            &&& s.adc_2 == recorded(from, "adc_2"@)
            &&& s.adc_3 == recorded(from, "adc_3"@)
            &&& s.water_status <==> (value_member(sensors, "water_status"@) matches Some(b)
                && value_bool(b) == Some(true))
        }),
{
    law_fixture_members_are_read(sample, 0);
    law_fixture_members_are_read(sensors, 0);
    lemma_sensor_keys();
    lemma_recorded(sample, sensors, 0);
    lemma_recorded(sample, sensors, 1);
    lemma_recorded(sample, sensors, 2);
    lemma_recorded(sample, sensors, 3);
    lemma_recorded(sample, sensors, 4);
    lemma_recorded(sample, sensors, 5);
    lemma_recorded(sample, sensors, 6);
    lemma_recorded(sample, sensors, 7);
    lemma_recorded(sample, sensors, 8);
    lemma_recorded(sample, sensors, 9);
    lemma_recorded(sample, sensors, 10);
    lemma_recorded(sample, sensors, 11);
    lemma_recorded(sample, sensors, 12);
    lemma_recorded(sample, sensors, 13);
    lemma_recorded(sample, sensors, 14);
    lemma_recorded(sample, sensors, 15);
    lemma_recorded(sample, sensors, 16);
    lemma_recorded(sample, sensors, 17);
    lemma_recorded(sample, sensors, 18);
    lemma_recorded(sample, sensors, 19);
}

/// A sensor reading of a sample is the recorded one.
proof fn lemma_recorded(sample: serde_json::Value, sensors: serde_json::Value, i: int)
    requires
        value_member(sample, "sensors"@) == Some(sensors),
        0 <= i < 20,
    ensures
        float_at(child(sample_tree(sample), "sensors"@), SENSOR_KEYS@[i]@) == recorded(
            Some(sensors),
            SENSOR_KEYS@[i]@,
        ),
{
    law_fixture_members_are_read(sample, 0);
    law_fixture_members_are_read(sensors, i);
}

/// The names of the sensor readings.
proof fn lemma_sensor_keys()
    ensures
        SENSOR_KEYS@[0]@ == "external_1"@,
        SENSOR_KEYS@[1]@ == "external_2"@,
        SENSOR_KEYS@[2]@ == "bar_up"@,
        SENSOR_KEYS@[3]@ == "bar_mid_up"@,
        SENSOR_KEYS@[4]@ == "bar_mid_down"@,
        SENSOR_KEYS@[5]@ == "bar_down"@,
        SENSOR_KEYS@[6]@ == "tube"@,
        SENSOR_KEYS@[7]@ == "motor_temp"@,
        SENSOR_KEYS@[8]@ == "lam_temp"@,
        SENSOR_KEYS@[9]@ == "motor_position"@,
        SENSOR_KEYS@[10]@ == "motor_speed"@,
        SENSOR_KEYS@[11]@ == "motor_power"@,
        SENSOR_KEYS@[12]@ == "motor_current"@,
        SENSOR_KEYS@[13]@ == "bandheater_power"@,
        SENSOR_KEYS@[14]@ == "bandheater_current"@,
        SENSOR_KEYS@[15]@ == "pressure_sensor"@,
        SENSOR_KEYS@[16]@ == "adc_0"@,
        SENSOR_KEYS@[17]@ == "adc_1"@,
        SENSOR_KEYS@[18]@ == "adc_2"@,
        SENSOR_KEYS@[19]@ == "adc_3"@,
        SHOT_KEYS@[0]@ == "pressure"@,
        SHOT_KEYS@[1]@ == "flow"@,
        SHOT_KEYS@[2]@ == "weight"@,
        SHOT_KEYS@[3]@ == "gravimetric_flow"@,
        SHOT_KEYS@[4]@ == "temperature"@,
{
}

/// The readings that are played of a sample are the recorded ones, each under
/// its own name: the status, the readings of the shot, the active controller
/// and its setpoint.
#[verifier::spinoff_prover]
#[verifier::rlimit(60)]
pub proof fn law_recorded_shots_are_played(
    sample: serde_json::Value,
    shot: serde_json::Value,
    setpoints: serde_json::Value,
    profile: Seq<char>,
)
    requires
        value_member(sample, "shot"@) == Some(shot),
        value_member(shot, "setpoints"@) == Some(setpoints),
    ensures
        ({
            let s = sample_shot(sample_tree(sample), profile);
            let from = Some(shot);
            let active = match value_member(setpoints, "active"@) {
                Some(a) => value_text(a),
                None => None,
            };
            &&& s.pressure->Num_0 == recorded(from, "pressure"@)
            &&& s.flow->Num_0 == recorded(from, "flow"@)
            &&& s.weight->Num_0 == recorded(from, "weight"@)
            &&& s.gravimetric_flow->Num_0 == recorded(from, "gravimetric_flow"@)
            &&& recorded_number(from, "temperature"@) matches Some(t) ==> s.temperature->Num_0 == t
            &&& s.profile == Some(profile)
            &&& s.status == (match value_member(sample, "status"@) {
                Some(t) => value_text(t),
                None => None,
            })
            &&& s.main_controller_kind == active
            &&& active matches Some(k) ==> (k != "active"@ ==> s.main_setpoint == (
            match recorded_number(Some(setpoints), k) {
                Some(n) => n,
                None => DecimalView::Finite { negative: true, literal: "1"@ },
            }))
            &&& active is None ==> s.main_setpoint == (DecimalView::Finite {
                negative: true,
                literal: "1"@,
            })
        }),
{
    law_fixture_members_are_read(sample, 0);
    law_fixture_members_are_read(setpoints, 0);
    lemma_sensor_keys();
    law_fixture_members_are_read(shot, 0);
    law_fixture_members_are_read(shot, 1);
    law_fixture_members_are_read(shot, 2);
    law_fixture_members_are_read(shot, 3);
    law_fixture_members_are_read(shot, 4);
}

/// The time of a sample, and the samples and the profile of a run, are the
/// recorded ones.
pub proof fn law_recorded_runs_are_played(run: serde_json::Value, data: serde_json::Value)
    requires
        value_member(run, "data"@) == Some(data),
    ensures
        value_items(data) matches Some(items) ==> fixture_tree(run).member("data"@) == Some(
            JsonView::List(Seq::new(items.len(), |i: int| sample_tree(items[i]))),
        ),
        number_of(sample_tree(run).member("time"@)) == recorded_number(Some(run), "time"@),
        text_of_member(fixture_tree(run).member("profile_name"@)) == (
        match value_member(run, "profile_name"@) {
            Some(t) => value_text(t),
            None => None,
        }),
{
    law_fixture_members_are_read(run, 0);
    lemma_child(sample_tree(run), "time"@);
    lemma_child(fixture_tree(run), "profile_name"@);
}

}
