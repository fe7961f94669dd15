//! What is played of a recorded run: which member of which sample stands at
//! which place of which line.

use crate::canonical::lemma_zero;
use crate::decimal::DecimalView;
use crate::emulator::{active_kind, child, fixture_lines, sample_lines, sample_sensors, sample_shot};
use crate::json::JsonView;
use crate::pynum::float_text;
use crate::text::join;
use vstd::prelude::*;

verus! {

/// Zero.
pub open spec fn nought() -> DecimalView {
    DecimalView::Finite { negative: false, literal: "0"@ }
}

/// The member of an object, where there is an object that has one.
pub open spec fn under(v: Option<JsonView>, key: Seq<char>) -> Option<JsonView> {
    match v {
        Some(object) => object.member(key),
        None => None,
    }
}

/// The number of a member, where it is one.
pub open spec fn number_of(v: Option<JsonView>) -> Option<DecimalView> {
    match v {
        Some(value) => value.number(),
        None => None,
    }
}

/// The text of a member, where it is one.
pub open spec fn text_of_member(v: Option<JsonView>) -> Option<Seq<char>> {
    match v {
        Some(value) => value.text(),
        None => None,
    }
}

/// A number on the wire; zero where there is none.
pub open spec fn wire_number(v: Option<JsonView>, key: Seq<char>) -> Seq<char> {
    match number_of(under(v, key)) {
        Some(d) => float_text(d),
        None => float_text(nought()),
    }
}

/// The sample is played: it has a time above zero.
pub open spec fn is_played(sample: JsonView) -> bool {
    number_of(sample.member("time"@)) matches Some(d) && d.is_positive()
}

/// How many of the samples are played.
pub open spec fn played_among(samples: Seq<JsonView>) -> nat
    decreases samples.len(),
{
    if samples.len() == 0 {
        0
    } else if is_played(samples.last()) {
        played_among(samples.drop_last()) + 1
    } else {
        played_among(samples.drop_last())
    }
}

/// What a member lookup gives.
pub proof fn lemma_child(v: JsonView, key: Seq<char>)
    ensures
        child(v, key).number() == number_of(v.member(key)),
        child(v, key).text() == text_of_member(v.member(key)),
        forall|k: Seq<char>| #[trigger] child(v, key).member(k) == under(v.member(key), k),
{
}

/// Zero is not above zero.
proof fn lemma_nought()
    ensures
        !nought().is_positive(),
{
    lemma_zero();
    reveal_strlit("0");
    assert("0"@ =~= seq!['0']);
}

/// Which samples are played.
proof fn lemma_is_played(sample: JsonView)
    ensures
        crate::emulator::float_at(sample, "time"@).is_positive() == is_played(sample),
{
    lemma_child(sample, "time"@);
    lemma_nought();
}

/// The arguments of the datapoint line of a sample, place by place.
pub open spec fn datapoint_args(sample: JsonView, profile: Seq<char>) -> Seq<Seq<char>> {
    let shot = sample.member("shot"@);
    let setpoints = under(shot, "setpoints"@);
    let active = text_of_member(under(setpoints, "active"@));
    seq![
        wire_number(shot, "pressure"@),
        wire_number(shot, "flow"@),
        wire_number(shot, "weight"@),
        "U"@,
        match number_of(under(shot, "temperature"@)) {
            Some(d) => float_text(d),
            None => wire_number(sample.member("sensors"@), "tube"@),
        },
        match text_of_member(sample.member("status"@)) {
            Some(t) => t,
            None => Seq::<char>::empty(),
        },
        profile,
        match active {
            Some(k) => k,
            None => "none"@,
        },
        match active {
            Some(k) => match number_of(under(setpoints, k)) {
                Some(n) => float_text(n),
                None => float_text(DecimalView::Finite { negative: true, literal: "1"@ }),
            },
            None => float_text(DecimalView::Finite { negative: true, literal: "1"@ }),
        },
        "none"@,
        float_text(nought()),
        "false"@,
        wire_number(shot, "gravimetric_flow"@),
    ]
}

/// The arguments of the sensor line of a sample, place by place.
pub open spec fn sensor_args(sample: JsonView) -> Seq<Seq<char>> {
    let sensors = sample.member("sensors"@);
    seq![
        wire_number(sensors, "external_1"@),
        wire_number(sensors, "external_2"@),
        wire_number(sensors, "bar_up"@),
        wire_number(sensors, "bar_mid_up"@),
        wire_number(sensors, "bar_mid_down"@),
        wire_number(sensors, "bar_down"@),
        wire_number(sensors, "tube"@),
        wire_number(sensors, "motor_temp"@),
        wire_number(sensors, "lam_temp"@),
        wire_number(sensors, "motor_position"@),
        wire_number(sensors, "motor_speed"@),
        wire_number(sensors, "motor_power"@),
        wire_number(sensors, "motor_current"@),
        wire_number(sensors, "bandheater_current"@),
        wire_number(sensors, "bandheater_power"@),
        wire_number(sensors, "pressure_sensor"@),
        wire_number(sensors, "adc_0"@),
        wire_number(sensors, "adc_1"@),
        wire_number(sensors, "adc_2"@),
        wire_number(sensors, "adc_3"@),
        if under(sensors, "water_status"@) matches Some(b) && b.boolean() == Some(true) {
            "true"@
        } else {
            "false"@
        },
        float_text(nought()),
        float_text(nought()),
    ]
}

/// What is written of a number of a sample.
proof fn lemma_wire_number(sample: JsonView, part: Seq<char>, key: Seq<char>)
    ensures
        float_text(crate::emulator::float_at(child(sample, part), key)) == wire_number(
            sample.member(part),
            key,
        ),
{
    lemma_child(sample, part);
    lemma_child(child(sample, part), key);
}

/// What is written of a sample.
proof fn lemma_sample_args(sample: JsonView, profile: Seq<char>)
    ensures
        sample_shot(sample, profile).args() == datapoint_args(sample, profile),
        sample_sensors(sample).args() == sensor_args(sample),
{
    lemma_datapoint_args(sample, profile);
    lemma_sensor_args(sample);
}

/// What is written of the shot of a sample.
#[verifier::spinoff_prover]
#[verifier::rlimit(40)]
proof fn lemma_datapoint_args(sample: JsonView, profile: Seq<char>)
    ensures
        sample_shot(sample, profile).args() == datapoint_args(sample, profile),
{
    let shot = child(sample, "shot"@);
    let setpoints = child(shot, "setpoints"@);
    lemma_child(sample, "shot"@);
    lemma_child(sample, "status"@);
    lemma_child(shot, "setpoints"@);
    lemma_child(shot, "temperature"@);
    lemma_child(setpoints, "active"@);
    lemma_wire_number(sample, "shot"@, "pressure"@);
    lemma_wire_number(sample, "shot"@, "flow"@);
    lemma_wire_number(sample, "shot"@, "weight"@);
    lemma_wire_number(sample, "shot"@, "gravimetric_flow"@);
    lemma_wire_number(sample, "sensors"@, "tube"@);
    if let Some(k) = active_kind(sample) {
        lemma_child(setpoints, k);
    }
    assert(sample_shot(sample, profile).args() =~= datapoint_args(sample, profile));
}

/// What is written of the sensors of a sample.
proof fn lemma_sensor_args(sample: JsonView)
    ensures
        sample_sensors(sample).args() == sensor_args(sample),
{
    let data = sample_sensors(sample);
    let readings = data.readings();
    let args = data.args();
    let expected = sensor_args(sample);
    assert(args.len() == 23 && expected.len() == 23);
    assert forall|i: int| 0 <= i < 20 implies args[i] == float_text(#[trigger] readings[i]) by {}
    assert(args[0] == expected[0]) by {
        assert(readings[0] == data.external_1);
        lemma_wire_number(sample, "sensors"@, "external_1"@);
    }
    assert(args[1] == expected[1]) by {
        assert(readings[1] == data.external_2);
        lemma_wire_number(sample, "sensors"@, "external_2"@);
    }
    assert(args[2] == expected[2]) by {
        assert(readings[2] == data.bar_up);
        lemma_wire_number(sample, "sensors"@, "bar_up"@);
    }
    assert(args[3] == expected[3]) by {
        assert(readings[3] == data.bar_mid_up);
        lemma_wire_number(sample, "sensors"@, "bar_mid_up"@);
    }
    assert(args[4] == expected[4]) by {
        assert(readings[4] == data.bar_mid_down);
        lemma_wire_number(sample, "sensors"@, "bar_mid_down"@);
    }
    assert(args[5] == expected[5]) by {
        assert(readings[5] == data.bar_down);
        lemma_wire_number(sample, "sensors"@, "bar_down"@);
    }
    assert(args[6] == expected[6]) by {
        assert(readings[6] == data.tube);
        lemma_wire_number(sample, "sensors"@, "tube"@);
    }
    assert(args[7] == expected[7]) by {
        assert(readings[7] == data.motor_temp);
        lemma_wire_number(sample, "sensors"@, "motor_temp"@);
    }
    assert(args[8] == expected[8]) by {
        assert(readings[8] == data.lam_temp);
        lemma_wire_number(sample, "sensors"@, "lam_temp"@);
    }
    assert(args[9] == expected[9]) by {
        assert(readings[9] == data.motor_position);
        lemma_wire_number(sample, "sensors"@, "motor_position"@);
    }
    assert(args[10] == expected[10]) by {
        assert(readings[10] == data.motor_speed);
        lemma_wire_number(sample, "sensors"@, "motor_speed"@);
    }
    assert(args[11] == expected[11]) by {
        assert(readings[11] == data.motor_power);
        lemma_wire_number(sample, "sensors"@, "motor_power"@);
    }
    assert(args[12] == expected[12]) by {
        assert(readings[12] == data.motor_current);
        lemma_wire_number(sample, "sensors"@, "motor_current"@);
    }
    assert(args[13] == expected[13]) by {
        assert(readings[13] == data.bandheater_current);
        lemma_wire_number(sample, "sensors"@, "bandheater_current"@);
    }
    assert(args[14] == expected[14]) by {
        assert(readings[14] == data.bandheater_power);
        lemma_wire_number(sample, "sensors"@, "bandheater_power"@);
    }
    assert(args[15] == expected[15]) by {
        assert(readings[15] == data.pressure_sensor);
        lemma_wire_number(sample, "sensors"@, "pressure_sensor"@);
    }
    assert(args[16] == expected[16]) by {
        assert(readings[16] == data.adc_0);
        lemma_wire_number(sample, "sensors"@, "adc_0"@);
    }
    assert(args[17] == expected[17]) by {
        assert(readings[17] == data.adc_1);
        lemma_wire_number(sample, "sensors"@, "adc_1"@);
    }
    assert(args[18] == expected[18]) by {
        assert(readings[18] == data.adc_2);
        lemma_wire_number(sample, "sensors"@, "adc_2"@);
    }
    assert(args[19] == expected[19]) by {
        assert(readings[19] == data.adc_3);
        lemma_wire_number(sample, "sensors"@, "adc_3"@);
    }
    lemma_child(sample, "sensors"@);
    assert(args =~= expected);
}

/// Each sample with a time above zero gives two lines, in order: a datapoint
/// and a sensor line, with the members of the sample in their places. Samples
/// without give none.
pub proof fn law_samples_become_lines(samples: Seq<JsonView>, profile: Seq<char>, i: int)
    requires
        0 <= i < samples.len(),
    ensures
        sample_lines(samples, profile).len() == 2 * played_among(samples),
        is_played(samples[i]) ==> ({
            let at = 2 * played_among(samples.take(i)) as int;
            &&& at + 1 < sample_lines(samples, profile).len()
            &&& sample_lines(samples, profile)[at] == "Data,"@ + join(
                datapoint_args(samples[i], profile),
                ',',
            )
            &&& sample_lines(samples, profile)[at + 1] == "Sensors,"@ + join(
                sensor_args(samples[i]),
                ',',
            )
        }),
    decreases samples.len(),
{
    let before = samples.drop_last();
    let last = samples.last();
    lemma_is_played(last);
    lemma_sample_args(last, profile);
    lemma_line_count(samples, profile);
    lemma_line_count(before, profile);
    if i < before.len() {
        law_samples_become_lines(before, profile, i);
        assert(before.take(i) =~= samples.take(i));
        assert(before[i] == samples[i]);
    } else {
        assert(samples.take(i) =~= before);
    }
}

/// How many lines samples give.
proof fn lemma_line_count(samples: Seq<JsonView>, profile: Seq<char>)
    ensures
        sample_lines(samples, profile).len() == 2 * played_among(samples),
    decreases samples.len(),
{
    if samples.len() > 0 {
        lemma_line_count(samples.drop_last(), profile);
        lemma_is_played(samples.last());
    }
}

/// The lines of a run are those of its samples, with the name of its profile,
/// which may be missing.
pub proof fn law_runs_become_lines(run: JsonView)
    ensures
        fixture_lines(run) == sample_lines(
            match run.member("data"@) {
                Some(JsonView::List(samples)) => samples,
                _ => Seq::<JsonView>::empty(),
            },
            match run.member("profile_name"@) {
                Some(JsonView::Text(name)) => name,
                _ => Seq::<char>::empty(),
            },
        ),
{
}

/// The setpoint of a datapoint line is that of the active controller, under its
/// own name, whatever else the sample holds.
pub proof fn law_the_active_setpoint_is_played(
    sample: JsonView,
    profile: Seq<char>,
    shot: JsonView,
    setpoints: JsonView,
    kind: Seq<char>,
    value: JsonView,
    n: DecimalView,
)
    requires
        sample.member("shot"@) == Some(shot),
        shot.member("setpoints"@) == Some(setpoints),
        setpoints.member("active"@) == Some(JsonView::Text(kind)),
        setpoints.member(kind) == Some(value),
        value.number() == Some(n),
    ensures
        sample_shot(sample, profile).args()[7] == kind,
        sample_shot(sample, profile).args()[8] == float_text(n),
        sample_shot(sample, profile).main_controller_kind == Some(kind),
        sample_shot(sample, profile).main_setpoint == n,
{
}

}
