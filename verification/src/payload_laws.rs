//! What clients see of each message: under which name each field stands.

use crate::button::ButtonEventData;
use crate::decimal::DecimalView;
use crate::esp_info::EspInfo;
use crate::field_laws::client_name;
use crate::heater::HeaterTimeoutInfo;
use crate::json::{law_set_member_is_read_back, lemma_find_member, JsonView};
use crate::letters::lower;
use crate::pynum::PyFloatView;
use crate::sensor::SensorData;
use crate::shot::{with_controller, MachineState, ShotData};
use crate::text::opt_text;
use vstd::prelude::*;

verus! {

/// A number in JSON, which has no infinities and no not-a-number.
pub open spec fn shown_number(v: DecimalView) -> JsonView {
    match v {
        DecimalView::Finite { negative, literal } => JsonView::Float(v),
        _ => JsonView::Null,
    }
}

/// A reading in JSON: a number, or the text `NaN`.
pub open spec fn shown_reading(v: PyFloatView) -> JsonView {
    match v {
        PyFloatView::Num(d) => shown_number(d),
        PyFloatView::NanString => JsonView::Text("NaN"@),
    }
}

/// A text in JSON, which may be missing.
pub open spec fn shown_text(v: Option<Seq<char>>) -> JsonView {
    match v {
        Some(t) => JsonView::Text(t),
        None => JsonView::Null,
    }
}

/// The object has exactly these members, in any order.
pub open spec fn has_members(v: JsonView, members: Seq<(Seq<char>, JsonView)>) -> bool {
    v matches JsonView::Object(all) && all.len() == members.len() && forall|i: int|
        0 <= i < members.len() ==> all.contains(#[trigger] members[i])
}

/// The object shows the value under the name.
pub open spec fn shows(v: JsonView, name: Seq<char>, value: JsonView) -> bool {
    v matches JsonView::Object(members) && members.contains((name, value))
}

/// What clients see of sensor readings: these and no others.
pub proof fn law_sensors_payload(data: SensorData)
    ensures
        data@.sio() matches JsonView::Object(members) && members.len() == 23,
        shows(data@.sio(), "t_ext_1"@, shown_number(data.external_1@)),
        shows(data@.sio(), "t_ext_2"@, shown_number(data.external_2@)),
        shows(data@.sio(), "t_bar_up"@, shown_number(data.bar_up@)),
        shows(data@.sio(), "t_bar_mu"@, shown_number(data.bar_mid_up@)),
        shows(data@.sio(), "t_bar_md"@, shown_number(data.bar_mid_down@)),
        shows(data@.sio(), "t_bar_down"@, shown_number(data.bar_down@)),
        shows(data@.sio(), "t_tube"@, shown_number(data.tube@)),
        shows(data@.sio(), "t_motor_temp"@, shown_number(data.motor_temp@)),
        shows(data@.sio(), "lam_temp"@, shown_number(data.lam_temp@)),
        shows(data@.sio(), "p"@, shown_number(data.pressure_sensor@)),
        shows(data@.sio(), "a_0"@, shown_number(data.adc_0@)),
        shows(data@.sio(), "a_1"@, shown_number(data.adc_1@)),
        shows(data@.sio(), "a_2"@, shown_number(data.adc_2@)),
        shows(data@.sio(), "a_3"@, shown_number(data.adc_3@)),
        shows(data@.sio(), "m_pos"@, shown_number(data.motor_position@)),
        shows(data@.sio(), "m_spd"@, shown_number(data.motor_speed@)),
        shows(data@.sio(), "m_pwr"@, shown_number(data.motor_power@)),
        shows(data@.sio(), "m_cur"@, shown_number(data.motor_current@)),
        shows(data@.sio(), "bh_pwr"@, shown_number(data.bandheater_power@)),
        shows(data@.sio(), "bh_cur"@, shown_number(data.bandheater_current@)),
        shows(data@.sio(), "w_stat"@, JsonView::Bool(data.water_status)),
        shows(data@.sio(), "motor_temp"@, shown_reading(data.motor_thermistor@)),
        shows(data@.sio(), "weight_pred"@, shown_reading(data.weight_prediction@)),
{
    let all = data@.sio()->Object_0;
    assert(shows(data@.sio(), "t_ext_1"@, shown_number(data.external_1@))) by {
        assert(all[0] == ("t_ext_1"@, shown_number(data.external_1@)));
    }
    assert(shows(data@.sio(), "t_ext_2"@, shown_number(data.external_2@))) by {
        assert(all[1] == ("t_ext_2"@, shown_number(data.external_2@)));
    }
    assert(shows(data@.sio(), "t_bar_up"@, shown_number(data.bar_up@))) by {
        assert(all[2] == ("t_bar_up"@, shown_number(data.bar_up@)));
    }
    assert(shows(data@.sio(), "t_bar_mu"@, shown_number(data.bar_mid_up@))) by {
        assert(all[3] == ("t_bar_mu"@, shown_number(data.bar_mid_up@)));
    }
    assert(shows(data@.sio(), "t_bar_md"@, shown_number(data.bar_mid_down@))) by {
        assert(all[4] == ("t_bar_md"@, shown_number(data.bar_mid_down@)));
    }
    assert(shows(data@.sio(), "t_bar_down"@, shown_number(data.bar_down@))) by {
        assert(all[5] == ("t_bar_down"@, shown_number(data.bar_down@)));
    }
    assert(shows(data@.sio(), "t_tube"@, shown_number(data.tube@))) by {
        assert(all[6] == ("t_tube"@, shown_number(data.tube@)));
    }
    assert(shows(data@.sio(), "t_motor_temp"@, shown_number(data.motor_temp@))) by {
        assert(all[7] == ("t_motor_temp"@, shown_number(data.motor_temp@)));
    }
    assert(shows(data@.sio(), "lam_temp"@, shown_number(data.lam_temp@))) by {
        assert(all[8] == ("lam_temp"@, shown_number(data.lam_temp@)));
    }
    assert(shows(data@.sio(), "p"@, shown_number(data.pressure_sensor@))) by {
        assert(all[9] == ("p"@, shown_number(data.pressure_sensor@)));
    }
    assert(shows(data@.sio(), "a_0"@, shown_number(data.adc_0@))) by {
        assert(all[10] == ("a_0"@, shown_number(data.adc_0@)));
    }
    assert(shows(data@.sio(), "a_1"@, shown_number(data.adc_1@))) by {
        assert(all[11] == ("a_1"@, shown_number(data.adc_1@)));
    }
    assert(shows(data@.sio(), "a_2"@, shown_number(data.adc_2@))) by {
        assert(all[12] == ("a_2"@, shown_number(data.adc_2@)));
    }
    assert(shows(data@.sio(), "a_3"@, shown_number(data.adc_3@))) by {
        assert(all[13] == ("a_3"@, shown_number(data.adc_3@)));
    }
    assert(shows(data@.sio(), "m_pos"@, shown_number(data.motor_position@))) by {
        assert(all[14] == ("m_pos"@, shown_number(data.motor_position@)));
    }
    assert(shows(data@.sio(), "m_spd"@, shown_number(data.motor_speed@))) by {
        assert(all[15] == ("m_spd"@, shown_number(data.motor_speed@)));
    }
    assert(shows(data@.sio(), "m_pwr"@, shown_number(data.motor_power@))) by {
        assert(all[16] == ("m_pwr"@, shown_number(data.motor_power@)));
    }
    assert(shows(data@.sio(), "m_cur"@, shown_number(data.motor_current@))) by {
        assert(all[17] == ("m_cur"@, shown_number(data.motor_current@)));
    }
    assert(shows(data@.sio(), "bh_pwr"@, shown_number(data.bandheater_power@))) by {
        assert(all[18] == ("bh_pwr"@, shown_number(data.bandheater_power@)));
    }
    assert(shows(data@.sio(), "bh_cur"@, shown_number(data.bandheater_current@))) by {
        assert(all[19] == ("bh_cur"@, shown_number(data.bandheater_current@)));
    }
    assert(shows(data@.sio(), "w_stat"@, JsonView::Bool(data.water_status))) by {
        assert(all[20] == ("w_stat"@, JsonView::Bool(data.water_status)));
    }
    assert(shows(data@.sio(), "motor_temp"@, shown_reading(data.motor_thermistor@))) by {
        assert(all[21] == ("motor_temp"@, shown_reading(data.motor_thermistor@)));
    }
    assert(shows(data@.sio(), "weight_pred"@, shown_reading(data.weight_prediction@))) by {
        assert(all[22] == ("weight_pred"@, shown_reading(data.weight_prediction@)));
    }
}

/// What clients see of machine information.
pub proof fn law_info_payload(data: EspInfo)
    ensures
        has_members(
            data@.sio(),
            seq![
                ("firmware_version"@, JsonView::Text(data.firmware_v@)),
                ("esp_pinout"@, JsonView::Integer(data.esp_pinout as int)),
                ("main_voltage"@, shown_number(data.main_voltage@)),
                ("color"@, JsonView::Text(data.color@)),
                ("serial_number"@, JsonView::Text(data.serial_number@)),
                ("batch_number"@, JsonView::Text(data.batch_number@)),
                ("build_date"@, JsonView::Text(data.build_date@)),
                ("scale_module"@, JsonView::Text(data.scale_module@)),
                ("partial_retraction"@, shown_number(data.partial_retraction@)),
                ("auto_purge_after_shot"@, JsonView::Bool(data.auto_purge_after_shot)),
            ],
        ),
{
    let all = data@.sio()->Object_0;
    assert(all.contains(all[0]));
    assert(all.contains(all[1]));
    assert(all.contains(all[2]));
    assert(all.contains(all[3]));
    assert(all.contains(all[4]));
    assert(all.contains(all[5]));
    assert(all.contains(all[6]));
    assert(all.contains(all[7]));
    assert(all.contains(all[8]));
    assert(all.contains(all[9]));
}

/// What clients see of heater timeouts.
pub proof fn law_heater_payload(data: HeaterTimeoutInfo)
    ensures
        data@.dict().member("coffe_profile_end"@) matches Some(end) && has_members(
            end,
            seq![
                ("remaining"@, shown_number(data.coffe_profile_end_remaining@)),
                ("timeout"@, shown_number(data.coffe_profile_end_timeout@)),
            ],
        ),
        data@.dict().member("preheat"@) matches Some(preheat) && has_members(
            preheat,
            seq![
                ("remaining"@, shown_number(data.preheat_remaining@)),
                ("timeout"@, shown_number(data.preheat_timeout@)),
            ],
        ),
        data@.dict()->Object_0.len() == 2,
{
    let all = data@.dict()->Object_0;
    reveal_strlit("coffe_profile_end");
    reveal_strlit("preheat");
    assert("coffe_profile_end"@.len() == 17 && "preheat"@.len() == 7);
    reveal_with_fuel(crate::json::find_member, 3);
    let end = all[0].1->Object_0;
    let preheat = all[1].1->Object_0;
    assert(end.contains(end[0]) && end.contains(end[1]));
    assert(preheat.contains(preheat[0]) && preheat.contains(preheat[1]));
}

/// What clients see of a button event.
pub proof fn law_button_payload(data: ButtonEventData)
    ensures
        has_members(
            data.sio(),
            seq![
                ("type"@, JsonView::Text(client_name(data.event))),
                ("time_since_last_event"@, JsonView::Integer(data.time_since_last_event as int)),
            ],
        ),
{
    let all = data.sio()->Object_0;
    assert(all.contains(all[0]) && all.contains(all[1]));
}

/// The name of a machine state.
pub open spec fn state_word(state: MachineState) -> Seq<char> {
    match state {
        MachineState::Idle => "idle"@,
        MachineState::Purge => "purge"@,
        MachineState::Home => "home"@,
        MachineState::Brewing => "brewing"@,
    }
}

/// What clients see of a datapoint, apart from the setpoints.
#[verifier::rlimit(40)]
pub proof fn law_status_payload(data: ShotData)
    ensures
        ({
            let setpoints = data@.setpoints();
            has_members(
                data@.sio(),
                seq![
                    ("name"@, shown_text(opt_text(data.status))),
                    (
                        "sensors"@,
                        JsonView::Object(
                            seq![
                                ("p"@, shown_reading(data.pressure@)),
                                ("f"@, shown_reading(data.flow@)),
                                ("w"@, shown_reading(data.weight@)),
                                ("t"@, shown_reading(data.temperature@)),
                                ("g"@, shown_reading(data.gravimetric_flow@)),
                            ],
                        ),
                    ),
                    ("setpoints"@, JsonView::Object(setpoints)),
                    ("time"@, JsonView::Integer(data.time as int)),
                    ("profile"@, shown_text(opt_text(data.profile))),
                    ("profile_time"@, JsonView::Integer(data.profile_time as int)),
                    ("state"@, JsonView::Text(state_word(data.state))),
                    ("extracting"@, JsonView::Bool(data.is_extracting)),
                ],
            )
        }),
{
    let all = data@.sio()->Object_0;
    assert(all.contains(all[0]));
    assert(all.contains(all[1]));
    assert(all.contains(all[2]));
    assert(all.contains(all[3]));
    assert(all.contains(all[4]));
    assert(all.contains(all[5]));
    assert(all.contains(all[6]));
    assert(all.contains(all[7]));
}

/// What clients see of the setpoints: each controller with its setpoint, under
/// its kind in small letters, and which one is active. That is the main one,
/// unless the auxiliary one says that it is; without a controller none is.
#[verifier::rlimit(40)]
pub proof fn law_setpoints_payload(data: ShotData, other: Seq<char>)
    ensures
        ({
            let shown = JsonView::Object(data@.setpoints());
            let main = opt_text(data.main_controller_kind);
            let aux = opt_text(data.aux_controller_kind);
            let aux_is_active = aux is Some && data.is_aux_controller_active;
            &&& aux_is_active ==> shown.member("active"@) == Some(JsonView::Text(lower(aux->0)))
            &&& main is Some && !aux_is_active && (aux matches Some(a) ==> lower(a) != "active"@)
                ==> shown.member("active"@) == Some(JsonView::Text(lower(main->0)))
            &&& main is None && !aux_is_active && (aux matches Some(a) ==> lower(a) != "active"@)
                ==> shown.member("active"@) == Some(JsonView::Null)
            &&& aux matches Some(a) ==> (lower(a) != "active"@ ==> shown.member(lower(a)) == Some(
                shown_number(data.aux_setpoint@),
            ))
            &&& main matches Some(m) ==> (lower(m) != "active"@ && (aux matches Some(a) ==> lower(a)
                != lower(m)) ==> shown.member(lower(m)) == Some(shown_number(data.main_setpoint@)))
            &&& other != "active"@ && (main matches Some(m) ==> lower(m) != other) && (
            aux matches Some(a) ==> lower(a) != other) ==> shown.member(other) is None
        }),
{
    let start = seq![("active"@, JsonView::Null)];
    let main = opt_text(data.main_controller_kind);
    let aux = opt_text(data.aux_controller_kind);
    let first = with_controller(start, main, data.main_setpoint@, true);
    let active = data.is_aux_controller_active;
    lemma_find_member(start, "active"@, 0);
    lemma_find_member(start, other, 0);
    lemma_controller(start, main, data.main_setpoint@, true, "active"@);
    lemma_controller(start, main, data.main_setpoint@, true, other);
    lemma_controller(first, aux, data.aux_setpoint@, active, "active"@);
    lemma_controller(first, aux, data.aux_setpoint@, active, other);
    if let Some(m) = main {
        lemma_controller(start, main, data.main_setpoint@, true, lower(m));
        lemma_controller(first, aux, data.aux_setpoint@, active, lower(m));
    }
    if let Some(a) = aux {
        lemma_controller(first, aux, data.aux_setpoint@, active, lower(a));
    }
}

/// What one controller adds to the setpoints.
proof fn lemma_controller(
    setpoints: Seq<(Seq<char>, JsonView)>,
    kind: Option<Seq<char>>,
    setpoint: DecimalView,
    active: bool,
    key: Seq<char>,
)
    ensures
        ({
            let after = JsonView::Object(with_controller(setpoints, kind, setpoint, active));
            let before = JsonView::Object(setpoints);
            &&& kind is None ==> after.member(key) == before.member(key)
            &&& kind matches Some(k) ==> {
                &&& active ==> after.member("active"@) == Some(JsonView::Text(lower(k)))
                &&& key != lower(k) && (key != "active"@ || !active) ==> after.member(key)
                    == before.member(key)
                &&& lower(k) != "active"@ || !active ==> after.member(lower(k)) == Some(
                    shown_number(setpoint),
                )
            }
        }),
{
    if let Some(k) = kind {
        let l = lower(k);
        let value = shown_number(setpoint);
        let added = crate::json::set_member(setpoints, l, value);
        let beside = if l == "active"@ {
            l.push('x')
        } else {
            "active"@
        };
        assert(beside != l) by {
            assert(l.push('x').len() == l.len() + 1);
        }
        law_set_member_is_read_back(setpoints, l, value, beside);
        if key != l {
            law_set_member_is_read_back(setpoints, l, value, key);
        }
        let text = JsonView::Text(l);
        if key != "active"@ {
            law_set_member_is_read_back(added, "active"@, text, key);
        }
        if l != "active"@ {
            law_set_member_is_read_back(added, "active"@, text, l);
        } else {
            law_set_member_is_read_back(added, "active"@, text, beside);
        }
    }
}


/// A member of an object is the first one with its name, and nothing but an
/// object has members.
pub proof fn law_members_are_found(members: Seq<(Seq<char>, JsonView)>, key: Seq<char>, i: int)
    requires
        0 <= i <= members.len(),
        forall|j: int| 0 <= j < i ==> (#[trigger] members[j]).0 != key,
        i < members.len() ==> members[i].0 == key,
    ensures
        JsonView::Object(members).member(key) == (if i < members.len() {
            Some(members[i].1)
        } else {
            None
        }),
{
    lemma_find_member(members, key, 0);
    let found = crate::json::find_member(members, key, 0);
    if found < i {
        assert(members[found].0 != key);
    }
}

/// Each value is read as what it is, and as nothing else.
pub proof fn law_values_are_read(v: JsonView)
    ensures
        v.text() is Some <==> v is Text,
        v matches JsonView::Text(t) ==> v.text() == Some(t),
        v.boolean() is Some <==> v is Bool,
        v matches JsonView::Bool(b) ==> v.boolean() == Some(b),
        v.items() is Some <==> v is List,
        v matches JsonView::List(items) ==> v.items() == Some(items),
        v.number() is Some <==> v is Float || v is Integer,
        v matches JsonView::Float(d) ==> v.number() == Some(d),
{
}

}
