//! Which argument of a line each field of its message is, position by
//! position, and which field each argument of a written line is.

use crate::button::{
    law_event_names_are_read_back, lemma_names, token_event, wire_event, ButtonEvent,
    ButtonEventData,
};
use crate::decimal::DecimalView;
use crate::digits::int_text;
use crate::esp_info::EspInfo;
use crate::heater::HeaterTimeoutInfo;
use crate::letters::{lower, upper};
use crate::log::{items_of, EspLog};
use crate::message::{
    law_joined_lines_parse, lemma_prefix_kinds, line_kind, line_message, LineKind, MessageView,
};
use crate::notify::MachineNotify;
use crate::pynum::{
    float_text, nan_float_value, py_float_text, py_float_value, py_int_value, safe_float_value,
    unquoted, PyFloatView,
};
use crate::sensor::SensorData;
use crate::shot::{MachineState, ShotData};
use crate::text::{join, law_split_undoes_join, opt_text, split, trimmed, CharSet};
use vstd::prelude::*;

verus! {

/// The line is the prefix and the arguments with commas between, up to line
/// ends around it; no argument holds a comma.
pub open spec fn is_line_of(raw: Seq<char>, prefix: Seq<char>, args: Seq<Seq<char>>) -> bool {
    &&& args.len() >= 1
    &&& forall|i: int| 0 <= i < args.len() ==> !(#[trigger] args[i]).contains(',')
    &&& trimmed(raw, CharSet::LineEnds) == join(seq![prefix] + args, ',')
}

/// The fields of a `Sensors,` line by their positions: the bandheater's current
/// stands before its power.
pub proof fn law_sensor_fields(raw: Seq<char>, args: Seq<Seq<char>>, data: SensorData)
    requires
        is_line_of(raw, "Sensors"@, args),
        args.len() >= 23,
        line_message(raw) == Some(MessageView::Sensors(data@)),
    ensures
        line_kind(raw) == LineKind::Sensors,
        Some(data.external_1@) == safe_float_value(args[0]),
        Some(data.external_2@) == safe_float_value(args[1]),
        Some(data.bar_up@) == safe_float_value(args[2]),
        Some(data.bar_mid_up@) == safe_float_value(args[3]),
        Some(data.bar_mid_down@) == safe_float_value(args[4]),
        Some(data.bar_down@) == safe_float_value(args[5]),
        Some(data.tube@) == safe_float_value(args[6]),
        Some(data.motor_temp@) == safe_float_value(args[7]),
        Some(data.lam_temp@) == safe_float_value(args[8]),
        Some(data.motor_position@) == safe_float_value(args[9]),
        Some(data.motor_speed@) == safe_float_value(args[10]),
        Some(data.motor_power@) == safe_float_value(args[11]),
        Some(data.motor_current@) == safe_float_value(args[12]),
        Some(data.bandheater_current@) == safe_float_value(args[13]),
        Some(data.bandheater_power@) == safe_float_value(args[14]),
        Some(data.pressure_sensor@) == safe_float_value(args[15]),
        Some(data.adc_0@) == safe_float_value(args[16]),
        Some(data.adc_1@) == safe_float_value(args[17]),
        Some(data.adc_2@) == safe_float_value(args[18]),
        Some(data.adc_3@) == safe_float_value(args[19]),
        data.water_status == (lower(args[20]) == "true"@),
        data.motor_thermistor@ == nan_float_value(args[21]),
        data.weight_prediction@ == nan_float_value(args[22]),
{
    lemma_prefix_kinds();
    law_joined_lines_parse(raw, "Sensors"@, args);
    assert(forall|i: int| 0 <= i < 20 ==> safe_float_value(#[trigger] args[i]) is Some);
}

/// A `Sensors,` line carries readings exactly where it has twenty numbers and
/// three more arguments.
pub proof fn law_sensor_lines_are_complete(raw: Seq<char>, args: Seq<Seq<char>>)
    requires
        is_line_of(raw, "Sensors"@, args),
        args.len() >= 2,
    ensures
        line_message(raw) is Some <==> args.len() >= 23 && forall|i: int|
            0 <= i < 20 ==> safe_float_value(#[trigger] args[i]) is Some,
        line_message(raw) is Some ==> line_message(raw)->0 is Sensors,
{
    lemma_prefix_kinds();
    law_joined_lines_parse(raw, "Sensors"@, args);
}

/// What is written of sensor readings, position by position.
pub proof fn law_sensor_args(data: SensorData)
    ensures
        data@.args() == seq![
            float_text(data.external_1@),
            float_text(data.external_2@),
            float_text(data.bar_up@),
            float_text(data.bar_mid_up@),
            float_text(data.bar_mid_down@),
            float_text(data.bar_down@),
            float_text(data.tube@),
            float_text(data.motor_temp@),
            float_text(data.lam_temp@),
            float_text(data.motor_position@),
            float_text(data.motor_speed@),
            float_text(data.motor_power@),
            float_text(data.motor_current@),
            float_text(data.bandheater_current@),
            float_text(data.bandheater_power@),
            float_text(data.pressure_sensor@),
            float_text(data.adc_0@),
            float_text(data.adc_1@),
            float_text(data.adc_2@),
            float_text(data.adc_3@),
            if data.water_status {
                "true"@
            } else {
                "false"@
            },
            py_float_text(data.motor_thermistor@),
            py_float_text(data.weight_prediction@),
        ],
{
    assert(data@.args().len() == 23);
}

/// A text field: the argument at `i` without line ends and percent escapes,
/// where there is one.
pub open spec fn text_at(args: Seq<Seq<char>>, i: int) -> Option<Seq<char>> {
    if i < args.len() {
        Some(unquoted(trimmed(args[i], CharSet::LineEnds)))
    } else {
        None
    }
}

/// The fields of a `Data,` line by their positions. A datapoint off the wire
/// has no times yet and belongs to no shot.
pub proof fn law_datapoint_fields(raw: Seq<char>, args: Seq<Seq<char>>, data: ShotData)
    requires
        is_line_of(raw, "Data"@, args),
        line_message(raw) == Some(MessageView::Shot(data@)),
    ensures
        args.len() >= 5,
        line_kind(raw) == LineKind::Data,
        data.pressure@ == nan_float_value(args[0]),
        data.flow@ == nan_float_value(args[1]),
        data.weight@ == nan_float_value(args[2]),
        data.stable_weight == (trimmed(args[3], CharSet::LineEnds) == "S"@),
        data.temperature@ == nan_float_value(args[4]),
        opt_text(data.status) == text_at(args, 5),
        opt_text(data.profile) == text_at(args, 6),
        data.time == -1,
        data.profile_time == -1,
        !data.is_extracting,
        data.state == MachineState::Idle <==> text_at(args, 6) is None || text_at(args, 6)
            == Some("idle"@),
        data.state == MachineState::Purge <==> text_at(args, 6) == Some("Purge"@),
        data.state == MachineState::Home <==> text_at(args, 6) == Some("Home"@),
{
    lemma_prefix_kinds();
    law_joined_lines_parse(raw, "Data"@, args);
    reveal_strlit("idle");
    reveal_strlit("Purge");
    reveal_strlit("Home");
    assert("idle"@.len() == 4 && "idle"@[0] == 'i');
    assert("Purge"@.len() == 5);
    assert("Home"@.len() == 4 && "Home"@[0] == 'H');
}

/// The controllers of a `Data,` line by their positions. Only lines with more
/// than twelve arguments carry them, and a setpoint that is no number leaves
/// everything behind it out.
pub proof fn law_controller_fields(raw: Seq<char>, args: Seq<Seq<char>>, data: ShotData)
    requires
        is_line_of(raw, "Data"@, args),
        line_message(raw) == Some(MessageView::Shot(data@)),
    ensures
        ({
            let kind = |i: int|
                {
                    let word = trimmed(args[i], CharSet::LineEnds);
                    if word == "none"@ {
                        None
                    } else {
                        Some(word)
                    }
                };
            let zero = DecimalView::Finite { negative: false, literal: "0"@ };
            let main = safe_float_value(trimmed(args[8], CharSet::LineEnds));
            let aux = safe_float_value(trimmed(args[10], CharSet::LineEnds));
            let has_main = args.len() > 12 && main is Some;
            let has_aux = has_main && aux is Some;
            &&& args.len() > 12 ==> opt_text(data.main_controller_kind) == kind(7)
            &&& args.len() <= 12 ==> data.main_controller_kind is None
            &&& has_main ==> Some(data.main_setpoint@) == main
            &&& has_main ==> opt_text(data.aux_controller_kind) == kind(9)
            &&& !has_main ==> data.main_setpoint@ == zero && data.aux_controller_kind is None
            &&& has_aux ==> Some(data.aux_setpoint@) == aux
            &&& has_aux ==> data.is_aux_controller_active == (trimmed(args[11], CharSet::LineEnds)
                == "true"@)
            &&& has_aux ==> data.gravimetric_flow@ == nan_float_value(args[12])
            &&& !has_aux ==> data.aux_setpoint@ == zero && !data.is_aux_controller_active
                && data.gravimetric_flow@ == PyFloatView::Num(zero)
        }),
{
    lemma_prefix_kinds();
    law_joined_lines_parse(raw, "Data"@, args);
}

/// A `Data,` line carries a datapoint exactly where it has five arguments or
/// more.
pub proof fn law_datapoint_lines_are_complete(raw: Seq<char>, args: Seq<Seq<char>>)
    requires
        is_line_of(raw, "Data"@, args),
    ensures
        line_message(raw) is Some <==> args.len() >= 5,
        line_message(raw) is Some ==> line_message(raw)->0 is Shot,
{
    lemma_prefix_kinds();
    law_joined_lines_parse(raw, "Data"@, args);
}

/// A text field of a written line; nothing where there is none.
pub open spec fn shown(t: Option<Seq<char>>, absent: Seq<char>) -> Seq<char> {
    match t {
        Some(s) => s,
        None => absent,
    }
}

/// What is written of a datapoint, position by position.
pub proof fn law_datapoint_args(data: ShotData)
    ensures
        data@.args() == seq![
            py_float_text(data.pressure@),
            py_float_text(data.flow@),
            py_float_text(data.weight@),
            if data.stable_weight {
                "S"@
            } else {
                "U"@
            },
            py_float_text(data.temperature@),
            shown(opt_text(data.status), Seq::<char>::empty()),
            shown(opt_text(data.profile), Seq::<char>::empty()),
            shown(opt_text(data.main_controller_kind), "none"@),
            float_text(data.main_setpoint@),
            shown(opt_text(data.aux_controller_kind), "none"@),
            float_text(data.aux_setpoint@),
            if data.is_aux_controller_active {
                "true"@
            } else {
                "false"@
            },
            py_float_text(data.gravimetric_flow@),
        ],
{
}

/// The fields of an `ESPInfo,` line by their positions, as far as the line
/// goes.
pub proof fn law_info_fields(raw: Seq<char>, args: Seq<Seq<char>>, data: EspInfo)
    requires
        is_line_of(raw, "ESPInfo"@, args),
        line_message(raw) == Some(MessageView::Info(data@)),
    ensures
        args.len() >= 3,
        line_kind(raw) == LineKind::EspInfo,
        data.firmware_v@ == args[0],
        py_int_value(args[1]) matches Some(n) ==> data.esp_pinout == n,
        py_int_value(args[1]) is None ==> data.esp_pinout == 0,
        Some(data.main_voltage@) == py_float_value(args[2]),
        args.len() >= 8 ==> data.color@ == args[3] && data.serial_number@ == args[4]
            && data.batch_number@ == args[5] && data.build_date@ == args[6] && data.scale_module@
            == args[7],
        args.len() < 8 ==> data.color@.len() == 0 && data.serial_number@.len() == 0
            && data.batch_number@.len() == 0 && data.build_date@.len() == 0
            && data.scale_module@.len() == 0,
        args.len() >= 9 ==> Some(data.partial_retraction@) == py_float_value(args[8]),
        args.len() < 9 ==> data.partial_retraction@ == (DecimalView::Finite {
            negative: false,
            literal: "45"@,
        }),
        args.len() >= 10 ==> data.auto_purge_after_shot == (lower(args[9]) == "true"@),
        args.len() < 10 ==> !data.auto_purge_after_shot,
{
    lemma_prefix_kinds();
    law_joined_lines_parse(raw, "ESPInfo"@, args);
}

/// An `ESPInfo,` line carries information exactly where it has three arguments
/// or more, with a number at the voltage and at the retraction where there is
/// one.
pub proof fn law_info_lines_are_complete(raw: Seq<char>, args: Seq<Seq<char>>)
    requires
        is_line_of(raw, "ESPInfo"@, args),
    ensures
        line_message(raw) is Some <==> args.len() >= 3 && py_float_value(args[2]) is Some && (
        args.len() >= 9 ==> py_float_value(args[8]) is Some),
        line_message(raw) is Some ==> line_message(raw)->0 is Info,
{
    lemma_prefix_kinds();
    law_joined_lines_parse(raw, "ESPInfo"@, args);
}

/// What is written of machine information, position by position.
pub proof fn law_info_args(data: EspInfo)
    ensures
        data@.args() == seq![
            data.firmware_v@,
            int_text(data.esp_pinout as int),
            float_text(data.main_voltage@),
            data.color@,
            data.serial_number@,
            data.batch_number@,
            data.build_date@,
            data.scale_module@,
            float_text(data.partial_retraction@),
            if data.auto_purge_after_shot {
                "true"@
            } else {
                "false"@
            },
        ],
{
}

/// The fields of a `HeaterTimeoutInfo,` line by their positions.
pub proof fn law_heater_fields(raw: Seq<char>, args: Seq<Seq<char>>, data: HeaterTimeoutInfo)
    requires
        is_line_of(raw, "HeaterTimeoutInfo"@, args),
        line_message(raw) == Some(MessageView::HeaterTimeout(data@)),
    ensures
        args.len() == 4,
        line_kind(raw) == LineKind::HeaterTimeout,
        Some(data.coffe_profile_end_remaining@) == py_float_value(args[0]),
        Some(data.coffe_profile_end_timeout@) == py_float_value(args[1]),
        Some(data.preheat_remaining@) == py_float_value(args[2]),
        Some(data.preheat_timeout@) == py_float_value(args[3]),
{
    lemma_prefix_kinds();
    law_joined_lines_parse(raw, "HeaterTimeoutInfo"@, args);
}

/// A `HeaterTimeoutInfo,` line carries timeouts exactly where it is four
/// numbers.
pub proof fn law_heater_lines_are_complete(raw: Seq<char>, args: Seq<Seq<char>>)
    requires
        is_line_of(raw, "HeaterTimeoutInfo"@, args),
    ensures
        line_message(raw) is Some <==> args.len() == 4 && py_float_value(args[0]) is Some
            && py_float_value(args[1]) is Some && py_float_value(args[2]) is Some && py_float_value(
            args[3],
        ) is Some,
        line_message(raw) is Some ==> line_message(raw)->0 is HeaterTimeout,
{
    lemma_prefix_kinds();
    law_joined_lines_parse(raw, "HeaterTimeoutInfo"@, args);
}

/// A `Notify,` line always carries a notification: the first argument is its
/// type, and the text is the rest of the line with line breaks for semicolons.
pub proof fn law_notification_fields(raw: Seq<char>, args: Seq<Seq<char>>, data: MachineNotify)
    requires
        is_line_of(raw, "Notify"@, args),
        line_message(raw) == Some(MessageView::Notify(data@)),
    ensures
        line_kind(raw) == LineKind::Notify,
        data.notification_type@ == args[0],
        data.message@.len() == join(args.skip(1), ',').len(),
        forall|i: int|
            0 <= i < data.message@.len() ==> #[trigger] data.message@[i] == (if join(
                args.skip(1),
                ',',
            )[i] == ';' {
                '\n'
            } else {
                join(args.skip(1), ',')[i]
            }),
{
    lemma_prefix_kinds();
    law_joined_lines_parse(raw, "Notify"@, args);
}

/// A `Notify,` line always carries a notification.
pub proof fn law_notifications_always_parse(raw: Seq<char>, args: Seq<Seq<char>>)
    requires
        is_line_of(raw, "Notify"@, args),
    ensures
        line_message(raw) matches Some(MessageView::Notify(_)),
{
    lemma_prefix_kinds();
    law_joined_lines_parse(raw, "Notify"@, args);
}

/// The fields of a `Log,` line: the level in lower case, the message alone, the
/// message with everything behind it, and the items. The `sentry` item is
/// taken out of the items; where it is `true`, or the level is `error`, the
/// line goes to Sentry.
pub proof fn law_log_fields(raw: Seq<char>, args: Seq<Seq<char>>, data: EspLog)
    requires
        is_line_of(raw, "Log"@, args),
        line_message(raw) == Some(MessageView::Log(data@)),
    ensures
        args.len() >= 2,
        line_kind(raw) == LineKind::Log,
        data.level@ == lower(args[0]),
        data.message@ == args[1],
        data.full_message@ == join(args.skip(1), ','),
        data.items_filtered is Some <==> args.len() > 2,
        data.send_to_sentry <==> data.level@ == "error"@ || (items_of(args.skip(2)).contains_key(
            "sentry"@,
        ) && items_of(args.skip(2))["sentry"@] == "true"@),
        data.items_filtered matches Some(items) ==> !items@.contains_key("sentry"@) && forall|
            key: Seq<char>,
        |
            key != "sentry"@ ==> (#[trigger] items@.contains_key(key) <==> items_of(
                args.skip(2),
            ).contains_key(key)) && (items@.contains_key(key) ==> items@[key] == items_of(
                args.skip(2),
            )[key]),
{
    lemma_prefix_kinds();
    law_joined_lines_parse(raw, "Log"@, args);
    assert(items_of(Seq::<Seq<char>>::empty()) =~= Map::empty());
    if args.len() == 2 {
        assert(args.skip(2) =~= Seq::<Seq<char>>::empty());
    }
}

/// A `Log,` line carries a log message exactly where it has a level and a
/// message.
pub proof fn law_log_lines_are_complete(raw: Seq<char>, args: Seq<Seq<char>>)
    requires
        is_line_of(raw, "Log"@, args),
    ensures
        line_message(raw) is Some <==> args.len() >= 2,
        line_message(raw) is Some ==> line_message(raw)->0 is Log,
{
    lemma_prefix_kinds();
    law_joined_lines_parse(raw, "Log"@, args);
}

/// What the items of a log line hold: under each key, what stands behind the
/// first `=` of the first argument that begins with the key and a `=`, up to
/// the next one. Arguments without `=` hold nothing.
pub proof fn law_log_items(args: Seq<Seq<char>>, key: Seq<char>)
    ensures
        items_of(args).contains_key(key) <==> exists|i: int|
            0 <= i < args.len() && is_item(#[trigger] args[i], key),
        forall|i: int|
            0 <= i < args.len() && is_item(#[trigger] args[i], key) && (forall|j: int|
                0 <= j < i ==> !is_item(#[trigger] args[j], key)) ==> items_of(args)[key] == split(
                args[i],
                '=',
            )[1],
    decreases args.len(),
{
    if args.len() > 0 {
        let before = args.drop_last();
        let n = before.len() as int;
        law_log_items(before, key);
        if items_of(before).contains_key(key) {
            let k = choose|i: int| 0 <= i < before.len() && is_item(#[trigger] before[i], key);
            assert(is_item(args[k], key));
        }
        if exists|i: int| 0 <= i < args.len() && is_item(#[trigger] args[i], key) {
            let k = choose|i: int| 0 <= i < args.len() && is_item(#[trigger] args[i], key);
            if k < n {
                assert(is_item(before[k], key));
            }
        }
        if items_of(args).contains_key(key) && !items_of(before).contains_key(key) {
            assert(is_item(args[n], key));
        }
        assert forall|i: int|
            0 <= i < args.len() && is_item(#[trigger] args[i], key) && (forall|j: int|
                0 <= j < i ==> !is_item(#[trigger] args[j], key)) implies items_of(args)[key]
            == split(args[i], '=')[1] by {
            if i < n {
                assert(is_item(before[i], key));
                assert forall|j: int| 0 <= j < i implies !is_item(#[trigger] before[j], key) by {
                    assert(!is_item(args[j], key));
                }
            } else {
                assert forall|j: int| 0 <= j < n implies !is_item(#[trigger] before[j], key) by {
                    assert(!is_item(args[j], key));
                }
            }
        }
    }
}

/// The argument is an item with the given key.
pub open spec fn is_item(arg: Seq<char>, key: Seq<char>) -> bool {
    split(arg, '=').len() >= 2 && split(arg, '=')[0] == key
}

/// The event that each wire token stands for.
pub open spec fn tokens_of(event: ButtonEvent) -> Seq<Seq<char>> {
    match event {
        ButtonEvent::EncoderClockwise => seq!["CW"@],
        ButtonEvent::EncoderCounterclockwise => seq!["CCW"@],
        ButtonEvent::EncoderPush => seq!["push"@],
        ButtonEvent::EncoderDouble => seq!["pu_d"@],
        ButtonEvent::EncoderLong => seq!["elng"@],
        ButtonEvent::Tare => seq!["tare"@],
        ButtonEvent::TareDouble => seq!["ta_d"@],
        ButtonEvent::TareLong => seq!["ta_l"@],
        ButtonEvent::TareSuperLong => seq!["ta_sl"@],
        ButtonEvent::Context => seq!["strt"@, "cntx"@],
        ButtonEvent::EncoderPressed => seq!["encoder_button_pressed"@],
        ButtonEvent::EncoderReleased => seq!["encoder_button_released"@],
        ButtonEvent::TarePressed => seq!["tare_pressed"@],
        ButtonEvent::TareReleased => seq!["tare_released"@],
        ButtonEvent::ContextPressed => seq!["context_pressed"@],
        ButtonEvent::ContextReleased => seq!["context_released"@],
        ButtonEvent::Unknown => Seq::<Seq<char>>::empty(),
    }
}

/// The name that clients see of each event.
pub open spec fn client_name(event: ButtonEvent) -> Seq<char> {
    match event {
        ButtonEvent::EncoderClockwise => "ENCODER_CLOCKWISE"@,
        ButtonEvent::EncoderCounterclockwise => "ENCODER_COUNTERCLOCKWISE"@,
        ButtonEvent::EncoderPush => "ENCODER_PUSH"@,
        ButtonEvent::EncoderDouble => "ENCODER_DOUBLE"@,
        ButtonEvent::EncoderLong => "ENCODER_LONG"@,
        ButtonEvent::Tare => "TARE"@,
        ButtonEvent::TareDouble => "TARE_DOUBLE"@,
        ButtonEvent::TareLong => "TARE_LONG"@,
        ButtonEvent::TareSuperLong => "TARE_SUPER_LONG"@,
        ButtonEvent::Context => "CONTEXT"@,
        ButtonEvent::EncoderPressed => "ENCODER_PRESSED"@,
        ButtonEvent::EncoderReleased => "ENCODER_RELEASED"@,
        ButtonEvent::TarePressed => "TARE_PRESSED"@,
        ButtonEvent::TareReleased => "TARE_RELEASED"@,
        ButtonEvent::ContextPressed => "CONTEXT_PRESSED"@,
        ButtonEvent::ContextReleased => "CONTEXT_RELEASED"@,
        ButtonEvent::Unknown => "UNKNOWN"@,
    }
}

/// A text stands for an event exactly where it is a token of the event, or
/// none of any event and its capitals spell the name of the event; clients see
/// the name.
pub proof fn law_button_tokens(text: Seq<char>, event: ButtonEvent)
    ensures
        tokens_of(event).contains(text) ==> wire_event(text) == Some(event),
        wire_event(text) == Some(event) ==> tokens_of(event).contains(text) || upper(text)
            == client_name(event),
        upper(text) == client_name(event) && (forall|e: ButtonEvent|
            !(#[trigger] tokens_of(e)).contains(text)) ==> wire_event(text) == Some(event),
        event.name_text() == client_name(event),
{
    lemma_token_texts();
    law_event_names_are_read_back(event);
    lemma_names(event);
    if wire_event(text) == Some(event) {
        if let Some(e) = token_event(text) {
            assert(tokens_of(e)[0] == text || tokens_of(e)[1] == text);
        }
    }
    if let Some(e) = token_event(text) {
        assert(tokens_of(e)[0] == text || (tokens_of(e).len() > 1 && tokens_of(e)[1] == text));
        assert(tokens_of(e).contains(text));
    }
}

/// The spelling of the tokens.
proof fn lemma_token_texts()
    ensures
        token_event("CW"@) == Some(ButtonEvent::EncoderClockwise),
        token_event("CCW"@) == Some(ButtonEvent::EncoderCounterclockwise),
        token_event("push"@) == Some(ButtonEvent::EncoderPush),
        token_event("pu_d"@) == Some(ButtonEvent::EncoderDouble),
        token_event("elng"@) == Some(ButtonEvent::EncoderLong),
        token_event("tare"@) == Some(ButtonEvent::Tare),
        token_event("ta_d"@) == Some(ButtonEvent::TareDouble),
        token_event("ta_l"@) == Some(ButtonEvent::TareLong),
        token_event("ta_sl"@) == Some(ButtonEvent::TareSuperLong),
        token_event("strt"@) == Some(ButtonEvent::Context),
        token_event("cntx"@) == Some(ButtonEvent::Context),
        token_event("encoder_button_pressed"@) == Some(ButtonEvent::EncoderPressed),
        token_event("encoder_button_released"@) == Some(ButtonEvent::EncoderReleased),
        token_event("tare_pressed"@) == Some(ButtonEvent::TarePressed),
        token_event("tare_released"@) == Some(ButtonEvent::TareReleased),
        token_event("context_pressed"@) == Some(ButtonEvent::ContextPressed),
        token_event("context_released"@) == Some(ButtonEvent::ContextReleased),
{
    reveal_strlit("CW");
    reveal_strlit("CCW");
    reveal_strlit("push");
    reveal_strlit("pu_d");
    reveal_strlit("elng");
    reveal_strlit("tare");
    reveal_strlit("ta_d");
    reveal_strlit("ta_l");
    reveal_strlit("ta_sl");
    reveal_strlit("strt");
    reveal_strlit("cntx");
    reveal_strlit("encoder_button_pressed");
    reveal_strlit("encoder_button_released");
    reveal_strlit("tare_pressed");
    reveal_strlit("tare_released");
    reveal_strlit("context_pressed");
    reveal_strlit("context_released");
    assert("CW"@.len() == 2 && "CW"@[0] == 'C' && "CW"@[1] == 'W');
    assert("CCW"@.len() == 3 && "CCW"@[0] == 'C' && "CCW"@[1] == 'C' && "CCW"@[2] == 'W');
    assert("push"@.len() == 4 && "push"@[0] == 'p' && "push"@[1] == 'u' && "push"@[2] == 's' && "push"@[3] == 'h');
    assert("pu_d"@.len() == 4 && "pu_d"@[0] == 'p' && "pu_d"@[1] == 'u' && "pu_d"@[2] == '_' && "pu_d"@[3] == 'd');
    assert("elng"@.len() == 4 && "elng"@[0] == 'e' && "elng"@[1] == 'l' && "elng"@[2] == 'n' && "elng"@[3] == 'g');
    assert("tare"@.len() == 4 && "tare"@[0] == 't' && "tare"@[1] == 'a' && "tare"@[2] == 'r' && "tare"@[3] == 'e');
    assert("ta_d"@.len() == 4 && "ta_d"@[0] == 't' && "ta_d"@[1] == 'a' && "ta_d"@[2] == '_' && "ta_d"@[3] == 'd');
    assert("ta_l"@.len() == 4 && "ta_l"@[0] == 't' && "ta_l"@[1] == 'a' && "ta_l"@[2] == '_' && "ta_l"@[3] == 'l');
    assert("ta_sl"@.len() == 5 && "ta_sl"@[0] == 't' && "ta_sl"@[1] == 'a' && "ta_sl"@[2] == '_' && "ta_sl"@[3] == 's');
    assert("strt"@.len() == 4 && "strt"@[0] == 's' && "strt"@[1] == 't' && "strt"@[2] == 'r' && "strt"@[3] == 't');
    assert("cntx"@.len() == 4 && "cntx"@[0] == 'c' && "cntx"@[1] == 'n' && "cntx"@[2] == 't' && "cntx"@[3] == 'x');
    assert("encoder_button_pressed"@.len() == 22 && "encoder_button_pressed"@[0] == 'e' && "encoder_button_pressed"@[1] == 'n' && "encoder_button_pressed"@[2] == 'c' && "encoder_button_pressed"@[3] == 'o');
    assert("encoder_button_released"@.len() == 23 && "encoder_button_released"@[0] == 'e' && "encoder_button_released"@[1] == 'n' && "encoder_button_released"@[2] == 'c' && "encoder_button_released"@[3] == 'o');
    assert("tare_pressed"@.len() == 12 && "tare_pressed"@[0] == 't' && "tare_pressed"@[1] == 'a' && "tare_pressed"@[2] == 'r' && "tare_pressed"@[3] == 'e');
    assert("tare_released"@.len() == 13 && "tare_released"@[0] == 't' && "tare_released"@[1] == 'a' && "tare_released"@[2] == 'r' && "tare_released"@[3] == 'e');
    assert("context_pressed"@.len() == 15 && "context_pressed"@[0] == 'c' && "context_pressed"@[1] == 'o' && "context_pressed"@[2] == 'n' && "context_pressed"@[3] == 't');
    assert("context_released"@.len() == 16 && "context_released"@[0] == 'c' && "context_released"@[1] == 'o' && "context_released"@[2] == 'n' && "context_released"@[3] == 't');
}

/// An `Event,` line, and a line that is a bare token alone, carry the event of
/// the first argument and the time of the second one: `9999+++` is ten
/// seconds, and what is no number is no time.
pub proof fn law_button_fields(raw: Seq<char>, args: Seq<Seq<char>>, data: ButtonEventData)
    requires
        is_line_of(raw, "Event"@, args),
        line_message(raw) == Some(MessageView::Button(data)),
    ensures
        line_kind(raw) == LineKind::Button,
        wire_event(args[0]) == Some(data.event),
        args.len() == 1 ==> data.time_since_last_event == 0,
        args.len() >= 2 && args[1] == "9999+++"@ ==> data.time_since_last_event == 10000,
        args.len() >= 2 && args[1] != "9999+++"@ ==> data.time_since_last_event == (
        match py_int_value(args[1]) {
            Some(n) => n,
            None => 0,
        }),
{
    lemma_prefix_kinds();
    law_joined_lines_parse(raw, "Event"@, args);
}

/// An `Event,` line carries an event exactly where its first argument stands
/// for one.
pub proof fn law_button_lines_are_complete(raw: Seq<char>, args: Seq<Seq<char>>)
    requires
        is_line_of(raw, "Event"@, args),
    ensures
        line_message(raw) is Some <==> wire_event(args[0]) is Some,
        line_message(raw) is Some ==> line_message(raw)->0 is Button,
{
    lemma_prefix_kinds();
    law_joined_lines_parse(raw, "Event"@, args);
}

/// A line that is one of the eight bare tokens alone carries its event, without
/// a time.
pub proof fn law_bare_tokens_are_events(raw: Seq<char>, token: Seq<char>)
    requires
        trimmed(raw, CharSet::LineEnds) == token,
        token == "CCW"@ || token == "CW"@ || token == "push"@ || token == "pu_d"@ || token
            == "elng"@ || token == "ta_d"@ || token == "ta_l"@ || token == "strt"@,
    ensures
        line_kind(raw) == LineKind::Button,
        line_message(raw) matches Some(MessageView::Button(data)) && wire_event(token) == Some(
            data.event,
        ) && data.time_since_last_event == 0,
{
    lemma_token_texts();
    reveal_strlit("CCW");
    reveal_strlit("CW");
    reveal_strlit("push");
    reveal_strlit("pu_d");
    reveal_strlit("elng");
    reveal_strlit("ta_d");
    reveal_strlit("ta_l");
    reveal_strlit("strt");
    let tokens = seq![token];
    assert(!token.contains(','));
    law_split_undoes_join(tokens, ',');
    assert(join(tokens, ',') == token);
}

/// A line with another prefix, or with none, carries nothing.
pub proof fn law_other_lines_carry_nothing(raw: Seq<char>)
    requires
        line_kind(raw) == LineKind::Unrecognized,
    ensures
        line_message(raw) is None,
{
}

}
