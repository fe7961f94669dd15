//! What values show of themselves, and what holds before anything has come.

use crate::decimal::{Decimal, DecimalView};
use crate::emulator::{idle_sensors, idle_shot, DEFAULT_SLEEP_NS, STARTUP_DELAY_NS};
use crate::esp_info::{default_info, EspInfo};
use crate::events::{Alarm, AlarmView, EventView, MachineEvent};
use crate::fixture::{EmulationError, ErrorView};
use crate::heater::HeaterTimeoutInfo;
use crate::log::EspLog;
use crate::message::{EspMessage, LineKind, MessageView};
use crate::notify::MachineNotify;
use crate::protocol::{FrameView, ServerFrame};
use crate::pynum::{PyFloat, PyFloatView};
use crate::reader::{fresh, Effect, EffectView, MachineSnapshot, ReaderView};
use crate::runtime::{CommandView, DaemonCommand, Output, OutputView, ALIVE_CHECK_DELAY_SECS};
use crate::sensor::{default_sensors, SensorData};
use crate::shot::{default_shot, MachineState, ShotData};
use crate::transport::{OutcomeView, ReadOutcome, BAUDRATE, READ_TIMEOUT_MS};
use vstd::prelude::*;

verus! {

// ---------------------------------------------------------------------------
// Views
// ---------------------------------------------------------------------------

/// Numbers show their sign and their digits.
pub proof fn law_numbers_show_themselves(v: Decimal, reading: PyFloat)
    ensures
        v matches Decimal::Finite { negative, literal } ==> v@ == (DecimalView::Finite {
            negative,
            literal: literal@,
        }),
        v matches Decimal::Infinite { negative } ==> v@ == (DecimalView::Infinite { negative }),
        v is NotANumber ==> v@ == DecimalView::NotANumber,
        reading matches PyFloat::Num(d) ==> reading@ == PyFloatView::Num(d@),
        reading is NanString ==> reading@ == PyFloatView::NanString,
{
}

/// A datapoint shows each of its fields.
pub proof fn law_datapoints_show_themselves(data: ShotData)
    ensures
        data@.pressure == data.pressure@,
        data@.flow == data.flow@,
        data@.weight == data.weight@,
        data@.stable_weight == data.stable_weight,
        data@.temperature == data.temperature@,
        data@.status is Some <==> data.status is Some,
        data.status matches Some(text) ==> data@.status == Some(text@),
        data@.profile is Some <==> data.profile is Some,
        data.profile matches Some(text) ==> data@.profile == Some(text@),
        data@.time == data.time,
        data@.profile_time == data.profile_time,
        data@.state == data.state,
        data@.is_extracting == data.is_extracting,
        data@.gravimetric_flow == data.gravimetric_flow@,
        data@.main_controller_kind is Some <==> data.main_controller_kind is Some,
        data.main_controller_kind matches Some(text) ==> data@.main_controller_kind == Some(text@),
        data@.main_setpoint == data.main_setpoint@,
        data@.aux_controller_kind is Some <==> data.aux_controller_kind is Some,
        data.aux_controller_kind matches Some(text) ==> data@.aux_controller_kind == Some(text@),
        data@.aux_setpoint == data.aux_setpoint@,
        data@.is_aux_controller_active == data.is_aux_controller_active,
{
}

/// Sensor readings show each of their fields.
pub proof fn law_sensors_show_themselves(data: SensorData)
    ensures
        data@.external_1 == data.external_1@,
        data@.external_2 == data.external_2@,
        data@.bar_up == data.bar_up@,
        data@.bar_mid_up == data.bar_mid_up@,
        data@.bar_mid_down == data.bar_mid_down@,
        data@.bar_down == data.bar_down@,
        data@.tube == data.tube@,
        data@.motor_temp == data.motor_temp@,
        data@.lam_temp == data.lam_temp@,
        data@.motor_position == data.motor_position@,
        data@.motor_speed == data.motor_speed@,
        data@.motor_power == data.motor_power@,
        data@.motor_current == data.motor_current@,
        data@.bandheater_power == data.bandheater_power@,
        data@.bandheater_current == data.bandheater_current@,
        data@.pressure_sensor == data.pressure_sensor@,
        data@.adc_0 == data.adc_0@,
        data@.adc_1 == data.adc_1@,
        data@.adc_2 == data.adc_2@,
        data@.adc_3 == data.adc_3@,
        data@.water_status == data.water_status,
        data@.motor_thermistor == data.motor_thermistor@,
        data@.weight_prediction == data.weight_prediction@,
{
}

/// Machine information shows each of its fields.
pub proof fn law_info_shows_itself(data: EspInfo)
    ensures
        data@.firmware_v == data.firmware_v@,
        data@.esp_pinout == data.esp_pinout,
        data@.main_voltage == data.main_voltage@,
        data@.color == data.color@,
        data@.serial_number == data.serial_number@,
        data@.batch_number == data.batch_number@,
        data@.build_date == data.build_date@,
        data@.scale_module == data.scale_module@,
        data@.partial_retraction == data.partial_retraction@,
        data@.auto_purge_after_shot == data.auto_purge_after_shot,
{
}

/// Heater timeouts show each of their fields.
pub proof fn law_heater_timeouts_show_themselves(data: HeaterTimeoutInfo)
    ensures
        data@.coffe_profile_end_remaining == data.coffe_profile_end_remaining@,
        data@.coffe_profile_end_timeout == data.coffe_profile_end_timeout@,
        data@.preheat_remaining == data.preheat_remaining@,
        data@.preheat_timeout == data.preheat_timeout@,
{
}

/// A notification shows each of its fields.
pub proof fn law_notifications_show_themselves(data: MachineNotify)
    ensures
        data@.notification_type == data.notification_type@,
        data@.message == data.message@,
{
}

/// A log line shows each of its fields.
pub proof fn law_logs_show_themselves(data: EspLog)
    ensures
        data@.level == data.level@,
        data@.message == data.message@,
        data@.full_message == data.full_message@,
        data@.items_filtered is Some <==> data.items_filtered is Some,
        data.items_filtered matches Some(held) ==> data@.items_filtered == Some(held@),
        data@.send_to_sentry == data.send_to_sentry,
{
}

/// A snapshot shows each of its fields.
pub proof fn law_snapshots_show_themselves(data: MachineSnapshot)
    ensures
        data@.data_sensors == data.data_sensors@,
        data@.sensors is Some <==> data.sensors is Some,
        data.sensors matches Some(held) ==> data@.sensors == Some(held@),
        data@.esp_info is Some <==> data.esp_info is Some,
        data.esp_info matches Some(held) ==> data@.esp_info == Some(held@),
        data@.info_ready == data.info_ready,
        data@.profile_ready == data.profile_ready,
        data@.reset_count == data.reset_count,
{
}

/// An alarm shows what it is.
pub proof fn law_alarms_show_themselves(alarm: Alarm)
    ensures
        alarm matches Alarm::EspRestart { trace } ==> alarm@
            == (AlarmView::EspRestart { trace: trace@ }),
        alarm is EspDisconnected ==> alarm@ == AlarmView::EspDisconnected,
{
}

/// An event shows what it is and what it carries.
pub proof fn law_events_show_themselves(event: MachineEvent)
    ensures
        event matches MachineEvent::Status { data } ==> event@
            == (EventView::Status { data: data@ }),
        event matches MachineEvent::Sensors { data } ==> event@
            == (EventView::Sensors { data: data@ }),
        event matches MachineEvent::Info { data } ==> event@ == (EventView::Info { data: data@ }),
        event matches MachineEvent::Button { data } ==> event@ == (EventView::Button { data }),
        event matches MachineEvent::Notify { data } ==> event@
            == (EventView::Notify { data: data@ }),
        event matches MachineEvent::HeaterTimeout { data } ==> event@
            == (EventView::HeaterTimeout { data: data@ }),
        event matches MachineEvent::EspLog { data } ==> event@
            == (EventView::EspLog { data: data@ }),
        event matches MachineEvent::BootBanner { reset_count } ==> event@
            == (EventView::BootBanner { reset_count: reset_count as int }),
        event is FirmwareUpdateRequested ==> event@ == EventView::FirmwareUpdateRequested,
        event is EspSilentAfterBoot ==> event@ == EventView::EspSilentAfterBoot,
        event is ShotStarted ==> event@ == EventView::ShotStarted,
        event is ShotEnded ==> event@ == EventView::ShotEnded,
        event is WentIdle ==> event@ == EventView::WentIdle,
        event is HeatingStarted ==> event@ == EventView::HeatingStarted,
        event is HeatingEnded ==> event@ == EventView::HeatingEnded,
        event matches MachineEvent::ProfileReadyChanged { ready } ==> event@
            == (EventView::ProfileReadyChanged { ready }),
        event is ProfileRequired ==> event@ == EventView::ProfileRequired,
        event matches MachineEvent::ProfileSent { hash } ==> event@
            == (EventView::ProfileSent { hash: hash@ }),
        event matches MachineEvent::PortReleased { bootloader } ==> event@
            == (EventView::PortReleased { bootloader }),
        event is PortResumed ==> event@ == EventView::PortResumed,
        event matches MachineEvent::AlarmRaised { alarm } ==> event@
            == (EventView::AlarmRaised { alarm: alarm@ }),
        event is AlarmsCleared ==> event@ == EventView::AlarmsCleared,
{
}

/// A message shows what it is and what it carries.
pub proof fn law_messages_show_themselves(message: EspMessage)
    ensures
        message matches EspMessage::Button(m) ==> message@ == MessageView::Button(m),
        message matches EspMessage::Shot(m) ==> message@ == MessageView::Shot(m@),
        message matches EspMessage::Sensors(m) ==> message@ == MessageView::Sensors(m@),
        message matches EspMessage::Info(m) ==> message@ == MessageView::Info(m@),
        message matches EspMessage::Notify(m) ==> message@ == MessageView::Notify(m@),
        message matches EspMessage::HeaterTimeout(m) ==> message@ == MessageView::HeaterTimeout(m@),
        message matches EspMessage::Log(m) ==> message@ == MessageView::Log(m@),
{
}

/// An effect shows what it is and what it carries.
pub proof fn law_effects_show_themselves(effect: Effect)
    ensures
        effect matches Effect::Send(bytes) ==> effect@ == EffectView::Send(bytes@),
        effect matches Effect::Event(event) ==> effect@ == EffectView::Event(event@),
{
}

/// A command shows what it is and what it carries.
pub proof fn law_commands_show_themselves(command: DaemonCommand)
    ensures
        command matches DaemonCommand::Action(action) ==> command@ == CommandView::Action(action),
        command matches DaemonCommand::SendProfile(json) ==> command@
            == CommandView::SendProfile(json),
        command matches DaemonCommand::WriteRaw(bytes) ==> command@
            == CommandView::WriteRaw(bytes@),
        command matches DaemonCommand::Reset { bootloader } ==> command@
            == (CommandView::Reset { bootloader }),
        command matches DaemonCommand::ReleasePort { bootloader } ==> command@
            == (CommandView::ReleasePort { bootloader }),
        command is AcquirePort ==> command@ == CommandView::AcquirePort,
        command is Pause ==> command@ == CommandView::Pause,
        command is Resume ==> command@ == CommandView::Resume,
{
}

/// An output shows what it is and what it carries.
pub proof fn law_outputs_show_themselves(output: Output)
    ensures
        output matches Output::Write(bytes) ==> output@ == OutputView::Write(bytes@),
        output matches Output::WriteProfile { frame, hash } ==> output@
            == (OutputView::WriteProfile { frame: frame@, hash: hash@ }),
        output matches Output::Publish(event) ==> output@ == OutputView::Publish(event@),
        output matches Output::Reset { bootloader } ==> output@
            == (OutputView::Reset { bootloader }),
{
}

/// A frame shows what it is and what it carries.
pub proof fn law_frames_show_themselves(frame: ServerFrame)
    ensures
        frame matches ServerFrame::Hello { v, snapshot } ==> frame@
            == (FrameView::Hello { v: v as int, snapshot: snapshot@ }),
        frame matches ServerFrame::Event { event } ==> frame@
            == (FrameView::Event { event: event@ }),
        frame matches ServerFrame::Snapshot { snapshot } ==> frame@
            == (FrameView::Snapshot { snapshot: snapshot@ }),
{
}

/// An outcome shows what it is and what it carries.
pub proof fn law_outcomes_show_themselves(outcome: ReadOutcome)
    ensures
        outcome matches ReadOutcome::Line(bytes) ==> outcome@ == OutcomeView::Line(bytes@),
        outcome is Timeout ==> outcome@ == OutcomeView::Timeout,
        outcome matches ReadOutcome::Error(error) ==> outcome@ == OutcomeView::Error(error@),
{
}

/// An error shows what it is and what it carries.
pub proof fn law_errors_show_themselves(error: EmulationError)
    ensures
        error matches EmulationError::Io { path, reason } ==> error@
            == (ErrorView::Io { path: path@, reason: reason@ }),
        error matches EmulationError::Json { path, reason } ==> error@
            == (ErrorView::Json { path: path@, reason: reason@ }),
{
}

// ---------------------------------------------------------------------------
// Names and texts
// ---------------------------------------------------------------------------

/// The name of each family.
pub proof fn law_families_are_named(kind: LineKind)
    ensures
        kind.name_text() == match kind {
            LineKind::Button => "button"@,
            LineKind::Data => "data"@,
            LineKind::Sensors => "sensors"@,
            LineKind::EspInfo => "esp_info"@,
            LineKind::Notify => "notify"@,
            LineKind::HeaterTimeout => "heater_timeout"@,
            LineKind::Log => "log"@,
            LineKind::Unrecognized => "unrecognized"@,
        },
{
}

/// An error names the file and says what went wrong.
pub proof fn law_errors_say_what_went_wrong(error: EmulationError)
    ensures
        error matches EmulationError::Io { path, reason } ==> error@.message()
            == "cannot read fixture "@ + path@ + ": "@ + reason@,
        error matches EmulationError::Json { path, reason } ==> error@.message() == "fixture "@
            + path@ + " is not valid JSON: "@ + reason@,
{
}

// ---------------------------------------------------------------------------
// Beginnings
// ---------------------------------------------------------------------------

/// At startup the machine counts as idle and as being reset; nothing has come,
/// no shot runs, and no alarm is up.
pub proof fn law_startup(now: int)
    ensures
        ({
            let v = fresh(now);
            &&& v.data_sensors.status == Some("idle"@)
            &&& v.data_sensors.profile == Some("idle"@)
            &&& v.data_sensors.time == -1
            &&& v.data_sensors.profile_time == -1
            &&& v.data_sensors.state == MachineState::Idle
            &&& !v.data_sensors.is_extracting
            &&& !v.data_sensors.stable_weight
            &&& v.data_sensors.main_controller_kind is None
            &&& v.data_sensors.aux_controller_kind is None
            &&& v.sensors is None
            &&& v.esp_info is None
            &&& !v.info_ready
            &&& !v.profile_ready
            &&& v.reset_count == 0
            &&& v.restart_requested
            &&& !v.info_requested
            &&& !v.collecting_trace
            &&& v.trace.len() == 0
            &&& v.last_valid_ms == now
            &&& v.old_status == "idle"@
            &&& !v.time_flag
            &&& v.time_passed_ms == 0
            &&& v.profile_time_ms == 0
            &&& v.stable_start_ms is None
            &&& !v.restart_alarm_set
            &&& !v.disconnect_alarm_set
        }),
{
}

/// A snapshot shows the record of the read loop.
pub proof fn law_snapshots_show_the_record(v: ReaderView)
    ensures
        v.snapshot().data_sensors == v.data_sensors,
        v.snapshot().sensors == v.sensors,
        v.snapshot().esp_info == v.esp_info,
        v.snapshot().info_ready == v.info_ready,
        v.snapshot().profile_ready == v.profile_ready,
        v.snapshot().reset_count == v.reset_count,
{
}

/// The positive number with these digits.
pub open spec fn number(digits: Seq<char>) -> DecimalView {
    DecimalView::Finite { negative: false, literal: digits }
}

/// What stands for a datapoint, sensor readings and machine information that
/// have not come.
pub proof fn law_defaults()
    ensures
        ({
            let d = default_shot();
            &&& d.pressure == PyFloatView::Num(number("0"@))
            &&& d.flow == PyFloatView::Num(number("0"@))
            &&& d.weight == PyFloatView::Num(number("0"@))
            &&& d.temperature == PyFloatView::Num(number("0"@))
            &&& d.gravimetric_flow == PyFloatView::Num(number("0"@))
            &&& d.status is None
            &&& d.profile is None
            &&& d.time == -1
            &&& d.profile_time == -1
            &&& d.state == MachineState::Idle
            &&& !d.stable_weight
            &&& !d.is_extracting
            &&& d.main_controller_kind is None
            &&& d.aux_controller_kind is None
            &&& d.main_setpoint == number("0"@)
            &&& d.aux_setpoint == number("0"@)
            &&& !d.is_aux_controller_active
        }),
        ({
            let d = default_sensors();
            &&& d.external_1 == number("0"@)
            &&& d.external_2 == number("0"@)
            &&& d.bar_up == number("0"@)
            &&& d.bar_mid_up == number("0"@)
            &&& d.bar_mid_down == number("0"@)
            &&& d.bar_down == number("0"@)
            &&& d.tube == number("0"@)
            &&& d.motor_temp == number("0"@)
            &&& d.lam_temp == number("0"@)
            &&& d.motor_position == number("0"@)
            &&& d.motor_speed == number("0"@)
            &&& d.motor_power == number("0"@)
            &&& d.motor_current == number("0"@)
            &&& d.bandheater_power == number("0"@)
            &&& d.bandheater_current == number("0"@)
            &&& d.pressure_sensor == number("0"@)
            &&& d.adc_0 == number("0"@)
            &&& d.adc_1 == number("0"@)
            &&& d.adc_2 == number("0"@)
            &&& d.adc_3 == number("0"@)
            &&& !d.water_status
            &&& d.motor_thermistor == PyFloatView::Num(number("0"@))
            &&& d.weight_prediction == PyFloatView::Num(number("0"@))
        }),
        ({
            let d = default_info();
            &&& d.firmware_v == "0.0.0"@
            &&& d.esp_pinout == 0
            &&& d.main_voltage == number("0"@)
            &&& d.color.len() == 0
            &&& d.serial_number.len() == 0
            &&& d.batch_number.len() == 0
            &&& d.build_date.len() == 0
            &&& d.scale_module.len() == 0
            &&& d.partial_retraction == number("45"@)
            &&& !d.auto_purge_after_shot
        }),
{
}

/// The idle loop of the emulator tells the readings of a machine at rest.
pub proof fn law_the_idle_loop()
    ensures
        ({
            let d = idle_shot();
            &&& d.status == Some("idle"@)
            &&& d.profile == Some("idle"@)
            &&& d.state == MachineState::Idle
            &&& d.temperature == PyFloatView::Num(number("23.2"@))
            &&& d.pressure == PyFloatView::Num(number("0"@))
            &&& d.flow == PyFloatView::Num(number("0"@))
            &&& d.weight == PyFloatView::Num(number("0"@))
            &&& d.gravimetric_flow == PyFloatView::Num(number("0"@))
            &&& d.main_controller_kind is None
            &&& d.aux_controller_kind is None
        }),
        ({
            let d = idle_sensors();
            &&& d.external_1 == number("85.11"@)
            &&& d.external_2 == number("86.27"@)
            &&& d.bar_up == number("68.73"@)
            &&& d.bar_mid_up == number("69.02"@)
            &&& d.bar_mid_down == number("67.75"@)
            &&& d.bar_down == number("65.44"@)
            &&& d.tube == number("67.74"@)
            &&& d.motor_temp == number("29.96"@)
            &&& d.lam_temp == number("32.78"@)
            &&& d.motor_position == number("74"@)
            &&& d.motor_speed == number("0"@)
            &&& d.motor_power == number("0"@)
            &&& d.motor_current == number("0"@)
            &&& d.bandheater_power == number("15.3"@)
            &&& d.bandheater_current == number("0.62"@)
            &&& d.pressure_sensor == number("306"@)
            &&& d.adc_0 == number("14"@)
            &&& d.adc_1 == number("14"@)
            &&& d.adc_2 == number("14"@)
            &&& d.adc_3 == number("14"@)
            &&& !d.water_status
            &&& d.motor_thermistor == PyFloatView::Num(number("0"@))
            &&& d.weight_prediction == PyFloatView::Num(number("0"@))
        }),
{
}

/// The limits in time, and the speed of the port.
pub proof fn law_limits()
    ensures
        READ_TIMEOUT_MS == 500,
        BAUDRATE == 115_200,
        ALIVE_CHECK_DELAY_SECS == 60,
        DEFAULT_SLEEP_NS == 75_000_000,
        STARTUP_DELAY_NS == 2_000_000_000,
{
}

}
