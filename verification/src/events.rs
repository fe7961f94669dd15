//! Events that the daemon publishes: the daemon reports, the backend decides.

use crate::button::ButtonEventData;
use crate::esp_info::{EspInfo, InfoView};
use crate::heater::{HeaterTimeoutInfo, HeaterView};
use crate::log::{EspLog, LogView};
use crate::notify::{MachineNotify, NotifyView};
use crate::sensor::{SensorData, SensorView};
use crate::shot::{ShotData, ShotView};
use vstd::prelude::*;

verus! {

/// Alarm conditions.
#[derive(Debug, PartialEq, Eq)]
pub enum Alarm {
    /// The chip rebooted without a request.
    EspRestart {
        /// The crash trace lines collected before, joined with `\n`; may be
        /// empty.
        trace: String,
    },
    /// No valid message for more than 500 ms outside a requested restart.
    EspDisconnected,
}

/// What an [`Alarm`] holds.
pub enum AlarmView {
    EspRestart { trace: Seq<char> },
    EspDisconnected,
}

impl View for Alarm {
    type V = AlarmView;

    open spec fn view(&self) -> AlarmView {
        match self {
            Alarm::EspRestart { trace } => AlarmView::EspRestart { trace: trace@ },
            Alarm::EspDisconnected => AlarmView::EspDisconnected,
        }
    }
}

impl Clone for Alarm {
    fn clone(&self) -> (r: Self)
        ensures
            r == *self,
    {
        match self {
            Alarm::EspRestart { trace } => Alarm::EspRestart { trace: trace.clone() },
            Alarm::EspDisconnected => Alarm::EspDisconnected,
        }
    }
}

/// Everything that the read loop tells the outside world.
#[allow(inconsistent_fields)]
#[derive(Debug, PartialEq, Eq)]
pub enum MachineEvent {
    /// A `Data,` line arrived; the payload is stamped with shot time and
    /// extraction state.
    Status { data: ShotData },
    /// A `Sensors,` line arrived.
    Sensors { data: SensorData },
    /// `ESPInfo` arrived.
    Info { data: EspInfo },
    /// A physical button event.
    Button { data: ButtonEventData },
    /// The firmware asks to notify the user.
    Notify { data: MachineNotify },
    /// Heater timeout state.
    HeaterTimeout { data: HeaterTimeoutInfo },
    /// A firmware log line.
    EspLog { data: EspLog },
    /// Boot banner seen; counts toward the reset watchdog.
    BootBanner {
        /// Consecutive boot banners without a valid message in between.
        reset_count: u32,
    },
    /// Three consecutive resets.
    FirmwareUpdateRequested,
    /// No information message came in the time after startup.
    EspSilentAfterBoot,
    /// A shot started.
    ShotStarted,
    /// A shot ended.
    ShotEnded,
    /// Status returned to idle.
    WentIdle,
    /// Heating began.
    HeatingStarted,
    /// Heating finished.
    HeatingEnded,
    /// Whether a profile is loaded has changed.
    ProfileReadyChanged { ready: bool },
    /// `start` was requested with no profile loaded; the backend must send
    /// one and retry.
    ProfileRequired,
    /// A profile was streamed to the chip with this MD5.
    ProfileSent { hash: String },
    /// The port was handed over for flashing.
    PortReleased {
        /// Whether the chip was put into its bootloader before.
        bootloader: bool,
    },
    /// The port is in use again after it was handed over.
    PortResumed,
    /// An alarm condition began.
    AlarmRaised { alarm: Alarm },
    /// A valid message arrived while alarms were up.
    AlarmsCleared,
}

/// What a [`MachineEvent`] holds.
#[allow(inconsistent_fields)]
pub enum EventView {
    Status { data: ShotView },
    Sensors { data: SensorView },
    Info { data: InfoView },
    Button { data: ButtonEventData },
    Notify { data: NotifyView },
    HeaterTimeout { data: HeaterView },
    EspLog { data: LogView },
    BootBanner { reset_count: int },
    FirmwareUpdateRequested,
    EspSilentAfterBoot,
    ShotStarted,
    ShotEnded,
    WentIdle,
    HeatingStarted,
    HeatingEnded,
    ProfileReadyChanged { ready: bool },
    ProfileRequired,
    ProfileSent { hash: Seq<char> },
    PortReleased { bootloader: bool },
    PortResumed,
    AlarmRaised { alarm: AlarmView },
    AlarmsCleared,
}

impl View for MachineEvent {
    type V = EventView;

    open spec fn view(&self) -> EventView {
        match self {
            MachineEvent::Status { data } => EventView::Status { data: data@ },
            MachineEvent::Sensors { data } => EventView::Sensors { data: data@ },
            MachineEvent::Info { data } => EventView::Info { data: data@ },
            MachineEvent::Button { data } => EventView::Button { data: *data },
            MachineEvent::Notify { data } => EventView::Notify { data: data@ },
            MachineEvent::HeaterTimeout { data } => EventView::HeaterTimeout { data: data@ },
            MachineEvent::EspLog { data } => EventView::EspLog { data: data@ },
            MachineEvent::BootBanner { reset_count } => EventView::BootBanner {
                reset_count: *reset_count as int,
            },
            MachineEvent::FirmwareUpdateRequested => EventView::FirmwareUpdateRequested,
            MachineEvent::EspSilentAfterBoot => EventView::EspSilentAfterBoot,
            MachineEvent::ShotStarted => EventView::ShotStarted,
            MachineEvent::ShotEnded => EventView::ShotEnded,
            MachineEvent::WentIdle => EventView::WentIdle,
            MachineEvent::HeatingStarted => EventView::HeatingStarted,
            MachineEvent::HeatingEnded => EventView::HeatingEnded,
            MachineEvent::ProfileReadyChanged { ready } => EventView::ProfileReadyChanged {
                ready: *ready,
            },
            MachineEvent::ProfileRequired => EventView::ProfileRequired,
            MachineEvent::ProfileSent { hash } => EventView::ProfileSent { hash: hash@ },
            MachineEvent::PortReleased { bootloader } => EventView::PortReleased {
                bootloader: *bootloader,
            },
            MachineEvent::PortResumed => EventView::PortResumed,
            MachineEvent::AlarmRaised { alarm } => EventView::AlarmRaised { alarm: alarm@ },
            MachineEvent::AlarmsCleared => EventView::AlarmsCleared,
        }
    }
}

impl Clone for MachineEvent {
    fn clone(&self) -> (r: Self)
        ensures
            r@ == self@,
    {
        match self {
            MachineEvent::Status { data } => MachineEvent::Status { data: data.clone() },
            MachineEvent::Sensors { data } => MachineEvent::Sensors { data: data.clone() },
            MachineEvent::Info { data } => MachineEvent::Info { data: data.clone() },
            MachineEvent::Button { data } => MachineEvent::Button { data: *data },
            MachineEvent::Notify { data } => MachineEvent::Notify { data: data.clone() },
            MachineEvent::HeaterTimeout { data } => MachineEvent::HeaterTimeout {
                data: data.clone(),
            },
            MachineEvent::EspLog { data } => MachineEvent::EspLog { data: data.clone() },
            MachineEvent::BootBanner { reset_count } => MachineEvent::BootBanner {
                reset_count: *reset_count,
            },
            MachineEvent::FirmwareUpdateRequested => MachineEvent::FirmwareUpdateRequested,
            MachineEvent::EspSilentAfterBoot => MachineEvent::EspSilentAfterBoot,
            MachineEvent::ShotStarted => MachineEvent::ShotStarted,
            MachineEvent::ShotEnded => MachineEvent::ShotEnded,
            MachineEvent::WentIdle => MachineEvent::WentIdle,
            MachineEvent::HeatingStarted => MachineEvent::HeatingStarted,
            MachineEvent::HeatingEnded => MachineEvent::HeatingEnded,
            MachineEvent::ProfileReadyChanged { ready } => MachineEvent::ProfileReadyChanged {
                ready: *ready,
            },
            MachineEvent::ProfileRequired => MachineEvent::ProfileRequired,
            MachineEvent::ProfileSent { hash } => MachineEvent::ProfileSent { hash: hash.clone() },
            MachineEvent::PortReleased { bootloader } => MachineEvent::PortReleased {
                bootloader: *bootloader,
            },
            MachineEvent::PortResumed => MachineEvent::PortResumed,
            MachineEvent::AlarmRaised { alarm } => MachineEvent::AlarmRaised {
                alarm: alarm.clone(),
            },
            MachineEvent::AlarmsCleared => MachineEvent::AlarmsCleared,
        }
    }
}

}
