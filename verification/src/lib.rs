//! The serial daemon of an espresso machine: the line protocol of its
//! controller chip, the read loop as a pure state machine, fixture playback,
//! and the contract with clients.
//!
//! The chip talks in lines ([`message`]); each family of lines has its module
//! ([`button`], [`shot`], [`sensor`], [`esp_info`], [`notify`], [`heater`],
//! [`log`]). [`reader`] turns lines and clock ticks into effects, [`runtime`]
//! puts commands and reads together, [`emulator`] stands in for the chip and
//! plays what [`fixture`] reads, and [`protocol`] and [`server`] serve clients.
//! Input and output are left to the program around the library.
//!
//! [`reader_laws`], [`history`] and [`round_trip`] state what holds across calls.
//! The modules whose names end in `_laws` say what the operations are for:
//! which field stands where ([`field_laws`], [`text_laws`]), what the read loop
//! keeps and tells ([`record_laws`], [`effect_laws`]), what commands do
//! ([`command_laws`], [`client_laws`]), what the emulator plays
//! ([`recording_laws`], [`playback_laws`], [`emulator_laws`], [`duration_laws`]),
//! and what is shown ([`payload_laws`], [`value_laws`]).

pub mod bignum;
pub mod button;
pub mod canonical;
pub mod client_laws;
pub mod command;
pub mod command_laws;
pub mod config;
pub mod decimal;
pub mod digits;
pub mod duration_laws;
pub mod effect_laws;
pub mod emulator;
pub mod emulator_laws;
pub mod encoding;
pub mod esp_info;
pub mod events;
pub mod field_laws;
pub mod fixture;
pub mod gpio;
pub mod heater;
pub mod history;
pub mod items;
pub mod json;
pub mod letters;
pub mod log;
pub mod message;
pub mod notify;
pub mod payload_laws;
pub mod playback_laws;
pub mod protocol;
pub mod pynum;
pub mod quotient;
pub mod reader;
pub mod reader_laws;
pub mod record_laws;
pub mod recording_laws;
pub mod round_trip;
pub mod rounding;
pub mod runtime;
pub mod search;
pub mod sensor;
pub mod server;
pub mod shortest;
pub mod shot;
pub mod status;
pub mod text;
pub mod text_laws;
pub mod transport;
pub mod value_laws;

pub use button::{ButtonEvent, ButtonEventData};
pub use command::EspAction;
pub use esp_info::EspInfo;
pub use events::{Alarm, MachineEvent};
pub use heater::HeaterTimeoutInfo;
pub use log::EspLog;
pub use message::{has_crash_marker, is_boot_banner, parse_line, EspMessage, LineKind, ParsedLine};
pub use notify::MachineNotify;
pub use protocol::{ClientCommand, ServerFrame, PROTOCOL_VERSION};
pub use pynum::PyFloat;
pub use reader::{MachineSnapshot, ReaderState};
pub use runtime::{DaemonCommand, DaemonOptions};
pub use sensor::SensorData;
pub use shot::{MachineState, ShotData};
