//! Machine status strings as the firmware reports them.

use vstd::prelude::*;

verus! {

pub const IDLE: &'static str = "idle";

pub const HEATING: &'static str = "heating";

pub const PURGE: &'static str = "purge";

pub const RETRACTING: &'static str = "retracting";

pub const CLOSING_VALVE: &'static str = "closing valve";

pub const HOME: &'static str = "home";

pub const BOOT: &'static str = "boot";

pub const STARTING: &'static str = "starting...";

}
