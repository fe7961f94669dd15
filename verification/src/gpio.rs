//! Reset and bootloader control of the chip over two pins.

use vstd::prelude::*;

verus! {

/// Fast pin setters; the waits between transitions are steps of their own.
pub trait ResetPins: Send {
    /// Drives the boot-select pin.
    fn set_boot(&mut self, high: bool);

    /// Drives the reset pin.
    fn set_reset(&mut self, high: bool);
}

/// Pins that do nothing, for the emulator and development hosts.
#[derive(Debug, Default)]
pub struct NoopPins;

impl ResetPins for NoopPins {
    fn set_boot(&mut self, high: bool)
        ensures
            *final(self) == *old(self),
    {
    }

    fn set_reset(&mut self, high: bool)
        ensures
            *final(self) == *old(self),
    {
    }
}

/// One step of the reset sequence.
#[derive(Clone, Copy, Debug, PartialEq, Eq, Structural)]
pub enum PinStep {
    /// Drive the boot-select pin.
    SetBoot(bool),
    /// Drive the reset pin.
    SetReset(bool),
    /// Wait, in milliseconds.
    Sleep(u64),
}

/// The wait between transitions, in milliseconds.
pub const RESET_SLEEP_MS: u64 = 100;

/// The reset sequence: boot pin low and chip into reset, then release with the
/// boot pin selecting normal or bootloader mode.
pub open spec fn reset_sequence(bootloader: bool) -> Seq<PinStep> {
    let release = seq![
        PinStep::SetBoot(false),
        PinStep::SetReset(true),
        PinStep::Sleep(RESET_SLEEP_MS),
        PinStep::SetBoot(bootloader),
        PinStep::SetReset(false),
    ];
    if bootloader {
        release + seq![PinStep::Sleep(RESET_SLEEP_MS), PinStep::SetBoot(false)]
    } else {
        release
    }
}

/// The steps of the reset sequence.
pub fn reset_steps(bootloader: bool) -> (r: Vec<PinStep>)
    ensures
        r@ == reset_sequence(bootloader),
{
    let mut steps: Vec<PinStep> = Vec::new();
    steps.push(PinStep::SetBoot(false));
    steps.push(PinStep::SetReset(true));
    steps.push(PinStep::Sleep(RESET_SLEEP_MS));
    steps.push(PinStep::SetBoot(bootloader));
    steps.push(PinStep::SetReset(false));
    if bootloader {
        steps.push(PinStep::Sleep(RESET_SLEEP_MS));
        steps.push(PinStep::SetBoot(false));
    }
    assert(steps@ =~= reset_sequence(bootloader));
    steps
}

/// The level of the boot-select pin after the first `n` steps, which is
/// unknown before it is first driven.
pub open spec fn boot_level(steps: Seq<PinStep>, n: int) -> Option<bool>
    decreases n,
{
    if n <= 0 {
        None
    } else {
        match steps[n - 1] {
            PinStep::SetBoot(high) => Some(high),
            _ => boot_level(steps, n - 1),
        }
    }
}

/// The level of the reset pin after the first `n` steps.
pub open spec fn reset_level(steps: Seq<PinStep>, n: int) -> Option<bool>
    decreases n,
{
    if n <= 0 {
        None
    } else {
        match steps[n - 1] {
            PinStep::SetReset(high) => Some(high),
            _ => reset_level(steps, n - 1),
        }
    }
}

/// The chip is held in reset with the boot pin low, is released with the boot
/// pin at the requested level, and in the end both pins are low.
pub proof fn law_reset_releases_the_chip(bootloader: bool)
    ensures
        ({
            let steps = reset_sequence(bootloader);
            let all = steps.len() as int;
            &&& reset_level(steps, 3) == Some(true)
            &&& boot_level(steps, 3) == Some(false)
            &&& steps[2] == PinStep::Sleep(RESET_SLEEP_MS)
            &&& reset_level(steps, 4) == Some(true)
            &&& boot_level(steps, 4) == Some(bootloader)
            &&& reset_level(steps, 5) == Some(false)
            &&& boot_level(steps, 5) == Some(bootloader)
            &&& reset_level(steps, all) == Some(false)
            &&& boot_level(steps, all) == Some(false)
        }),
{
    reveal_with_fuel(boot_level, 8);
    reveal_with_fuel(reset_level, 8);
}

}
