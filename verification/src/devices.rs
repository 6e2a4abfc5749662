//! Hardware-facing interfaces of the device: button, timer, display, tone,
//! watchdog, battery and storage traits, and the enums their methods speak
//! of. Concrete drivers live with the platform code; the storage facade in
//! this crate implements [`StorageDevice`].

use vstd::prelude::*;
use crate::entry::key_ok;

verus! {

/// One physical input button.
pub enum Buttons {
    A,
    B,
    C,
    P,
    Up,
    Right,
    Down,
    Left,
}

/// The bit each button occupies in a packed button state byte.
pub open spec fn spec_button_mask(b: Buttons) -> u8 {
    match b {
        Buttons::A => 1,
        Buttons::B => 2,
        Buttons::C => 4,
        Buttons::P => 8,
        Buttons::Up => 16,
        Buttons::Right => 32,
        Buttons::Down => 64,
        Buttons::Left => 128,
    }
}

impl Buttons {
    /// The bit this button occupies in a packed state byte.
    pub fn mask(&self) -> (r: u8)
        ensures
            r == spec_button_mask(*self),
    {
        match self {
            Buttons::A => 1,
            Buttons::B => 2,
            Buttons::C => 4,
            Buttons::P => 8,
            Buttons::Up => 16,
            Buttons::Right => 32,
            Buttons::Down => 64,
            Buttons::Left => 128,
        }
    }
}

/// A battery voltage sensor.
pub trait BatteryMonitorDevice {
    fn read(&mut self) -> u16;
}

/// Debounced button input.
pub trait ButtonsDevice {
    fn poll_buttons(&mut self);

    fn update_buttons(&mut self);

    fn is_held(&self, b: Buttons) -> bool;

    fn is_pressed(&self, b: Buttons) -> bool;

    fn is_released(&self, b: Buttons) -> bool;

    fn get_state(&self) -> u8;
}

/// A millisecond system timer.
pub trait SysTimerDevice {
    fn start(&mut self, ms: u32);

    fn wait_remaining<F: FnMut()>(&mut self, f: F) -> u32;

    fn delay_ms(&mut self, ms: u32);

    fn tick(&mut self);
}

/// A communication failure with a peripheral.
#[derive(Debug)]
pub struct CommError;

/// A monochrome pixel display.
pub trait DisplayDevice {
    fn draw_pixel(&mut self, x: u8, y: u8, color: bool);

    fn update(&mut self) -> bool;
}

/// A piezo speaker.
pub trait ToneDevice {
    fn tone(&self, freq: u32);

    fn no_tone(&self);
}

/// Watchdog and sleep periods, shortest to longest.
#[derive(Copy, Clone, PartialEq, Eq, Structural, Debug)]
pub enum WatchdogTimeouts {
    Millis64,
    Millis128,
    Millis256,
    Millis512,
    Seconds1,
    Seconds2,
    Seconds4,
    Seconds8,
    Seconds16,
    Seconds32,
    Seconds64,
    Seconds128,
}

/// A watchdog timer that doubles as a sleep timer.
pub trait WatchdogDevice {
    fn feed(&mut self);

    fn disable(&mut self);

    fn clear_disable_interrupt(&mut self);

    fn start_timeout(&mut self, period: WatchdogTimeouts);

    fn sleep(&mut self, period: WatchdogTimeouts);
}

/// Why a whole-file write failed.
pub enum FileWriteError {
    /// The read-back of a written payload did not match its checksum.
    ChecksumFailed,
    /// No empty index slot, or the payload does not fit the usable blocks.
    FilesystemFull,
}

/// Named binary asset storage: whole-file reads and replaces over flat
/// 16-byte ASCII keys. Every operation preserves the backend's own
/// well-formedness condition.
pub trait StorageDevice {
    /// The backend's well-formedness condition.
    spec fn inv(&self) -> bool;

    fn load_image(&mut self, key: &[u8]) -> (r: Option<Vec<u8>>)
        requires
            old(self).inv(),
            key@.len() <= 16,
        ensures
            final(self).inv(),
    ;

    fn write_image(&mut self, data: &[u8], key: &[u8]) -> (r: Result<(), FileWriteError>)
        requires
            old(self).inv(),
            key_ok(key@),
        ensures
            final(self).inv(),
    ;

    fn clear_cache(&mut self)
        requires
            old(self).inv(),
        ensures
            final(self).inv(),
    ;

    fn format_storage(&mut self)
        requires
            old(self).inv(),
        ensures
            final(self).inv(),
    ;
}

} // verus!
