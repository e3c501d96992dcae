//! Event and action types shared by the state machine and its callers.

use vstd::prelude::*;

verus! {

/// Scan code of the physical key being remapped (CapsLock, scan code set 1).
pub const CAPS_LOCK: u16 = 0x3A;

/// Scan code synthesized for a tap (Escape).
pub const ESCAPE: u16 = 0x01;

/// Scan code synthesized for a hold (left Control).
pub const LEFT_CTRL: u16 = 0x1D;

/// Default tap/hold boundary in milliseconds. The timer that enforces it
/// runs outside the library; the state machine only sees its completions.
pub const DEFAULT_THRESHOLD_MS: u64 = 90;

/// Direction of a key transition.
#[derive(Clone, Copy, PartialEq, Eq, Structural, Debug)]
pub enum KeyAction {
    Down,
    Up,
}

/// One keyboard event as delivered by the multiplexed device channel:
/// the scan code, the transition, the device that produced it, and the
/// raw extra payload carried alongside (forwarded untouched).
#[derive(Clone, Copy, PartialEq, Eq, Structural, Debug)]
pub struct KeyEvent {
    pub code: u16,
    pub action: KeyAction,
    pub device: i32,
    pub info: u32,
}

/// One event synthesized by this process and injected into the stream.
#[derive(Clone, Copy, PartialEq, Eq, Structural, Debug)]
pub struct SynthEvent {
    pub code: u16,
    pub action: KeyAction,
    pub device: i32,
}

/// What the caller must do after handing an event or a timer completion
/// to the state machine. The caller performs these in order.
#[derive(Clone, Copy, PartialEq, Eq, Structural, Debug)]
pub enum OutAction {
    /// Send the received event back into the stream unchanged.
    Forward(KeyEvent),
    /// Inject a synthesized event on the given device.
    Synth(SynthEvent),
    /// Start a one-shot debounce timer for the given device.
    StartTimer(i32),
}

/// The synthesized event asserting a key down on `device`.
pub open spec fn down_ev(code: u16, device: i32) -> SynthEvent {
    SynthEvent { code, action: KeyAction::Down, device }
}

/// The synthesized event releasing a key on `device`.
pub open spec fn up_ev(code: u16, device: i32) -> SynthEvent {
    SynthEvent { code, action: KeyAction::Up, device }
}

} // verus!
