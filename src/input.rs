//! Button and system-event values of the handheld.

use vstd::prelude::*;

verus! {

/// The handheld's button-like inputs: A and B, and the d-pad.
#[derive(Clone, Copy, Debug, PartialEq, Eq, Hash, Structural)]
pub enum PlaydateButton {
    A,
    B,
    Up,
    Left,
    Right,
    Down,
}

/// Bits of the device's button mask.
pub const BUTTON_LEFT: u32 = 1;
pub const BUTTON_RIGHT: u32 = 2;
pub const BUTTON_UP: u32 = 4;
pub const BUTTON_DOWN: u32 = 8;
pub const BUTTON_B: u32 = 16;
pub const BUTTON_A: u32 = 32;

impl PlaydateButton {
    /// The bit of this button in the device's button mask.
    pub open spec fn bit_spec(self) -> u32 {
        match self {
            PlaydateButton::Left => BUTTON_LEFT,
            PlaydateButton::Right => BUTTON_RIGHT,
            PlaydateButton::Up => BUTTON_UP,
            PlaydateButton::Down => BUTTON_DOWN,
            PlaydateButton::B => BUTTON_B,
            PlaydateButton::A => BUTTON_A,
        }
    }

    pub fn bit(self) -> (r: u32)
        ensures
            r == self.bit_spec(),
    {
        match self {
            PlaydateButton::Left => BUTTON_LEFT,
            PlaydateButton::Right => BUTTON_RIGHT,
            PlaydateButton::Up => BUTTON_UP,
            PlaydateButton::Down => BUTTON_DOWN,
            PlaydateButton::B => BUTTON_B,
            PlaydateButton::A => BUTTON_A,
        }
    }

    /// Whether this button's bit is set in `mask`.
    pub fn in_mask(self, mask: u32) -> (r: bool)
        ensures
            r == (mask & self.bit_spec() != 0),
    {
        mask & self.bit() != 0
    }
}

/// An event the system sends the game.
#[derive(Clone, Copy, Debug, PartialEq, Eq, Hash, Structural)]
pub enum SystemEvent {
    Init,
    InitLua,
    Lock,
    Unlock,
    Pause,
    Resume,
    Terminate,
    KeyPressed(u32),
    KeyReleased(u32),
    LowPower,
}

impl SystemEvent {
    /// The event for the system's event code `code` (in the order init, init-lua,
    /// lock, unlock, pause, resume, terminate, key pressed, key released, low
    /// power), with the simulator's key code for key events; `None` for a code
    /// outside that list.
    pub fn from_event(code: u32, sim_key_code: u32) -> (r: Option<Self>)
        ensures
            r == (if code == 0 {
                Some(SystemEvent::Init)
            } else if code == 1 {
                Some(SystemEvent::InitLua)
            } else if code == 2 {
                Some(SystemEvent::Lock)
            } else if code == 3 {
                Some(SystemEvent::Unlock)
            } else if code == 4 {
                Some(SystemEvent::Pause)
            } else if code == 5 {
                Some(SystemEvent::Resume)
            } else if code == 6 {
                Some(SystemEvent::Terminate)
            } else if code == 7 {
                Some(SystemEvent::KeyPressed(sim_key_code))
            } else if code == 8 {
                Some(SystemEvent::KeyReleased(sim_key_code))
            } else if code == 9 {
                Some(SystemEvent::LowPower)
            } else {
                None
            }),
    {
        match code {
            0 => Some(SystemEvent::Init),
            1 => Some(SystemEvent::InitLua),
            2 => Some(SystemEvent::Lock),
            3 => Some(SystemEvent::Unlock),
            4 => Some(SystemEvent::Pause),
            5 => Some(SystemEvent::Resume),
            6 => Some(SystemEvent::Terminate),
            7 => Some(SystemEvent::KeyPressed(sim_key_code)),
            8 => Some(SystemEvent::KeyReleased(sim_key_code)),
            9 => Some(SystemEvent::LowPower),
            _ => None,
        }
    }
}

} // verus!
