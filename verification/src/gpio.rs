use vstd::prelude::*;

verus! {

/// Logic level of a GPIO line.
#[derive(Debug, Clone, Copy, PartialEq, Eq, Structural)]
pub enum Level {
    Low,
    High,
}

/// An output line: its BCM pin number and the level last driven on it.
///
/// Outputs are active-low: `Low` energizes a relay, lights the keypad LED or
/// sounds the buzzer; `High` releases them.
#[derive(Debug, Clone, Copy, PartialEq, Eq, Structural)]
pub struct OutputPin {
    pub pin: u8,
    pub level: Level,
}

impl OutputPin {
    /// An output configured and driven high (released), as it is set up.
    pub fn new_high(pin: u8) -> (p: OutputPin)
        ensures
            p == (OutputPin { pin, level: Level::High }),
    {
        OutputPin { pin, level: Level::High }
    }

    /// Drives the line high.
    pub fn set_high(&mut self)
        ensures
            *final(self) == (OutputPin { pin: old(self).pin, level: Level::High }),
    {
        self.level = Level::High;
    }

    /// Drives the line low.
    pub fn set_low(&mut self)
        ensures
            *final(self) == (OutputPin { pin: old(self).pin, level: Level::Low }),
    {
        self.level = Level::Low;
    }
}

/// An input line with pull-up, identified by its BCM pin number.
#[derive(Debug, Clone, Copy, PartialEq, Eq, Structural)]
pub struct InputPin {
    pub pin: u8,
}

impl InputPin {
    /// An input line on `pin`.
    pub fn new(pin: u8) -> (p: InputPin)
        ensures
            p.pin == pin,
    {
        InputPin { pin }
    }
}

/// A push button wired to a pulled-up input reads `Low` while pressed.
pub open spec fn is_pressed(level: Level) -> bool {
    level == Level::Low
}

} // verus!
