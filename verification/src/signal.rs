//! What the driver asks of the board: levels on digital output lines, and
//! blocking waits.

use vstd::prelude::*;

verus! {

/// A digital output line of the board, known by its pin number.
#[derive(Clone, Copy, Debug, PartialEq, Eq, Structural)]
pub struct Line {
    pub pin: u8,
}

/// One step for the board to carry out.
#[derive(Clone, Copy, Debug, PartialEq, Eq, Structural)]
pub enum Signal {
    /// Drive `line` to the level `high`.
    Drive { line: Line, high: bool },
    /// Block for `micros` microseconds.
    DelayUs { micros: u32 },
    /// Block for `millis` milliseconds.
    DelayMs { millis: u32 },
}

impl Line {
    /// The line on pin `pin`.
    pub fn new(pin: u8) -> (line: Line)
        ensures
            line == (Line { pin }),
    {
        Line { pin }
    }
}

impl Signal {
    /// The signal that drives `line` high.
    pub open spec fn high(line: Line) -> Signal {
        Signal::Drive { line, high: true }
    }

    /// The signal that drives `line` low.
    pub open spec fn low(line: Line) -> Signal {
        Signal::Drive { line, high: false }
    }
}

} // verus!
