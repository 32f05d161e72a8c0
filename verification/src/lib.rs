//! Driver logic for seven-segment LED displays.
//!
//! The core drives a display of several digits through a serial-in,
//! parallel-out shift register: a number is encoded as a segment pattern
//! (`pin_consts`), and the pattern is shifted into the register bit by bit
//! and latched onto one digit after another (`led_control`). A second,
//! simpler wiring puts the eight segments of one digit on eight lines of
//! their own and shows text (`direct_drive`).
//!
//! The library never touches a pin. Every operation returns the signals
//! (`signal`) that make it up, in order, and the program that owns the pins
//! and the timer carries them out. What a trace of signals does on the
//! wires is defined in `wire`, and what the frames of the controllers
//! amount to there is proved in `protocol`.

pub mod direct_drive;
pub mod led_control;
pub mod pin_consts;
pub mod protocol;
pub mod signal;
pub mod wire;
